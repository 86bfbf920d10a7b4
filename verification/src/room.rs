//! The room as a whole: one registry, any number of sessions, and everything
//! that was ever published, in order.
//!
//! Nothing here runs. The room is the mathematical picture of what happens
//! when sessions take their steps one after the other on a shared registry,
//! and the laws below say what holds of it after any sequence of events.

use vstd::prelude::*;
use crate::codec::DecodeError;
use crate::envelope::{Envelope, Tag};
use crate::escape::is_clean;
use crate::registry::{lemma_without_absent, lemma_without_contains, lemma_without_no_duplicates, without};
use crate::roster::{is_line, join_lines, lemma_roster_names_of_join, roster, roster_names};
use crate::session::{
    clean_state, end_step, holds_its_name, leave_of, lemma_end_publishes_sanitized,
    lemma_step_publishes_sanitized, step, Phase, Step,
};

verus! {

/// The state of the room.
pub struct Room {
    /// What the registry holds.
    pub names: Seq<Seq<char>>,
    /// Every session that ever connected, by the order of its connecting.
    pub sessions: Seq<Phase>,
    /// Every envelope that was published, oldest first.
    pub published: Seq<Envelope>,
}

/// What can happen in the room.
pub enum Event {
    /// A client connects: a new session, unbound.
    Connect,
    /// The session with this number receives a frame.
    Frame(nat, Result<Envelope, DecodeError>),
    /// The connection of the session with this number goes away.
    Disconnect(nat),
}

/// The room before anyone has connected.
pub open spec fn empty_room() -> Room {
    Room { names: Seq::empty(), sessions: Seq::empty(), published: Seq::empty() }
}

/// The room after session `at` has taken step `s`.
pub open spec fn after(room: Room, at: nat, s: Step) -> Room {
    Room {
        names: s.names,
        sessions: room.sessions.update(at as int, s.phase),
        published: room.published + s.publish,
    }
}

/// The room after one event. An event for a session that does not exist
/// changes nothing.
pub open spec fn apply(room: Room, event: Event) -> Room {
    match event {
        Event::Connect => Room {
            names: room.names,
            sessions: room.sessions.push(Phase::Unbound),
            published: room.published,
        },
        Event::Frame(at, inbound) => if at < room.sessions.len() {
            after(room, at, step(room.sessions[at as int], room.names, inbound))
        } else {
            room
        },
        Event::Disconnect(at) => if at < room.sessions.len() {
            after(room, at, end_step(room.sessions[at as int], room.names))
        } else {
            room
        },
    }
}

/// The room after a sequence of events, first to last.
pub open spec fn run(room: Room, events: Seq<Event>) -> Room
    decreases events.len(),
{
    if events.len() == 0 {
        room
    } else {
        apply(run(room, events.drop_last()), events.last())
    }
}

/// Whether some session is bound to `name`.
pub open spec fn is_online(room: Room, name: Seq<char>) -> bool {
    exists|i: int| 0 <= i < room.sessions.len() && (#[trigger] room.sessions[i]) == Phase::Bound(name)
}

/// The names of all sessions that are bound.
pub open spec fn online_names(room: Room) -> Set<Seq<char>> {
    Set::new(|name: Seq<char>| is_online(room, name))
}

/// The content of the roster that was published last, if any was.
pub open spec fn last_roster(published: Seq<Envelope>) -> Option<Seq<char>>
    decreases published.len(),
{
    if published.len() == 0 {
        None
    } else if published.last().tag() == Some(Tag::Userlist) {
        Some(published.last().content)
    } else {
        last_roster(published.drop_last())
    }
}

/// The roster that was published last lists what the registry holds; if none
/// was published, the registry is empty.
pub open spec fn roster_is_current(room: Room) -> bool {
    match last_roster(room.published) {
        Some(content) => content == join_lines(room.names),
        None => room.names.len() == 0,
    }
}

/// What holds of the room at all times.
pub open spec fn coherent(room: Room) -> bool {
    &&& room.names.no_duplicates()
    &&& forall|i: int|
        0 <= i < room.sessions.len() ==> holds_its_name(#[trigger] room.sessions[i], room.names)
    &&& forall|i: int, j: int|
        0 <= i < j < room.sessions.len() && (#[trigger] room.sessions[i]) is Bound && (
        #[trigger] room.sessions[j]) is Bound ==> room.sessions[i] != room.sessions[j]
    &&& forall|k: int| 0 <= k < room.names.len() ==> is_online(room, #[trigger] room.names[k])
    &&& forall|k: int| 0 <= k < room.names.len() ==> is_clean(#[trigger] room.names[k])
    &&& forall|k: int|
        0 <= k < room.published.len() ==> (#[trigger] room.published[k]).is_sanitized()
    &&& roster_is_current(room)
}

proof fn lemma_last_roster_unchanged(published: Seq<Envelope>, more: Seq<Envelope>)
    requires
        forall|k: int| 0 <= k < more.len() ==> (#[trigger] more[k]).tag() != Some(Tag::Userlist),
    ensures
        last_roster(published + more) == last_roster(published),
    decreases more.len(),
{
    if more.len() == 0 {
        assert(published + more =~= published);
    } else {
        let init = more.drop_last();
        assert((published + more).drop_last() =~= published + init);
        assert((published + more).last() == more[more.len() - 1]);
        assert forall|k: int| 0 <= k < init.len() implies (#[trigger] init[k]).tag() != Some(
            Tag::Userlist,
        ) by {
            assert(init[k] == more[k]);
        }
        lemma_last_roster_unchanged(published, init);
    }
}

proof fn lemma_clean_state_of_session(room: Room, at: int)
    requires
        coherent(room),
        0 <= at < room.sessions.len(),
    ensures
        clean_state(room.sessions[at], room.names),
{
    let phase = room.sessions[at];
    assert(holds_its_name(phase, room.names));
    assert(is_clean(Seq::<char>::empty()));
    if let Phase::Bound(name) = phase {
        let k = choose|k: int| 0 <= k < room.names.len() && room.names[k] == name;
        assert(is_clean(room.names[k]));
    }
}

proof fn lemma_published_stays_sanitized(room: Room, at: nat, s: Step)
    requires
        coherent(room),
        forall|i: int| 0 <= i < s.publish.len() ==> (#[trigger] s.publish[i]).is_sanitized(),
    ensures
        forall|k: int|
            0 <= k < after(room, at, s).published.len() ==> (#[trigger] after(
                room,
                at,
                s,
            ).published[k]).is_sanitized(),
{
    let all = after(room, at, s).published;
    assert forall|k: int| 0 <= k < all.len() implies (#[trigger] all[k]).is_sanitized() by {
        if k < room.published.len() {
            assert(all[k] == room.published[k]);
        } else {
            assert(all[k] == s.publish[k - room.published.len()]);
        }
    }
}

/// A step that leaves the registry alone and binds or unbinds no one keeps
/// the room coherent, if it publishes no roster.
proof fn lemma_idle_step_coherent(room: Room, at: nat, s: Step)
    requires
        coherent(room),
        at < room.sessions.len(),
        s.names == room.names,
        s.phase == room.sessions[at as int] || (!(room.sessions[at as int] is Bound) && !(
        s.phase is Bound)),
        forall|i: int| 0 <= i < s.publish.len() ==> (#[trigger] s.publish[i]).is_sanitized(),
        forall|i: int|
            0 <= i < s.publish.len() ==> (#[trigger] s.publish[i]).tag() != Some(Tag::Userlist),
    ensures
        coherent(after(room, at, s)),
{
    let next = after(room, at, s);
    lemma_published_stays_sanitized(room, at, s);
    lemma_last_roster_unchanged(room.published, s.publish);
    assert forall|k: int| 0 <= k < next.names.len() implies is_online(
        next,
        #[trigger] next.names[k],
    ) by {
        let name = room.names[k];
        assert(is_online(room, name));
        let i = choose|i: int|
            0 <= i < room.sessions.len() && (#[trigger] room.sessions[i]) == Phase::Bound(name);
        assert(next.sessions[i] == Phase::Bound(name));
    }
    assert forall|i: int| 0 <= i < next.sessions.len() implies holds_its_name(
        #[trigger] next.sessions[i],
        next.names,
    ) by {
        assert(holds_its_name(room.sessions[i], room.names));
    }
    assert forall|i: int, j: int|
        0 <= i < j < next.sessions.len() && (#[trigger] next.sessions[i]) is Bound && (
        #[trigger] next.sessions[j]) is Bound implies next.sessions[i] != next.sessions[j] by {
        assert(room.sessions[i] is Bound && room.sessions[j] is Bound);
    }
}

/// An admitted `join` keeps the room coherent.
proof fn lemma_join_coherent(room: Room, at: nat, s: Step, name: Seq<char>)
    requires
        coherent(room),
        at < room.sessions.len(),
        !(room.sessions[at as int] is Bound),
        name.len() > 0,
        is_clean(name),
        !room.names.contains(name),
        s.phase == Phase::Bound(name),
        s.names == room.names.push(name),
        s.publish.len() == 2,
        s.publish[1] == roster(s.names, None),
        forall|i: int| 0 <= i < s.publish.len() ==> (#[trigger] s.publish[i]).is_sanitized(),
    ensures
        coherent(after(room, at, s)),
{
    let next = after(room, at, s);
    Tag::Userlist.lemma_parse_name();
    lemma_published_stays_sanitized(room, at, s);
    assert(next.published.last() == s.publish[1]);
    assert(next.names[room.names.len() as int] == name);
    assert forall|k: int| 0 <= k < next.names.len() implies is_online(
        next,
        #[trigger] next.names[k],
    ) by {
        if k < room.names.len() {
            let other = room.names[k];
            assert(is_online(room, other));
            let i = choose|i: int|
                0 <= i < room.sessions.len() && (#[trigger] room.sessions[i]) == Phase::Bound(
                    other,
                );
            assert(next.sessions[i] == Phase::Bound(other));
        } else {
            assert(next.sessions[at as int] == Phase::Bound(name));
        }
    }
    assert forall|i: int| 0 <= i < next.sessions.len() implies holds_its_name(
        #[trigger] next.sessions[i],
        next.names,
    ) by {
        if i != at {
            assert(holds_its_name(room.sessions[i], room.names));
            if let Phase::Bound(other) = room.sessions[i] {
                let k = choose|k: int| 0 <= k < room.names.len() && room.names[k] == other;
                assert(next.names[k] == other);
            }
        }
    }
    assert forall|i: int, j: int|
        0 <= i < j < next.sessions.len() && (#[trigger] next.sessions[i]) is Bound && (
        #[trigger] next.sessions[j]) is Bound implies next.sessions[i] != next.sessions[j] by {
        if i == at {
            assert(holds_its_name(room.sessions[j], room.names));
        } else if j == at {
            assert(holds_its_name(room.sessions[i], room.names));
        } else {
            assert(room.sessions[i] is Bound && room.sessions[j] is Bound);
        }
    }
    assert forall|k: int| 0 <= k < next.names.len() implies is_clean(#[trigger] next.names[k]) by {
        if k < room.names.len() {
            assert(next.names[k] == room.names[k]);
        }
    }
    assert forall|i: int, j: int|
        0 <= i < next.names.len() && 0 <= j < next.names.len() && i != j implies next.names[i]
        != next.names[j] by {
        if i < room.names.len() && j < room.names.len() {
            assert(room.names[i] != room.names[j]);
        } else if i < room.names.len() {
            assert(room.names.contains(room.names[i]));
        } else {
            assert(room.names.contains(room.names[j]));
        }
    }
}

/// The end of a bound session keeps the room coherent.
proof fn lemma_leave_coherent(room: Room, at: nat, name: Seq<char>)
    requires
        coherent(room),
        at < room.sessions.len(),
        room.sessions[at as int] == Phase::Bound(name),
    ensures
        coherent(after(room, at, end_step(room.sessions[at as int], room.names))),
{
    let s = end_step(room.sessions[at as int], room.names);
    let next = after(room, at, s);
    let left = without(room.names, name);
    Tag::Userlist.lemma_parse_name();
    lemma_clean_state_of_session(room, at as int);
    lemma_end_publishes_sanitized(room.sessions[at as int], room.names);
    lemma_published_stays_sanitized(room, at, s);
    lemma_without_no_duplicates(room.names, name);
    lemma_without_contains(room.names, name, name);
    lemma_without_absent(left, name);
    assert(next.published.last() == s.publish[1]);
    assert forall|k: int| 0 <= k < left.len() implies is_online(next, #[trigger] left[k]) && is_clean(
        left[k],
    ) by {
        let other = left[k];
        assert(left.contains(other));
        lemma_without_contains(room.names, name, other);
        let j = choose|j: int| 0 <= j < room.names.len() && room.names[j] == other;
        assert(is_online(room, room.names[j]));
        assert(is_clean(room.names[j]));
        let i = choose|i: int|
            0 <= i < room.sessions.len() && (#[trigger] room.sessions[i]) == Phase::Bound(other);
        assert(next.sessions[i] == Phase::Bound(other));
    }
    assert forall|i: int| 0 <= i < next.sessions.len() implies holds_its_name(
        #[trigger] next.sessions[i],
        next.names,
    ) by {
        if i != at {
            assert(holds_its_name(room.sessions[i], room.names));
            if let Phase::Bound(other) = room.sessions[i] {
                if i < at {
                    assert(room.sessions[i] != room.sessions[at as int]);
                } else {
                    assert(room.sessions[at as int] != room.sessions[i]);
                }
                lemma_without_contains(room.names, name, other);
            }
        }
    }
    assert forall|i: int, j: int|
        0 <= i < j < next.sessions.len() && (#[trigger] next.sessions[i]) is Bound && (
        #[trigger] next.sessions[j]) is Bound implies next.sessions[i] != next.sessions[j] by {
        assert(room.sessions[i] is Bound && room.sessions[j] is Bound);
    }
}

/// One event keeps a coherent room coherent.
pub proof fn lemma_apply_coherent(room: Room, event: Event)
    requires
        coherent(room),
    ensures
        coherent(apply(room, event)),
{
    match event {
        Event::Connect => {
            let next = apply(room, event);
            assert forall|k: int| 0 <= k < next.names.len() implies is_online(
                next,
                #[trigger] next.names[k],
            ) by {
                let name = room.names[k];
                assert(is_online(room, name));
                let i = choose|i: int|
                    0 <= i < room.sessions.len() && (#[trigger] room.sessions[i]) == Phase::Bound(
                        name,
                    );
                assert(next.sessions[i] == Phase::Bound(name));
            }
            assert forall|i: int| 0 <= i < next.sessions.len() implies holds_its_name(
                #[trigger] next.sessions[i],
                next.names,
            ) by {
                if i < room.sessions.len() {
                    assert(holds_its_name(room.sessions[i], room.names));
                }
            }
            assert forall|i: int, j: int|
                0 <= i < j < next.sessions.len() && (#[trigger] next.sessions[i]) is Bound && (
                #[trigger] next.sessions[j]) is Bound implies next.sessions[i]
                != next.sessions[j] by {
                assert(room.sessions[i] is Bound && room.sessions[j] is Bound);
            }
        },
        Event::Frame(at, inbound) => {
            if at < room.sessions.len() {
                let phase = room.sessions[at as int];
                let s = step(phase, room.names, inbound);
                lemma_clean_state_of_session(room, at as int);
                lemma_step_publishes_sanitized(phase, room.names, inbound);
                Tag::Userlist.lemma_parse_name();
                if s.phase is Bound && !(phase is Bound) {
                    let name = s.phase.bound_name();
                    lemma_join_coherent(room, at, s, name);
                } else {
                    lemma_idle_step_coherent(room, at, s);
                }
            }
        },
        Event::Disconnect(at) => {
            if at < room.sessions.len() {
                let phase = room.sessions[at as int];
                let s = end_step(phase, room.names);
                match phase {
                    Phase::Bound(name) => {
                        lemma_leave_coherent(room, at, name);
                    },
                    _ => {
                        lemma_idle_step_coherent(room, at, s);
                    },
                }
            }
        },
    }
}

/// Whatever happens, in whatever order, the room is coherent.
pub proof fn lemma_run_coherent(events: Seq<Event>)
    ensures
        coherent(run(empty_room(), events)),
    decreases events.len(),
{
    if events.len() > 0 {
        lemma_run_coherent(events.drop_last());
        lemma_apply_coherent(run(empty_room(), events.drop_last()), events.last());
    }
}

/// Presence is unique: after any sequence of events no two sessions are
/// bound to the same name, and every bound session holds its name in the
/// registry.
pub proof fn lemma_presence_unique(events: Seq<Event>, i: int, j: int)
    requires
        0 <= i < run(empty_room(), events).sessions.len(),
        0 <= j < run(empty_room(), events).sessions.len(),
        i != j,
        run(empty_room(), events).sessions[i] is Bound,
        run(empty_room(), events).sessions[j] is Bound,
    ensures
        run(empty_room(), events).sessions[i].bound_name() != run(
            empty_room(),
            events,
        ).sessions[j].bound_name(),
        run(empty_room(), events).names.contains(
            run(empty_room(), events).sessions[i].bound_name(),
        ),
{
    let room = run(empty_room(), events);
    lemma_run_coherent(events);
    assert(holds_its_name(room.sessions[i], room.names));
    if i < j {
        assert(room.sessions[i] != room.sessions[j]);
    } else {
        assert(room.sessions[j] != room.sessions[i]);
    }
}

/// The registry holds exactly the names of the sessions that are bound.
pub proof fn lemma_registry_is_presence(events: Seq<Event>)
    ensures
        run(empty_room(), events).names.no_duplicates(),
        run(empty_room(), events).names.to_set() == online_names(run(empty_room(), events)),
{
    let room = run(empty_room(), events);
    lemma_run_coherent(events);
    assert forall|name: Seq<char>| room.names.contains(name) <==> is_online(room, name) by {
        if room.names.contains(name) {
            let k = choose|k: int| 0 <= k < room.names.len() && room.names[k] == name;
            assert(is_online(room, room.names[k]));
        }
        if is_online(room, name) {
            let i = choose|i: int|
                0 <= i < room.sessions.len() && (#[trigger] room.sessions[i]) == Phase::Bound(name);
            assert(holds_its_name(room.sessions[i], room.names));
        }
    }
    assert(room.names.to_set() =~= online_names(room));
}

/// The roster is consistent: after any sequence of events the roster that
/// was published last holds one line for each name in the registry, in the
/// registry's order; while none has been published, nobody is online. If no
/// name that is online has a newline in it, a client that splits the roster
/// at its newlines reads exactly the names of the sessions that are bound.
pub proof fn lemma_roster_consistency(events: Seq<Event>)
    ensures
        (match last_roster(run(empty_room(), events).published) {
            Some(content) => {
                &&& content == join_lines(run(empty_room(), events).names)
                &&& (forall|k: int|
                    0 <= k < run(empty_room(), events).names.len() ==> !(#[trigger] run(
                        empty_room(),
                        events,
                    ).names[k]).contains('\n')) ==> roster_names(content).to_set()
                    == online_names(run(empty_room(), events))
            },
            None => online_names(run(empty_room(), events)) == Set::<Seq<char>>::empty(),
        }),
{
    let room = run(empty_room(), events);
    lemma_run_coherent(events);
    lemma_registry_is_presence(events);
    match last_roster(room.published) {
        Some(content) => {
            if forall|k: int|
                0 <= k < room.names.len() ==> !(#[trigger] room.names[k]).contains('\n') {
                assert forall|k: int| 0 <= k < room.names.len() implies is_line(
                    #[trigger] room.names[k],
                ) by {
                    let name = room.names[k];
                    assert(is_online(room, name));
                    let i = choose|i: int|
                        0 <= i < room.sessions.len() && (#[trigger] room.sessions[i])
                            == Phase::Bound(name);
                    assert(holds_its_name(room.sessions[i], room.names));
                }
                lemma_roster_names_of_join(room.names);
            }
        },
        None => {
            assert(room.names.to_set() =~= Set::<Seq<char>>::empty());
        },
    }
}

/// What was published stays published: events only add to the end.
pub proof fn lemma_published_grows(room: Room, events: Seq<Event>)
    ensures
        room.published.is_prefix_of(run(room, events).published),
    decreases events.len(),
{
    if events.len() > 0 {
        lemma_published_grows(room, events.drop_last());
        let before = run(room, events.drop_last());
        let next = apply(before, events.last());
        assert(before.published.is_prefix_of(next.published)) by {
            assert(next.published.len() >= before.published.len());
            assert(next.published.subrange(0, before.published.len() as int)
                =~= before.published);
        }
        assert(room.published.is_prefix_of(next.published)) by {
            assert(next.published.subrange(0, room.published.len() as int)
                =~= room.published);
        }
    } else {
        assert(room.published.subrange(0, room.published.len() as int) =~= room.published);
    }
}

/// Teardown is complete: when the connection of a bound session goes away,
/// after whatever went before, the session is over, nobody is online under
/// its name, the registry does not hold the name, and a `leave` that names
/// it has been published.
pub proof fn lemma_teardown_is_complete(events: Seq<Event>, at: nat, name: Seq<char>)
    requires
        at < run(empty_room(), events).sessions.len(),
        run(empty_room(), events).sessions[at as int] == Phase::Bound(name),
    ensures
        ({
            let next = apply(run(empty_room(), events), Event::Disconnect(at));
            &&& next.sessions[at as int] is Ended
            &&& !next.names.contains(name)
            &&& !is_online(next, name)
            &&& next.published.contains(leave_of(name))
        }),
{
    let room = run(empty_room(), events);
    let next = apply(room, Event::Disconnect(at));
    lemma_run_coherent(events);
    lemma_apply_coherent(room, Event::Disconnect(at));
    lemma_without_contains(room.names, name, name);
    assert(next.published[room.published.len() as int] == leave_of(name));
    if is_online(next, name) {
        let i = choose|i: int|
            0 <= i < next.sessions.len() && (#[trigger] next.sessions[i]) == Phase::Bound(name);
        assert(holds_its_name(next.sessions[i], next.names));
    }
}

/// Everything that was ever published is sanitized.
pub proof fn lemma_published_is_sanitized(events: Seq<Event>, k: int)
    requires
        0 <= k < run(empty_room(), events).published.len(),
    ensures
        run(empty_room(), events).published[k].is_sanitized(),
{
    lemma_run_coherent(events);
}

} // verus!
