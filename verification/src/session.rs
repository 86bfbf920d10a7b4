//! The protocol state machine of one connection.
//!
//! A session starts unbound. A `join` that the registry admits binds it to a
//! name; from then on it may publish messages under that name. When the
//! connection goes away the session is torn down: the name is released and
//! the room is told. The session decides; sending and publishing is done by
//! whoever drives it.

use vstd::prelude::*;
use crate::codec::{decode, decoded_view, envelope_of, json_members, DecodeError};
use crate::envelope::{generate_reply, Envelope, SocketMessage, Tag};
use crate::escape::is_clean;
use crate::registry::{lemma_without_contains, without, Registry};
use crate::roster::{build_roster, lemma_roster_is_sanitized, roster};
use crate::text::text_eq;

verus! {

/// Where a session stands.
pub enum Phase {
    /// Connected, no name yet.
    Unbound,
    /// Holds this name in the registry.
    Bound(Seq<char>),
    /// Over: nothing is accepted any more.
    Ended,
}

impl Phase {
    /// The name that the session holds, empty if it holds none.
    pub open spec fn bound_name(self) -> Seq<char> {
        match self {
            Phase::Bound(name) => name,
            _ => Seq::empty(),
        }
    }
}

/// What a client did wrong.
#[derive(Clone, Copy, Debug, PartialEq, Eq, Structural)]
pub enum Fault {
    /// The frame is no envelope.
    Decode(DecodeError),
    /// A `message` whose `sender` is not the name that the session holds.
    AuthorshipMismatch,
    /// A `join` for a name that is online.
    NameTaken,
    /// A `join` for the empty name, which stands for "no name".
    NameEmpty,
    /// A `message` from a session that has not joined.
    MessageBeforeJoin,
    /// A `join` from a session that has joined.
    DuplicateJoin,
    /// A tag that clients do not send, or that is not known at all.
    UnexpectedTag,
}

impl Fault {
    /// Whether the session ends with this fault.
    pub open spec fn is_terminal(self) -> bool {
        self == Fault::NameTaken || self == Fault::NameEmpty
    }

    /// The tag under which the client is told.
    pub open spec fn tag(self) -> Tag {
        if self.is_terminal() {
            Tag::InvalidUsername
        } else {
            Tag::BadRequest
        }
    }

    /// The sentence that the client is told.
    pub open spec fn spec_reason(self) -> Seq<char> {
        match self {
            Fault::Decode(e) => e.spec_reason(),
            Fault::AuthorshipMismatch => "Username credentials dont match"@,
            Fault::NameTaken => "username already in use"@,
            Fault::NameEmpty => "username must not be empty"@,
            Fault::MessageBeforeJoin => "join before sending messages"@,
            Fault::DuplicateJoin => "already joined"@,
            Fault::UnexpectedTag => "unsupported message type"@,
        }
    }

    /// The private envelope that tells the client.
    pub open spec fn envelope(self) -> Envelope {
        Envelope::reply(self.tag().name(), self.spec_reason())
    }

    /// Whether the session ends with this fault.
    pub fn ends_session(self) -> (b: bool)
        ensures
            b == self.is_terminal(),
    {
        match self {
            Fault::NameTaken => true,
            Fault::NameEmpty => true,
            _ => false,
        }
    }

    /// A sentence for the client.
    pub fn reason(self) -> (s: &'static str)
        ensures
            s@ == self.spec_reason(),
    {
        match self {
            Fault::Decode(e) => e.reason(),
            Fault::AuthorshipMismatch => "Username credentials dont match",
            Fault::NameTaken => "username already in use",
            Fault::NameEmpty => "username must not be empty",
            Fault::MessageBeforeJoin => "join before sending messages",
            Fault::DuplicateJoin => "already joined",
            Fault::UnexpectedTag => "unsupported message type",
        }
    }

    /// Builds the private envelope: `invalid_username` for a fault that ends
    /// the session, `bad_request` for every other.
    pub fn reply(self) -> (m: SocketMessage)
        ensures
            m@ == self.envelope(),
    {
        let tag = if self.ends_session() {
            Tag::InvalidUsername
        } else {
            Tag::BadRequest
        };
        generate_reply(tag.as_str(), self.reason())
    }
}

/// One step of a session, as mathematics: where the session and the registry
/// stand afterwards, and what is to be sent.
pub struct Step {
    pub phase: Phase,
    pub names: Seq<Seq<char>>,
    /// Envelopes for the whole room, in the order in which they go out.
    pub publish: Seq<Envelope>,
    /// An envelope for this client alone.
    pub reply: Option<Envelope>,
    /// Whether the connection is to be closed.
    pub close: bool,
}

/// The note that a `leave` envelope carries.
pub open spec fn leave_note() -> Seq<char> {
    "User left"@
}

/// The envelope that tells the room that `name` has left.
pub open spec fn leave_of(name: Seq<char>) -> Envelope {
    Envelope { msg_type: Tag::Leave.name(), sender: name, content: leave_note() }
}

/// Nothing happens.
pub open spec fn quiet(phase: Phase, names: Seq<Seq<char>>) -> Step {
    Step { phase, names, publish: Seq::empty(), reply: None, close: phase is Ended }
}

/// The client is told of a fault; the session ends if the fault is terminal.
pub open spec fn refuse(phase: Phase, names: Seq<Seq<char>>, fault: Fault) -> Step {
    Step {
        phase: if fault.is_terminal() {
            Phase::Ended
        } else {
            phase
        },
        names,
        publish: Seq::empty(),
        reply: Some(fault.envelope()),
        close: fault.is_terminal(),
    }
}

/// A sanitized `join`. The name asked for is its `content`.
pub open spec fn join_step(phase: Phase, names: Seq<Seq<char>>, env: Envelope) -> Step {
    let name = env.content;
    if phase is Bound {
        refuse(phase, names, Fault::DuplicateJoin)
    } else if name.len() == 0 {
        refuse(phase, names, Fault::NameEmpty)
    } else if names.contains(name) {
        refuse(phase, names, Fault::NameTaken)
    } else {
        Step {
            phase: Phase::Bound(name),
            names: names.push(name),
            publish: seq![env, roster(names.push(name), None)],
            reply: None,
            close: false,
        }
    }
}

/// A sanitized `message`. It is published if its `sender` is the name that
/// the session holds.
pub open spec fn message_step(phase: Phase, names: Seq<Seq<char>>, env: Envelope) -> Step {
    match phase {
        Phase::Bound(name) => if env.sender == name {
            Step { phase, names, publish: seq![env], reply: None, close: false }
        } else {
            refuse(phase, names, Fault::AuthorshipMismatch)
        },
        _ => refuse(phase, names, Fault::MessageBeforeJoin),
    }
}

/// What a session does with one inbound frame, decoded or not.
pub open spec fn step(
    phase: Phase,
    names: Seq<Seq<char>>,
    inbound: Result<Envelope, DecodeError>,
) -> Step {
    if phase is Ended {
        quiet(phase, names)
    } else {
        match inbound {
            Err(e) => refuse(phase, names, Fault::Decode(e)),
            Ok(raw) => {
                let env = raw.sanitized();
                match env.tag() {
                    Some(Tag::Heartbeat) => quiet(phase, names),
                    Some(Tag::Leave) => quiet(phase, names),
                    Some(Tag::Join) => join_step(phase, names, env),
                    Some(Tag::Message) => message_step(phase, names, env),
                    _ => refuse(phase, names, Fault::UnexpectedTag),
                }
            },
        }
    }
}

/// What the end of a connection does: a bound session releases its name and
/// the room is told, first of the leave, then of the roster that is left.
pub open spec fn end_step(phase: Phase, names: Seq<Seq<char>>) -> Step {
    match phase {
        Phase::Bound(name) => Step {
            phase: Phase::Ended,
            names: without(names, name),
            publish: seq![leave_of(name), roster(without(names, name), Some(name))],
            reply: None,
            close: true,
        },
        _ => Step { phase: Phase::Ended, names, publish: Seq::empty(), reply: None, close: true },
    }
}

/// Nothing that a session or the registry holds has a markup character in it.
pub open spec fn clean_state(phase: Phase, names: Seq<Seq<char>>) -> bool {
    &&& is_clean(phase.bound_name())
    &&& forall|i: int| 0 <= i < names.len() ==> is_clean(#[trigger] names[i])
}

/// A session that is bound holds its name in the registry, and the name is
/// not empty.
pub open spec fn holds_its_name(phase: Phase, names: Seq<Seq<char>>) -> bool {
    phase matches Phase::Bound(name) ==> name.len() > 0 && names.contains(name)
}

/// A heartbeat is ignored wherever the session stands: nothing is published,
/// nothing is answered, nothing changes.
pub proof fn lemma_heartbeat_is_silent(phase: Phase, names: Seq<Seq<char>>, raw: Envelope)
    requires
        raw.tag() == Some(Tag::Heartbeat),
    ensures
        step(phase, names, Ok(raw)).publish.len() == 0,
        step(phase, names, Ok(raw)).reply is None,
        step(phase, names, Ok(raw)).phase == phase,
        step(phase, names, Ok(raw)).names == names,
{
}

/// A `leave` from a client is ignored in the same way.
pub proof fn lemma_client_leave_is_ignored(phase: Phase, names: Seq<Seq<char>>, raw: Envelope)
    requires
        raw.tag() == Some(Tag::Leave),
    ensures
        step(phase, names, Ok(raw)).publish.len() == 0,
        step(phase, names, Ok(raw)).reply is None,
        step(phase, names, Ok(raw)).phase == phase,
        step(phase, names, Ok(raw)).names == names,
{
}

/// Whatever comes in, a `message` that goes out to the room carries the name
/// that the session holds, and only a bound session publishes one.
pub proof fn lemma_message_authorship(
    phase: Phase,
    names: Seq<Seq<char>>,
    inbound: Result<Envelope, DecodeError>,
    i: int,
)
    requires
        0 <= i < step(phase, names, inbound).publish.len(),
        step(phase, names, inbound).publish[i].tag() == Some(Tag::Message),
    ensures
        phase is Bound,
        step(phase, names, inbound).phase == phase,
        step(phase, names, inbound).publish[i].sender == phase.bound_name(),
{
    Tag::Userlist.lemma_parse_name();
}

/// Every envelope that a step publishes is sanitized, and the state stays
/// free of markup, if it was free of it before.
pub proof fn lemma_step_publishes_sanitized(
    phase: Phase,
    names: Seq<Seq<char>>,
    inbound: Result<Envelope, DecodeError>,
)
    requires
        clean_state(phase, names),
    ensures
        clean_state(step(phase, names, inbound).phase, step(phase, names, inbound).names),
        forall|i: int|
            0 <= i < step(phase, names, inbound).publish.len() ==> (
            #[trigger] step(phase, names, inbound).publish[i]).is_sanitized(),
{
    let s = step(phase, names, inbound);
    assert(is_clean(Seq::<char>::empty()));
    if let Ok(raw) = inbound {
        crate::envelope::lemma_sanitized_envelope(raw);
        let env = raw.sanitized();
        if !(phase is Ended) && env.tag() == Some(Tag::Join) && s.phase is Bound {
            let after = names.push(env.content);
            assert forall|i: int| 0 <= i < after.len() implies is_clean(#[trigger] after[i]) by {
                if i < names.len() {
                    assert(after[i] == names[i]);
                }
            }
            lemma_roster_is_sanitized(after, None);
        }
    }
}

/// The same for the end of a connection.
pub proof fn lemma_end_publishes_sanitized(phase: Phase, names: Seq<Seq<char>>)
    requires
        clean_state(phase, names),
    ensures
        clean_state(end_step(phase, names).phase, end_step(phase, names).names),
        forall|i: int|
            0 <= i < end_step(phase, names).publish.len() ==> (#[trigger] end_step(
                phase,
                names,
            ).publish[i]).is_sanitized(),
{
    reveal_strlit("User left");
    assert(is_clean(Seq::<char>::empty()));
    if let Phase::Bound(name) = phase {
        let left = without(names, name);
        assert forall|i: int| 0 <= i < left.len() implies is_clean(#[trigger] left[i]) by {
            assert(left.contains(left[i]));
            lemma_without_contains(names, name, left[i]);
            let j = choose|j: int| 0 <= j < names.len() && names[j] == left[i];
            assert(is_clean(names[j]));
        }
        lemma_roster_is_sanitized(left, Some(name));
    }
}

/// No frame unbinds a session or touches the registry on its behalf: a bound
/// session stays bound to its name, and open, until it is torn down.
pub proof fn lemma_bound_stays_bound(
    phase: Phase,
    names: Seq<Seq<char>>,
    inbound: Result<Envelope, DecodeError>,
)
    requires
        phase is Bound,
    ensures
        step(phase, names, inbound).phase == phase,
        step(phase, names, inbound).names == names,
        !step(phase, names, inbound).close,
{
}

/// When a bound session ends, the registry no longer holds its name, and a
/// `leave` that names it goes out, followed by a roster without it. Ending
/// a session that is over changes nothing and publishes nothing.
pub proof fn lemma_teardown_complete(phase: Phase, names: Seq<Seq<char>>)
    ensures
        end_step(phase, names).phase is Ended,
        phase matches Phase::Bound(name) ==> ({
            &&& !end_step(phase, names).names.contains(name)
            &&& end_step(phase, names).publish.len() == 2
            &&& end_step(phase, names).publish[0].tag() == Some(Tag::Leave)
            &&& end_step(phase, names).publish[0].sender == name
            &&& end_step(phase, names).publish[1].tag() == Some(Tag::Userlist)
        }),
        end_step(Phase::Ended, end_step(phase, names).names).names == end_step(phase, names).names,
        end_step(Phase::Ended, end_step(phase, names).names).publish.len() == 0,
{
    Tag::Leave.lemma_parse_name();
    Tag::Userlist.lemma_parse_name();
    if let Phase::Bound(name) = phase {
        lemma_without_contains(names, name, name);
    }
}

/// A `join` for a name that is online is refused: the client gets
/// `invalid_username`, the session ends, nothing is published and the
/// registry is left alone.
pub proof fn lemma_join_refused_when_taken(names: Seq<Seq<char>>, raw: Envelope)
    requires
        raw.tag() == Some(Tag::Join),
        names.contains(raw.sanitized().content),
        raw.content.len() > 0,
    ensures
        step(Phase::Unbound, names, Ok(raw)).reply == Some(Fault::NameTaken.envelope()),
        Fault::NameTaken.envelope().tag() == Some(Tag::InvalidUsername),
        step(Phase::Unbound, names, Ok(raw)).close,
        step(Phase::Unbound, names, Ok(raw)).phase is Ended,
        step(Phase::Unbound, names, Ok(raw)).publish.len() == 0,
        step(Phase::Unbound, names, Ok(raw)).names == names,
{
    Tag::InvalidUsername.lemma_parse_name();
    crate::escape::lemma_sanitize_nonempty(raw.content);
}

/// Of two sessions that ask for the same name one after the other, at most
/// one is bound; if the first is, the second is told `invalid_username`.
pub proof fn lemma_join_race(names: Seq<Seq<char>>, first: Envelope, second: Envelope)
    requires
        first.tag() == Some(Tag::Join),
        second.tag() == Some(Tag::Join),
        first.sanitized().content == second.sanitized().content,
    ensures
        ({
            let one = step(Phase::Unbound, names, Ok(first));
            let two = step(Phase::Unbound, one.names, Ok(second));
            &&& !(one.phase is Bound && two.phase is Bound)
            &&& one.phase is Bound ==> two.reply == Some(Fault::NameTaken.envelope())
                && two.publish.len() == 0 && two.names == one.names
        }),
{
    let one = step(Phase::Unbound, names, Ok(first));
    if one.phase is Bound {
        let name = first.sanitized().content;
        assert(one.names == names.push(name));
        assert(one.names[names.len() as int] == name);
    } else {
        let name = first.sanitized().content;
        if name.len() > 0 {
            assert(names.contains(name));
        }
    }
}

/// What a session asks its driver to do.
#[derive(Debug)]
pub struct Reaction {
    /// Envelopes to publish to the room, in this order.
    pub publish: Vec<SocketMessage>,
    /// An envelope to send to this client alone.
    pub reply: Option<SocketMessage>,
    /// Whether to close the connection.
    pub close: bool,
}

impl Reaction {
    /// The envelopes to publish, as mathematics.
    pub open spec fn published(self) -> Seq<Envelope> {
        self.publish.deep_view()
    }

    /// Whether this reaction asks for what the step `s` says.
    pub open spec fn matches_step(self, s: Step) -> bool {
        &&& self.published() == s.publish
        &&& self.reply.deep_view() == s.reply
        &&& self.close == s.close
    }

    /// Asks for nothing.
    fn silent(close: bool) -> (r: Reaction)
        ensures
            r.publish.deep_view() == Seq::<Envelope>::empty(),
            r.reply is None,
            r.close == close,
    {
        let r = Reaction { publish: Vec::new(), reply: None, close };
        assert(r.publish.deep_view() =~= Seq::<Envelope>::empty());
        r
    }

    /// Asks to tell the client of `fault`, and to close if it is terminal.
    fn refusal(fault: Fault) -> (r: Reaction)
        ensures
            r.publish.deep_view() == Seq::<Envelope>::empty(),
            r.reply.deep_view() == Some(fault.envelope()),
            r.close == fault.is_terminal(),
    {
        let r = Reaction {
            publish: Vec::new(),
            reply: Some(fault.reply()),
            close: fault.ends_session(),
        };
        assert(r.publish.deep_view() =~= Seq::<Envelope>::empty());
        r
    }
}

/// What the subscription to the room hands to the writing side of a session.
#[derive(Debug)]
pub enum BusEvent {
    /// The next published frame.
    Item(String),
    /// The subscriber fell behind and frames were dropped.
    Lagged,
    /// The room is gone.
    Closed,
}

/// What the writing side does next.
#[derive(Debug)]
pub enum Relay {
    /// Send this frame to the client, as it is.
    Forward(String),
    /// Stop: the session is to be torn down.
    Stop,
}

/// Decides what the writing side does with what its subscription yields: a
/// frame is forwarded unchanged, whatever its tag; an overrun or the end of
/// the room stops the session.
pub fn forward(event: BusEvent) -> (r: Relay)
    ensures
        (match event {
            BusEvent::Item(frame) => r == Relay::Forward(frame),
            BusEvent::Lagged => r == Relay::Stop,
            BusEvent::Closed => r == Relay::Stop,
        }),
{
    match event {
        BusEvent::Item(frame) => Relay::Forward(frame),
        BusEvent::Lagged => Relay::Stop,
        BusEvent::Closed => Relay::Stop,
    }
}

/// The state of one connection.
#[derive(Debug)]
pub struct Session {
    bound_name: String,
    ended: bool,
}

impl View for Session {
    type V = Phase;

    closed spec fn view(&self) -> Phase {
        if self.ended {
            Phase::Ended
        } else if self.bound_name@.len() == 0 {
            Phase::Unbound
        } else {
            Phase::Bound(self.bound_name@)
        }
    }
}

impl Session {
    /// A session that has just connected.
    pub fn new() -> (s: Session)
        ensures
            s@ == Phase::Unbound,
    {
        Session { bound_name: String::new(), ended: false }
    }

    /// The name of a bound session is never empty: the empty name stands for
    /// holding none.
    pub proof fn lemma_bound_name_is_not_empty(&self)
        ensures
            self@ is Bound <==> self@.bound_name().len() > 0,
    {
    }

    /// Whether the session holds a name.
    pub fn is_bound(&self) -> (b: bool)
        ensures
            b == (self@ is Bound),
            b == (self@.bound_name().len() > 0),
    {
        !self.ended && !self.bound_name.as_str().is_empty()
    }

    /// Whether the session is over.
    pub fn has_ended(&self) -> (b: bool)
        ensures
            b == (self@ is Ended),
    {
        self.ended
    }

    /// The name that the session holds, empty if it holds none.
    pub fn bound_name(&self) -> (name: &str)
        ensures
            name@ == self@.bound_name(),
            name@.len() > 0 <==> self@ is Bound,
    {
        if self.ended {
            proof {
                reveal_strlit("");
            }
            ""
        } else {
            self.bound_name.as_str()
        }
    }

    /// Handles a sanitized `join`.
    fn on_join(&mut self, registry: &mut Registry, env: SocketMessage) -> (out: Reaction)
        requires
            !(old(self)@ is Ended),
        ensures
            ({
                let s = join_step(old(self)@, old(registry)@, env@);
                &&& final(self)@ == s.phase
                &&& final(registry)@ == s.names
                &&& out.matches_step(s)
            }),
    {
        if self.is_bound() {
            return Reaction::refusal(Fault::DuplicateJoin);
        }
        if env.content.as_str().is_empty() {
            self.ended = true;
            return Reaction::refusal(Fault::NameEmpty);
        }
        if !registry.try_admit(env.content.as_str()) {
            self.ended = true;
            return Reaction::refusal(Fault::NameTaken);
        }
        self.bound_name = env.content.clone();
        let list = build_roster(&registry.snapshot(), None);
        let mut publish: Vec<SocketMessage> = Vec::new();
        publish.push(env);
        publish.push(list);
        let out = Reaction { publish, reply: None, close: false };
        assert(out.publish.deep_view() =~= seq![env@, roster(registry@, None)]);
        out
    }

    /// Handles a sanitized `message`.
    fn on_message(&self, env: SocketMessage) -> (out: Reaction)
        requires
            !(self@ is Ended),
        ensures
            forall|names: Seq<Seq<char>>|
                out.matches_step(#[trigger] message_step(self@, names, env@)),
            forall|names: Seq<Seq<char>>|
                (#[trigger] message_step(self@, names, env@)).phase == self@,
    {
        if !self.is_bound() {
            return Reaction::refusal(Fault::MessageBeforeJoin);
        }
        if !text_eq(env.sender.as_str(), self.bound_name.as_str()) {
            return Reaction::refusal(Fault::AuthorshipMismatch);
        }
        let mut publish: Vec<SocketMessage> = Vec::new();
        publish.push(env);
        let out = Reaction { publish, reply: None, close: false };
        assert(out.publish.deep_view() =~= seq![env@]);
        out
    }

    /// Handles one inbound frame that has been decoded, or has failed to
    /// decode. The envelope is sanitized first; its tag decides the rest.
    pub fn react(&mut self, registry: &mut Registry, inbound: Result<SocketMessage, DecodeError>) -> (out:
        Reaction)
        ensures
            ({
                let s = step(old(self)@, old(registry)@, decoded_view(inbound));
                &&& final(self)@ == s.phase
                &&& final(registry)@ == s.names
                &&& out.matches_step(s)
            }),
            decoded_view(inbound) matches Ok(e) && e.tag() == Some(Tag::Heartbeat) ==> ({
                &&& out.published().len() == 0
                &&& out.reply is None
                &&& final(self)@ == old(self)@
                &&& final(registry)@ == old(registry)@
            }),
            forall|i: int|
                0 <= i < out.published().len() && (#[trigger] out.published()[i]).tag() == Some(
                    Tag::Message,
                ) ==> old(self)@ is Bound && final(self)@ == old(self)@
                    && out.published()[i].sender == old(self)@.bound_name(),
            clean_state(old(self)@, old(registry)@) ==> ({
                &&& clean_state(final(self)@, final(registry)@)
                &&& forall|i: int|
                    0 <= i < out.published().len() ==> (#[trigger] out.published()[
                        i
                    ]).is_sanitized()
            }),
    {
        proof {
            let before = old(self)@;
            let names = old(registry)@;
            let given = decoded_view(inbound);
            let s = step(before, names, given);
            if let Ok(e) = given {
                if e.tag() == Some(Tag::Heartbeat) {
                    lemma_heartbeat_is_silent(before, names, e);
                }
            }
            assert forall|i: int|
                0 <= i < s.publish.len() && (#[trigger] s.publish[i]).tag() == Some(
                    Tag::Message,
                ) implies before is Bound && s.phase == before && s.publish[i].sender
                == before.bound_name() by {
                lemma_message_authorship(before, names, given, i);
            }
            if clean_state(before, names) {
                lemma_step_publishes_sanitized(before, names, given);
            }
        }
        if self.ended {
            return Reaction::silent(true);
        }
        let mut env = match inbound {
            Ok(env) => env,
            Err(e) => {
                return Reaction::refusal(Fault::Decode(e));
            },
        };
        env.clean_content();
        match env.tag() {
            Some(Tag::Heartbeat) => Reaction::silent(false),
            Some(Tag::Leave) => Reaction::silent(false),
            Some(Tag::Join) => self.on_join(registry, env),
            Some(Tag::Message) => self.on_message(env),
            _ => Reaction::refusal(Fault::UnexpectedTag),
        }
    }

    /// Handles one inbound text frame.
    pub fn on_frame(&mut self, registry: &mut Registry, text: &str) -> (out: Reaction)
        ensures
            ({
                let s = step(old(self)@, old(registry)@, envelope_of(json_members(text@)));
                &&& final(self)@ == s.phase
                &&& final(registry)@ == s.names
                &&& out.matches_step(s)
            }),
            envelope_of(json_members(text@)) matches Ok(e) && e.tag() == Some(Tag::Heartbeat) ==> ({
                &&& out.published().len() == 0
                &&& out.reply is None
                &&& final(self)@ == old(self)@
                &&& final(registry)@ == old(registry)@
            }),
            forall|i: int|
                0 <= i < out.published().len() && (#[trigger] out.published()[i]).tag() == Some(
                    Tag::Message,
                ) ==> old(self)@ is Bound && final(self)@ == old(self)@
                    && out.published()[i].sender == old(self)@.bound_name(),
            clean_state(old(self)@, old(registry)@) ==> ({
                &&& clean_state(final(self)@, final(registry)@)
                &&& forall|i: int|
                    0 <= i < out.published().len() ==> (#[trigger] out.published()[
                        i
                    ]).is_sanitized()
            }),
    {
        self.react(registry, decode(text))
    }

    /// Ends the session. If it holds a name, the name is released, and the
    /// leave and the roster that is left are to be published. A second call
    /// does nothing.
    pub fn teardown(&mut self, registry: &mut Registry) -> (out: Reaction)
        ensures
            ({
                let s = end_step(old(self)@, old(registry)@);
                &&& final(self)@ == s.phase
                &&& final(registry)@ == s.names
                &&& out.matches_step(s)
            }),
            final(self)@ is Ended,
            old(self)@ matches Phase::Bound(name) ==> ({
                &&& !final(registry).holds(name)
                &&& out.published().len() == 2
                &&& out.published()[0] == leave_of(name)
                &&& out.published()[1].tag() == Some(Tag::Userlist)
            }),
            !(old(self)@ is Bound) ==> out.published().len() == 0 && final(registry)@ == old(
                registry,
            )@,
            clean_state(old(self)@, old(registry)@) ==> ({
                &&& clean_state(final(self)@, final(registry)@)
                &&& forall|i: int|
                    0 <= i < out.published().len() ==> (#[trigger] out.published()[
                        i
                    ]).is_sanitized()
            }),
    {
        proof {
            lemma_teardown_complete(old(self)@, old(registry)@);
            if clean_state(old(self)@, old(registry)@) {
                lemma_end_publishes_sanitized(old(self)@, old(registry)@);
            }
        }
        if !self.is_bound() {
            self.ended = true;
            return Reaction::silent(true);
        }
        let mut name = String::new();
        core::mem::swap(&mut self.bound_name, &mut name);
        self.ended = true;
        registry.release(name.as_str());
        let list = build_roster(&registry.snapshot(), Some(name.as_str()));
        let leave = SocketMessage::new(Tag::Leave.as_str(), name.as_str(), "User left");
        let mut publish: Vec<SocketMessage> = Vec::new();
        publish.push(leave);
        publish.push(list);
        let out = Reaction { publish, reply: None, close: true };
        assert(out.publish.deep_view() =~= seq![leave_of(name@), roster(registry@, Some(name@))]);
        out
    }
}

} // verus!
