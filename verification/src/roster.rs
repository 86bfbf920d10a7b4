//! The roster: a snapshot of the registry as one `userlist` envelope.

use vstd::prelude::*;
use crate::envelope::{Envelope, SocketMessage, Tag};
use crate::escape::{is_clean, lemma_clean_concat};
use crate::registry::{lemma_without_contains, without};
use crate::text::{owned, text_eq};

verus! {

/// The name under which rosters are sent.
pub open spec fn host_sender() -> Seq<char> {
    "[Host]"@
}

/// The names one per line: a newline between two names, none at the end.
pub open spec fn join_lines(names: Seq<Seq<char>>) -> Seq<char>
    decreases names.len(),
{
    if names.len() == 0 {
        Seq::empty()
    } else if names.len() == 1 {
        names[0]
    } else {
        join_lines(names.drop_last()) + seq!['\n'] + names.last()
    }
}

/// The pieces of `text` between its newlines. There is always at least one.
pub open spec fn split_lines(text: Seq<char>) -> Seq<Seq<char>>
    decreases text.len(),
{
    if text.len() == 0 {
        seq![Seq::empty()]
    } else if text.last() == '\n' {
        split_lines(text.drop_last()).push(Seq::empty())
    } else {
        let before = split_lines(text.drop_last());
        before.drop_last().push(before.last().push(text.last()))
    }
}

/// How a client reads the content of a roster: empty content is an empty
/// room, anything else is split at the newlines.
pub open spec fn roster_names(content: Seq<char>) -> Seq<Seq<char>> {
    if content.len() == 0 {
        Seq::empty()
    } else {
        split_lines(content)
    }
}

/// A name that can stand on a line of its own: not empty, no newline in it.
pub open spec fn is_line(name: Seq<char>) -> bool {
    name.len() > 0 && !name.contains('\n')
}

/// The names that a roster lists: all of `names`, or all but `excluded`.
pub open spec fn listed(names: Seq<Seq<char>>, excluded: Option<Seq<char>>) -> Seq<Seq<char>> {
    match excluded {
        Some(name) => without(names, name),
        None => names,
    }
}

/// The roster of `names`, with `excluded` masked if one is given.
pub open spec fn roster(names: Seq<Seq<char>>, excluded: Option<Seq<char>>) -> Envelope {
    Envelope {
        msg_type: Tag::Userlist.name(),
        sender: host_sender(),
        content: join_lines(listed(names, excluded)),
    }
}

/// Appending a name to the list appends a line to the text.
pub proof fn lemma_join_push(names: Seq<Seq<char>>, name: Seq<char>)
    ensures
        join_lines(names.push(name)) == (if names.len() == 0 {
            name
        } else {
            join_lines(names) + seq!['\n'] + name
        }),
{
    assert(names.push(name).drop_last() =~= names);
}

proof fn lemma_split_nonempty(text: Seq<char>)
    ensures
        split_lines(text).len() >= 1,
    decreases text.len(),
{
    if text.len() > 0 {
        lemma_split_nonempty(text.drop_last());
    }
}

/// Text without a newline, put behind other text, lengthens its last piece.
proof fn lemma_split_append_line(text: Seq<char>, tail: Seq<char>)
    requires
        !tail.contains('\n'),
    ensures
        split_lines(text + tail) == split_lines(text).drop_last().push(
            split_lines(text).last() + tail,
        ),
    decreases tail.len(),
{
    lemma_split_nonempty(text);
    let pieces = split_lines(text);
    if tail.len() == 0 {
        assert(text + tail =~= text);
        assert(pieces.last() + tail =~= pieces.last());
        assert(pieces.drop_last().push(pieces.last()) =~= pieces);
    } else {
        let init = tail.drop_last();
        assert(tail[tail.len() - 1] != '\n');
        assert forall|i: int| 0 <= i < init.len() implies init[i] != '\n' by {
            assert(tail[i] == init[i]);
        }
        lemma_split_append_line(text, init);
        assert((text + tail).drop_last() =~= text + init);
        assert((text + tail).last() == tail.last());
        let before = split_lines(text + init);
        assert(before.last() == pieces.last() + init);
        assert(before.drop_last() =~= pieces.drop_last());
        assert((pieces.last() + init).push(tail.last()) =~= pieces.last() + tail);
    }
}

/// Reading a roster gives back the names it was built from, in order, if each
/// can stand on a line of its own.
pub proof fn lemma_roster_names_of_join(names: Seq<Seq<char>>)
    requires
        forall|i: int| 0 <= i < names.len() ==> is_line(#[trigger] names[i]),
    ensures
        roster_names(join_lines(names)) == names,
        names.len() > 0 ==> join_lines(names).len() > 0,
    decreases names.len(),
{
    if names.len() == 0 {
    } else if names.len() == 1 {
        let name = names[0];
        assert(is_line(name));
        let none = Seq::<char>::empty();
        lemma_split_append_line(none, name);
        assert(none + name =~= name);
        assert(split_lines(none) =~= seq![none]);
        assert(roster_names(name) =~= names);
    } else {
        let init = names.drop_last();
        let name = names.last();
        assert(is_line(names[names.len() - 1]));
        assert forall|i: int| 0 <= i < init.len() implies is_line(#[trigger] init[i]) by {
            assert(init[i] == names[i]);
        }
        lemma_roster_names_of_join(init);
        let head = join_lines(init) + seq!['\n'];
        assert(head.drop_last() =~= join_lines(init));
        assert(split_lines(head) == init.push(Seq::empty()));
        lemma_split_append_line(head, name);
        assert(Seq::<char>::empty() + name =~= name);
        assert(init.push(Seq::empty()).drop_last() =~= init);
        assert(init.push(name) =~= names);
    }
}

/// A roster of names that can each stand on a line reads back as the names
/// that were listed: no line is empty, and the masked name is not among them.
pub proof fn lemma_roster_reads_back(names: Seq<Seq<char>>, excluded: Option<Seq<char>>)
    requires
        forall|i: int| 0 <= i < names.len() ==> is_line(#[trigger] names[i]),
    ensures
        roster_names(roster(names, excluded).content) == listed(names, excluded),
        forall|i: int|
            0 <= i < listed(names, excluded).len() ==> is_line(
                #[trigger] listed(names, excluded)[i],
            ),
        forall|name: Seq<char>|
            listed(names, excluded).contains(name) <==> names.contains(name) && excluded != Some(
                name,
            ),
{
    let kept = listed(names, excluded);
    assert forall|name: Seq<char>| kept.contains(name) <==> names.contains(name) && excluded
        != Some(name) by {
        if let Some(x) = excluded {
            lemma_without_contains(names, x, name);
        }
    }
    assert forall|i: int| 0 <= i < kept.len() implies is_line(#[trigger] kept[i]) by {
        assert(kept.contains(kept[i]));
        assert(names.contains(kept[i]));
    }
    lemma_roster_names_of_join(kept);
}

/// Joining clean names gives clean text.
pub proof fn lemma_join_is_clean(names: Seq<Seq<char>>)
    requires
        forall|i: int| 0 <= i < names.len() ==> is_clean(#[trigger] names[i]),
    ensures
        is_clean(join_lines(names)),
    decreases names.len(),
{
    if names.len() >= 2 {
        let init = names.drop_last();
        assert forall|i: int| 0 <= i < init.len() implies is_clean(#[trigger] init[i]) by {
            assert(init[i] == names[i]);
        }
        lemma_join_is_clean(init);
        assert(is_clean(names[names.len() - 1]));
        lemma_clean_concat(join_lines(init), seq!['\n']);
        lemma_clean_concat(join_lines(init) + seq!['\n'], names.last());
    } else if names.len() == 1 {
        assert(is_clean(names[0]));
    }
}

/// A roster of clean names holds no markup character.
pub proof fn lemma_roster_is_sanitized(names: Seq<Seq<char>>, excluded: Option<Seq<char>>)
    requires
        forall|i: int| 0 <= i < names.len() ==> is_clean(#[trigger] names[i]),
    ensures
        roster(names, excluded).is_sanitized(),
{
    reveal_strlit("[Host]");
    let kept = listed(names, excluded);
    assert forall|i: int| 0 <= i < kept.len() implies is_clean(#[trigger] kept[i]) by {
        assert(kept.contains(kept[i]));
        if let Some(x) = excluded {
            lemma_without_contains(names, x, kept[i]);
        }
        let j = choose|j: int| 0 <= j < names.len() && names[j] == kept[i];
        assert(is_clean(names[j]));
    }
    lemma_join_is_clean(kept);
}

/// The view of an optional name.
pub open spec fn name_view(name: Option<&str>) -> Option<Seq<char>> {
    match name {
        Some(n) => Some(n@),
        None => None,
    }
}

/// Builds the `userlist` envelope for `names`. If `excluded` is given, that
/// name is left out wherever it stands.
pub fn build_roster(names: &Vec<String>, excluded: Option<&str>) -> (m: SocketMessage)
    ensures
        m@ == roster(names.deep_view(), name_view(excluded)),
{
    let ghost all = names.deep_view();
    let ghost mask = name_view(excluded);
    let mut content = String::new();
    let mut first = true;
    let mut i: usize = 0;
    assert(all.take(0) =~= Seq::<Seq<char>>::empty());
    while i < names.len()
        invariant
            i <= names.len(),
            all == names.deep_view(),
            mask == name_view(excluded),
            first == (listed(all.take(i as int), mask).len() == 0),
            content@ == join_lines(listed(all.take(i as int), mask)),
        decreases names.len() - i,
    {
        let name = names[i].as_str();
        let skip = match excluded {
            Some(x) => text_eq(name, x),
            None => false,
        };
        proof {
            let before = all.take(i as int);
            let now = all.take(i + 1);
            assert(now.drop_last() =~= before);
            assert(now.last() == name@);
            assert(now =~= before.push(name@));
            if !skip {
                assert(listed(now, mask) == listed(before, mask).push(name@));
                lemma_join_push(listed(before, mask), name@);
            }
        }
        if !skip {
            if !first {
                content.push('\n');
            }
            content.append(name);
            first = false;
            assert(content@ =~= join_lines(listed(all.take(i + 1), mask)));
        }
        i += 1;
    }
    assert(all.take(names.len() as int) =~= all);
    SocketMessage { msg_type: owned(Tag::Userlist.as_str()), sender: owned("[Host]"), content }
}

} // verus!
