//! The presence registry: the set of display names that are online.
//!
//! Names are kept in the order in which they were admitted, each at most
//! once. The registry knows nothing of locks: whoever shares it between
//! connections guards it, and makes one call per critical section.

use vstd::prelude::*;
use crate::text::{owned, text_eq};

verus! {

/// `names` with every occurrence of `name` taken out, the rest in order.
pub open spec fn without(names: Seq<Seq<char>>, name: Seq<char>) -> Seq<Seq<char>>
    decreases names.len(),
{
    if names.len() == 0 {
        names
    } else if names.last() == name {
        without(names.drop_last(), name)
    } else {
        without(names.drop_last(), name).push(names.last())
    }
}

/// `names` with `name` added at the end, unless it is there already.
pub open spec fn with_name(names: Seq<Seq<char>>, name: Seq<char>) -> Seq<Seq<char>> {
    if names.contains(name) {
        names
    } else {
        names.push(name)
    }
}

/// What is left after `without` are exactly the other names.
pub proof fn lemma_without_contains(names: Seq<Seq<char>>, name: Seq<char>, other: Seq<char>)
    ensures
        without(names, name).contains(other) <==> names.contains(other) && other != name,
    decreases names.len(),
{
    if names.len() > 0 {
        let init = names.drop_last();
        lemma_without_contains(init, name, other);
        assert(names =~= init.push(names.last()));
        if names.contains(other) && other != name {
            let i = choose|i: int| 0 <= i < names.len() && names[i] == other;
            if i < init.len() {
                assert(init[i] == other);
            }
        }
        if without(names, name).contains(other) {
            let w = without(names, name);
            let i = choose|i: int| 0 <= i < w.len() && w[i] == other;
            if names.last() != name && i < w.len() - 1 {
                assert(without(init, name)[i] == other);
            }
            if init.contains(other) {
                let j = choose|j: int| 0 <= j < init.len() && init[j] == other;
                assert(names[j] == other);
            } else {
                assert(names[names.len() - 1] == other);
            }
        }
        if names.contains(other) && other != name {
            if init.contains(other) {
                let w0 = without(init, name);
                let j = choose|j: int| 0 <= j < w0.len() && w0[j] == other;
                if names.last() != name {
                    assert(w0.push(names.last())[j] == other);
                }
            } else {
                let w = without(names, name);
                assert(w[w.len() - 1] == other);
            }
        }
    }
}

/// Taking out a name that is not there changes nothing.
pub proof fn lemma_without_absent(names: Seq<Seq<char>>, name: Seq<char>)
    requires
        !names.contains(name),
    ensures
        without(names, name) == names,
    decreases names.len(),
{
    if names.len() > 0 {
        let init = names.drop_last();
        assert(names[names.len() - 1] != name);
        assert forall|i: int| 0 <= i < init.len() implies init[i] != name by {
            assert(names[i] == init[i]);
        }
        lemma_without_absent(init, name);
        assert(init.push(names.last()) =~= names);
    }
}

/// `without` never lengthens, and keeps a sequence free of repetitions so.
pub proof fn lemma_without_no_duplicates(names: Seq<Seq<char>>, name: Seq<char>)
    requires
        names.no_duplicates(),
    ensures
        without(names, name).no_duplicates(),
        without(names, name).len() <= names.len(),
    decreases names.len(),
{
    if names.len() > 0 {
        let init = names.drop_last();
        lemma_without_no_duplicates(init, name);
        if names.last() != name {
            let w0 = without(init, name);
            assert forall|i: int| 0 <= i < w0.len() implies w0[i] != names.last() by {
                lemma_without_contains(init, name, w0[i]);
                assert(w0.contains(w0[i]));
                let j = choose|j: int| 0 <= j < init.len() && init[j] == w0[i];
                assert(names[j] == w0[i]);
            }
        }
    }
}

/// In a sequence without repetitions, `without` removes the one place where
/// the name stands.
pub proof fn lemma_without_is_remove(names: Seq<Seq<char>>, name: Seq<char>, at: int)
    requires
        names.no_duplicates(),
        0 <= at < names.len(),
        names[at] == name,
    ensures
        without(names, name) == names.remove(at),
    decreases names.len(),
{
    let init = names.drop_last();
    if at == names.len() - 1 {
        assert forall|i: int| 0 <= i < init.len() implies init[i] != name by {
            assert(names[i] == init[i]);
        }
        lemma_without_absent(init, name);
        assert(names.remove(at) =~= init);
    } else {
        assert(init[at] == name);
        lemma_without_is_remove(init, name, at);
        assert(init.remove(at).push(names.last()) =~= names.remove(at));
    }
}

/// A copy of a list of names.
pub fn clone_names(names: &Vec<String>) -> (out: Vec<String>)
    ensures
        out.deep_view() == names.deep_view(),
{
    let mut out: Vec<String> = Vec::new();
    let mut i: usize = 0;
    while i < names.len()
        invariant
            i <= names.len(),
            out.len() == i,
            forall|k: int| 0 <= k < i ==> out[k]@ == names[k]@,
        decreases names.len() - i,
    {
        out.push(names[i].clone());
        i += 1;
    }
    assert(out.deep_view() =~= names.deep_view());
    out
}

/// Someone who is online, known by name alone.
#[derive(Debug, Eq, Hash, PartialEq)]
pub struct User {
    pub name: String,
}

impl Clone for User {
    fn clone(&self) -> (user: User)
        ensures
            user == *self,
    {
        User { name: self.name.clone() }
    }
}

/// The names that are online.
#[derive(Debug)]
pub struct Registry {
    names: Vec<String>,
}

impl View for Registry {
    type V = Seq<Seq<char>>;

    /// The names in the order of their admission.
    closed spec fn view(&self) -> Seq<Seq<char>> {
        self.names.deep_view()
    }
}

impl Registry {
    /// No name is held twice. This holds of every registry there is.
    #[verifier::type_invariant]
    pub open spec fn unique(self) -> bool {
        self@.no_duplicates()
    }

    /// Whether `name` is online.
    pub open spec fn holds(&self, name: Seq<char>) -> bool {
        self@.contains(name)
    }

    /// A registry with nobody online.
    pub fn new() -> (r: Registry)
        ensures
            r@ == Seq::<Seq<char>>::empty(),
    {
        let r = Registry { names: Vec::new() };
        assert(r.names.deep_view() =~= Seq::<Seq<char>>::empty());
        r
    }

    /// How many names are online.
    pub fn len(&self) -> (n: usize)
        ensures
            n == self@.len(),
    {
        self.names.len()
    }

    /// Whether nobody is online.
    pub fn is_empty(&self) -> (b: bool)
        ensures
            b == (self@.len() == 0),
    {
        self.names.len() == 0
    }

    /// Moves the names out and leaves the registry empty.
    fn take_names(&mut self) -> (names: Vec<String>)
        ensures
            names.deep_view() == old(self)@,
            final(self)@ == Seq::<Seq<char>>::empty(),
    {
        let mut names: Vec<String> = Vec::new();
        assert(names.deep_view() =~= Seq::<Seq<char>>::empty());
        core::mem::swap(&mut self.names, &mut names);
        names
    }

    /// Makes `names` the content of the registry.
    fn put_names(&mut self, names: Vec<String>)
        requires
            names.deep_view().no_duplicates(),
        ensures
            final(self)@ == names.deep_view(),
    {
        let mut names = names;
        core::mem::swap(&mut self.names, &mut names);
    }

    /// Where `name` stands, if it is online.
    fn position(&self, name: &str) -> (at: Option<usize>)
        ensures
            (match at {
                Some(i) => i < self@.len() && self@[i as int] == name@,
                None => !self@.contains(name@),
            }),
    {
        let mut i: usize = 0;
        while i < self.names.len()
            invariant
                i <= self.names.len(),
                forall|k: int| 0 <= k < i ==> self.names[k]@ != name@,
            decreases self.names.len() - i,
        {
            if text_eq(self.names[i].as_str(), name) {
                return Some(i);
            }
            i += 1;
        }
        None
    }

    /// Whether `name` is online. Names are compared character by character.
    pub fn contains(&self, name: &str) -> (b: bool)
        ensures
            b == self.holds(name@),
    {
        self.position(name).is_some()
    }

    /// Admits `name` if it is not online: test and insert in one step.
    pub fn try_admit(&mut self, name: &str) -> (admitted: bool)
        ensures
            admitted == !old(self).holds(name@),
            final(self)@ == with_name(old(self)@, name@),
    {
        proof {
            use_type_invariant(&*self);
        }
        if self.position(name).is_some() {
            false
        } else {
            let mut names = self.take_names();
            names.push(owned(name));
            assert(names.deep_view() =~= old(self)@.push(name@));
            self.put_names(names);
            true
        }
    }

    /// Takes `name` out if it is online, and does nothing otherwise.
    pub fn release(&mut self, name: &str)
        ensures
            final(self)@ == without(old(self)@, name@),
            !final(self).holds(name@),
    {
        proof {
            use_type_invariant(&*self);
            lemma_without_contains(self@, name@, name@);
            lemma_without_no_duplicates(self@, name@);
        }
        match self.position(name) {
            Some(i) => {
                let mut names = self.take_names();
                let _ = names.remove(i);
                proof {
                    assert(names.deep_view() =~= old(self)@.remove(i as int));
                    lemma_without_is_remove(old(self)@, name@, i as int);
                }
                self.put_names(names);
            },
            None => {
                proof {
                    lemma_without_absent(self@, name@);
                }
            },
        }
    }

    /// The names that are online, copied out in the order of their admission.
    pub fn snapshot(&self) -> (names: Vec<String>)
        ensures
            names.deep_view() == self@,
    {
        clone_names(&self.names)
    }
}

/// Whether `check_user_by_name` binds the slot `user` to `name`: the slot is
/// empty, the name is not, and nobody is online under it.
pub open spec fn claims(names: Seq<Seq<char>>, user: Seq<char>, name: Seq<char>) -> bool {
    user.len() == 0 && name.len() > 0 && !names.contains(name)
}

/// Claims `name` for the slot `user`, which holds the name of its session
/// and is empty while the session has none. If the slot is empty and `name`
/// is free, the name is admitted and written into the slot. In every other
/// case nothing changes: a slot that holds a name keeps it, a name that is
/// online stays with its holder, and the empty name, which the slot could
/// not show, is never admitted.
pub fn check_user_by_name(registry: &mut Registry, user: &mut String, name: &str)
    ensures
        final(registry)@ == (if claims(old(registry)@, old(user)@, name@) {
            old(registry)@.push(name@)
        } else {
            old(registry)@
        }),
        final(user)@ == (if claims(old(registry)@, old(user)@, name@) {
            name@
        } else {
            old(user)@
        }),
{
    if user.as_str().is_empty() && !name.is_empty() {
        if registry.try_admit(name) {
            user.append(name);
            assert(user@ =~= name@);
        }
    }
}

} // verus!
