//! A map from names to values that keeps the order in which names were first
//! put in.

use crate::text::same_text;
use vstd::prelude::*;

verus! {

/// The value that the first entry named `name` holds, looking from place `i` on.
pub open spec fn lookup_from<T>(entries: Seq<(Seq<char>, T)>, name: Seq<char>, i: nat) -> Option<T>
    decreases entries.len() - i,
{
    if i >= entries.len() {
        None
    } else if entries[i as int].0 == name {
        Some(entries[i as int].1)
    } else {
        lookup_from(entries, name, i + 1)
    }
}

/// The value bound to `name`, if any.
pub open spec fn lookup<T>(entries: Seq<(Seq<char>, T)>, name: Seq<char>) -> Option<T> {
    lookup_from(entries, name, 0)
}

/// The place of the first entry named `name` at `i` or after it; the number of
/// entries where there is none.
pub open spec fn place_from<T>(entries: Seq<(Seq<char>, T)>, name: Seq<char>, i: nat) -> nat
    decreases entries.len() - i,
{
    if i >= entries.len() {
        entries.len()
    } else if entries[i as int].0 == name {
        i
    } else {
        place_from(entries, name, i + 1)
    }
}

/// `entries` with `name` bound to `value`: in the place that the name already
/// has, else at the end.
pub open spec fn bind<T>(entries: Seq<(Seq<char>, T)>, name: Seq<char>, value: T) -> Seq<
    (Seq<char>, T),
> {
    let at = place_from(entries, name, 0);
    if at < entries.len() {
        entries.update(at as int, (name, value))
    } else {
        entries.push((name, value))
    }
}

/// `entries` without the first entry named `name`.
pub open spec fn unbind<T>(entries: Seq<(Seq<char>, T)>, name: Seq<char>) -> Seq<(Seq<char>, T)> {
    let at = place_from(entries, name, 0);
    if at < entries.len() {
        entries.remove(at as int)
    } else {
        entries
    }
}

/// No name occurs twice.
pub open spec fn distinct<T>(entries: Seq<(Seq<char>, T)>) -> bool {
    forall|i: int, j: int|
        0 <= i < j < entries.len() ==> (#[trigger] entries[i]).0 != (#[trigger] entries[j]).0
}

proof fn lemma_place<T>(entries: Seq<(Seq<char>, T)>, name: Seq<char>, i: nat)
    requires
        i <= entries.len(),
    ensures
        i <= place_from(entries, name, i) <= entries.len(),
        place_from(entries, name, i) < entries.len() ==> entries[place_from(
            entries,
            name,
            i,
        ) as int].0 == name,
        forall|j: int|
            i <= j < place_from(entries, name, i) ==> (#[trigger] entries[j]).0 != name,
        lookup_from(entries, name, i) == (if place_from(entries, name, i) < entries.len() {
            Some(entries[place_from(entries, name, i) as int].1)
        } else {
            None
        }),
    decreases entries.len() - i,
{
    if i < entries.len() && entries[i as int].0 != name {
        lemma_place(entries, name, i + 1);
    }
}

proof fn lemma_place_is<T>(entries: Seq<(Seq<char>, T)>, name: Seq<char>, i: nat, at: nat)
    requires
        i <= at <= entries.len(),
        at < entries.len() ==> entries[at as int].0 == name,
        forall|j: int| i <= j < at ==> (#[trigger] entries[j]).0 != name,
    ensures
        place_from(entries, name, i) == at,
    decreases at - i,
{
    if i < at {
        lemma_place_is(entries, name, i + 1, at);
    }
}

/// Binding a name makes a lookup of it give the value just bound, and leaves
/// every other lookup as it was.
pub proof fn law_lookup_after_bind<T>(
    entries: Seq<(Seq<char>, T)>,
    name: Seq<char>,
    value: T,
    other: Seq<char>,
)
    ensures
        lookup(bind(entries, name, value), name) == Some(value),
        other != name ==> lookup(bind(entries, name, value), other) == lookup(entries, other),
{
    let after = bind(entries, name, value);
    lemma_place(entries, name, 0);
    let at = place_from(entries, name, 0);
    lemma_place_is(after, name, 0, at);
    lemma_place(after, name, 0);
    if other != name {
        lemma_place(entries, other, 0);
        lemma_place(after, other, 0);
        let was = place_from(entries, other, 0);
        if was < entries.len() {
            lemma_place_is(after, other, 0, was);
        } else {
            lemma_place_is(after, other, 0, after.len());
        }
    }
}

/// Binding a name never makes a name occur twice.
pub proof fn law_bind_keeps_distinct<T>(
    entries: Seq<(Seq<char>, T)>,
    name: Seq<char>,
    value: T,
)
    requires
        distinct(entries),
    ensures
        distinct(bind(entries, name, value)),
{
    lemma_place(entries, name, 0);
}

/// Once a name is unbound, no entry has it, where no name occurred twice.
pub proof fn law_lookup_after_unbind<T>(entries: Seq<(Seq<char>, T)>, name: Seq<char>)
    requires
        distinct(entries),
    ensures
        lookup(unbind(entries, name), name) is None,
        distinct(unbind(entries, name)),
{
    lemma_place(entries, name, 0);
    let after = unbind(entries, name);
    let at = place_from(entries, name, 0);
    if at < entries.len() {
        assert forall|j: int| 0 <= j < after.len() implies (#[trigger] after[j]).0 != name by {
            if j < at {
                assert(after[j] == entries[j]);
            } else {
                assert(after[j] == entries[j + 1]);
            }
        }
        assert forall|i: int, j: int| 0 <= i < j < after.len() implies (#[trigger] after[i]).0
            != (#[trigger] after[j]).0 by {
            let p = if i < at { i } else { i + 1 };
            let q = if j < at { j } else { j + 1 };
            assert(after[i] == entries[p] && after[j] == entries[q]);
        }
    }
    lemma_place_is(after, name, 0, after.len());
    lemma_place(after, name, 0);
}

/// A map from names to values, in the order of first insertion.
#[derive(Debug)]
pub struct NameMap<T> {
    pub entries: Vec<(String, T)>,
}

impl<T: View> View for NameMap<T> {
    type V = Seq<(Seq<char>, T::V)>;

    open spec fn view(&self) -> Seq<(Seq<char>, T::V)> {
        Seq::new(self.entries@.len(), |i: int| (self.entries@[i].0@, self.entries@[i].1@))
    }
}

impl<T: View> NameMap<T> {
    pub fn new() -> (r: Self)
        ensures
            r@ == Seq::<(Seq<char>, T::V)>::empty(),
    {
        let r = NameMap { entries: Vec::new() };
        assert(r@ =~= Seq::<(Seq<char>, T::V)>::empty());
        r
    }

    pub fn len(&self) -> (r: usize)
        ensures
            r == self@.len(),
    {
        self.entries.len()
    }

    /// The place of a name, or the number of entries.
    fn place(&self, name: &str) -> (r: usize)
        ensures
            r == place_from(self@, name@, 0),
            r <= self@.len(),
    {
        let mut i: usize = 0;
        while i < self.entries.len()
            invariant
                i <= self.entries.len(),
                place_from(self@, name@, i as nat) == place_from(self@, name@, 0),
            decreases self.entries.len() - i,
        {
            if same_text(self.entries[i].0.as_str(), name) {
                return i;
            }
            i = i + 1;
        }
        i
    }

    /// The value bound to `name`.
    pub fn get(&self, name: &str) -> (r: Option<&T>)
        ensures
            match r {
                Some(t) => lookup(self@, name@) == Some(t@),
                None => lookup(self@, name@) is None,
            },
    {
        let at = self.place(name);
        proof {
            lemma_place(self@, name@, 0);
        }
        if at < self.entries.len() {
            Some(&self.entries[at].1)
        } else {
            None
        }
    }

    pub fn contains(&self, name: &str) -> (r: bool)
        ensures
            r == (lookup(self@, name@) is Some),
    {
        self.get(name).is_some()
    }

    /// Bind `name` to `value`, in place of what it was bound to.
    pub fn insert(&mut self, name: String, value: T)
        ensures
            final(self)@ == bind(old(self)@, name@, value@),
    {
        let at = self.place(name.as_str());
        let ghost before = self@;
        if at < self.entries.len() {
            self.entries[at] = (name, value);
        } else {
            self.entries.push((name, value));
        }
        assert(self@ =~= bind(before, name@, value@));
    }

    /// Take the value bound to `name` out of the map.
    pub fn remove(&mut self, name: &str) -> (r: Option<T>)
        ensures
            match r {
                Some(t) => lookup(old(self)@, name@) == Some(t@),
                None => lookup(old(self)@, name@) is None,
            },
            final(self)@ == unbind(old(self)@, name@),
    {
        let at = self.place(name);
        let ghost before = self@;
        proof {
            lemma_place(self@, name@, 0);
        }
        if at < self.entries.len() {
            let taken = self.entries.remove(at);
            assert(self@ =~= unbind(before, name@));
            Some(taken.1)
        } else {
            None
        }
    }
}

proof fn lookup_without<T>(
    entries: Seq<(Seq<char>, T)>,
    at: int,
    other: Seq<char>,
    i: nat,
)
    requires
        0 <= at < entries.len(),
        entries[at].0 != other,
        i <= entries.len(),
    ensures
        i <= at ==> lookup_from(entries.remove(at), other, i) == lookup_from(entries, other, i),
        i > at ==> lookup_from(entries.remove(at), other, (i - 1) as nat) == lookup_from(
            entries,
            other,
            i,
        ),
    decreases entries.len() - i,
{
    let after = entries.remove(at);
    if i < entries.len() {
        lookup_without(entries, at, other, i + 1);
        if i < at {
            assert(after[i as int] == entries[i as int]);
        } else if i > at {
            assert(after[i - 1] == entries[i as int]);
        }
    }
}

/// Unbinding a name leaves every other name bound as it was.
pub proof fn law_unbind_keeps_others<T>(
    entries: Seq<(Seq<char>, T)>,
    name: Seq<char>,
    other: Seq<char>,
)
    requires
        other != name,
    ensures
        lookup(unbind(entries, name), other) == lookup(entries, other),
{
    lemma_place(entries, name, 0);
    let at = place_from(entries, name, 0);
    if at < entries.len() {
        lookup_without(entries, at as int, other, 0);
    }
}

} // verus!
