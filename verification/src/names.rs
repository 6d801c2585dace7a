//! Values by name, in the order in which the names came.
use vstd::prelude::*;

use crate::text::{opt_view, same};

verus! {

/// The first place at or behind `from` that carries the name, or the number of places.
pub open spec fn place<T>(list: Seq<(Seq<char>, T)>, name: Seq<char>, from: int) -> int
    decreases list.len() - from,
{
    if from < 0 || from >= list.len() {
        list.len() as int
    } else if list[from].0 == name {
        from
    } else {
        place(list, name, from + 1)
    }
}

/// The value under the name.
pub open spec fn lookup<T>(list: Seq<(Seq<char>, T)>, name: Seq<char>) -> Option<T> {
    let at = place(list, name, 0);
    if at < list.len() {
        Some(list[at].1)
    } else {
        None
    }
}

/// The list with the value under the name: in its place where the name is known, behind the
/// last one where it is not.
pub open spec fn put<T>(list: Seq<(Seq<char>, T)>, name: Seq<char>, value: T) -> Seq<
    (Seq<char>, T),
> {
    let at = place(list, name, 0);
    if at < list.len() {
        list.update(at, (name, value))
    } else {
        list.push((name, value))
    }
}

/// The list without the name.
pub open spec fn without<T>(list: Seq<(Seq<char>, T)>, name: Seq<char>) -> Seq<(Seq<char>, T)> {
    let at = place(list, name, 0);
    if at < list.len() {
        list.remove(at)
    } else {
        list
    }
}

/// No name occurs twice.
pub open spec fn distinct<T>(list: Seq<(Seq<char>, T)>) -> bool {
    forall|i: int, j: int|
        0 <= i < j < list.len() ==> (#[trigger] list[i]).0 != (#[trigger] list[j]).0
}

/// The list of the views of the values.
pub open spec fn seen<T: View>(list: Seq<(Seq<char>, T)>) -> Seq<(Seq<char>, T::V)> {
    Seq::new(list.len(), |i: int| (list[i].0, list[i].1@))
}

/// The place found is the first one that carries the name.
pub proof fn lemma_place<T>(list: Seq<(Seq<char>, T)>, name: Seq<char>, from: int)
    requires
        0 <= from <= list.len(),
    ensures
        from <= place(list, name, from) <= list.len(),
        place(list, name, from) < list.len() ==> list[place(list, name, from)].0 == name,
        forall|j: int| from <= j < place(list, name, from) ==> (#[trigger] list[j]).0 != name,
    decreases list.len() - from,
{
    if from < list.len() && list[from].0 != name {
        lemma_place(list, name, from + 1);
    }
}

/// A place of that name before which the name does not occur is the first one.
pub proof fn lemma_place_is<T>(list: Seq<(Seq<char>, T)>, name: Seq<char>, at: int)
    requires
        0 <= at <= list.len(),
        at < list.len() ==> list[at].0 == name,
        forall|j: int| 0 <= j < at ==> (#[trigger] list[j]).0 != name,
    ensures
        place(list, name, 0) == at,
{
    lemma_place(list, name, 0);
    let found = place(list, name, 0);
    if found < at {
        assert(list[found].0 == name);
    }
    if at < found {
        assert(list[at].0 == name);
    }
}

/// Looking at the views finds the view of what looking at the values finds.
pub proof fn lemma_seen<T: View>(list: Seq<(Seq<char>, T)>, name: Seq<char>)
    ensures
        place(seen(list), name, 0) == place(list, name, 0),
        0 <= place(list, name, 0) <= list.len(),
        lookup(seen(list), name) == opt_view(lookup(list, name)),
{
    lemma_place(list, name, 0);
    let at = place(list, name, 0);
    assert forall|j: int| 0 <= j < at implies (#[trigger] seen(list)[j]).0 != name by {
        assert(list[j].0 != name);
    }
    lemma_place_is(seen(list), name, at);
}

/// What setting a value does to the views.
pub proof fn lemma_put_seen<T: View>(list: Seq<(Seq<char>, T)>, name: Seq<char>, value: T)
    ensures
        seen(put(list, name, value)) == put(seen(list), name, value@),
{
    lemma_seen(list, name);
    assert(seen(put(list, name, value)) =~= put(seen(list), name, value@));
}

/// What taking a name out does to the views.
pub proof fn lemma_without_seen<T: View>(list: Seq<(Seq<char>, T)>, name: Seq<char>)
    ensures
        seen(without(list, name)) == without(seen(list), name),
{
    lemma_seen(list, name);
    assert(seen(without(list, name)) =~= without(seen(list), name));
}

/// What was put under a name is found there, every other name finds what it found, and no
/// name comes to occur twice.
pub proof fn law_put<T>(list: Seq<(Seq<char>, T)>, name: Seq<char>, value: T, other: Seq<char>)
    ensures
        lookup(put(list, name, value), name) == Some(value),
        other != name ==> lookup(put(list, name, value), other) == lookup(list, other),
        distinct(list) ==> distinct(put(list, name, value)),
{
    let after = put(list, name, value);
    let at = place(list, name, 0);
    lemma_place(list, name, 0);
    assert forall|j: int| 0 <= j < at implies (#[trigger] after[j]).0 != name by {
        assert(list[j].0 != name);
    }
    lemma_place_is(after, name, at);
    if other != name {
        lemma_place(list, other, 0);
        let old_at = place(list, other, 0);
        if old_at < list.len() {
            assert forall|j: int| 0 <= j < old_at implies (#[trigger] after[j]).0 != other by {
                assert(list[j].0 != other);
            }
            lemma_place_is(after, other, old_at);
        } else {
            assert forall|j: int| 0 <= j < after.len() implies (#[trigger] after[j]).0 != other by {
                if j < list.len() {
                    assert(list[j].0 != other);
                }
            }
            lemma_place_is(after, other, after.len() as int);
        }
    }
    if distinct(list) {
        assert forall|i: int, j: int| 0 <= i < j < after.len() implies (#[trigger] after[i]).0 != (
        #[trigger] after[j]).0 by {
            assert(list[i].0 == after[i].0);
            if j < list.len() {
                assert(list[j].0 == after[j].0);
            }
        }
    }
}

/// A name that was taken out is not found, every other name finds what it found, and no name
/// comes to occur twice.
pub proof fn law_without<T>(list: Seq<(Seq<char>, T)>, name: Seq<char>, other: Seq<char>)
    requires
        distinct(list),
    ensures
        lookup(without(list, name), name) is None,
        other != name ==> lookup(without(list, name), other) == lookup(list, other),
        distinct(without(list, name)),
{
    let after = without(list, name);
    let at = place(list, name, 0);
    lemma_place(list, name, 0);
    if at < list.len() {
        assert forall|j: int| 0 <= j < after.len() implies (#[trigger] after[j]).0 != name by {
            let k = if j < at { j } else { j + 1 };
            assert(after[j] == list[k]);
            assert(list[k].0 != list[at].0);
        }
        lemma_place_is(after, name, after.len() as int);
        assert forall|i: int, j: int| 0 <= i < j < after.len() implies (#[trigger] after[i]).0 != (
        #[trigger] after[j]).0 by {
            let x = if i < at { i } else { i + 1 };
            let y = if j < at { j } else { j + 1 };
            assert(list[x].0 != list[y].0);
        }
        if other != name {
            lemma_place(list, other, 0);
            let old_at = place(list, other, 0);
            let new_at = if old_at < at { old_at } else { old_at - 1 };
            assert forall|j: int| 0 <= j < new_at implies (#[trigger] after[j]).0 != other by {
                let k = if j < at { j } else { j + 1 };
                assert(after[j] == list[k]);
                assert(list[k].0 != other);
            }
            lemma_place_is(after, other, new_at);
        }
    }
}

/// Values by name.
#[derive(Debug, PartialEq)]
pub struct NameMap<T> {
    entries: Vec<(String, T)>,
}

impl<T> View for NameMap<T> {
    type V = Seq<(Seq<char>, T)>;

    closed spec fn view(&self) -> Seq<(Seq<char>, T)> {
        Seq::new(self.entries@.len(), |i: int| (self.entries@[i].0@, self.entries@[i].1))
    }
}

impl<T> NameMap<T> {
    /// A map without names.
    pub fn new() -> (r: NameMap<T>)
        ensures
            r@ == Seq::<(Seq<char>, T)>::empty(),
    {
        let r = NameMap { entries: Vec::new() };
        assert(r@ =~= Seq::empty());
        r
    }

    /// The number of names.
    pub fn len(&self) -> (n: usize)
        ensures
            n == self@.len(),
    {
        self.entries.len()
    }

    /// The place of a name, or the number of names.
    fn find(&self, name: &str) -> (at: usize)
        ensures
            at == place(self@, name@, 0),
            at <= self.entries@.len(),
    {
        let mut i: usize = 0;
        while i < self.entries.len()
            invariant
                i <= self.entries@.len(),
                place(self@, name@, 0) == place(self@, name@, i as int),
            decreases self.entries@.len() - i,
        {
            assert(self@[i as int].0 == self.entries@[i as int].0@);
            if same(self.entries[i].0.as_str(), name) {
                return i;
            }
            i += 1;
        }
        i
    }

    /// Whether the name is known.
    pub fn contains(&self, name: &str) -> (r: bool)
        ensures
            r == (lookup(self@, name@) is Some),
    {
        self.find(name) < self.entries.len()
    }

    /// The value under the name.
    pub fn get(&self, name: &str) -> (r: Option<&T>)
        ensures
            match r {
                Some(v) => lookup(self@, name@) == Some(*v),
                None => lookup(self@, name@) is None,
            },
    {
        let at: usize = self.find(name);
        if at < self.entries.len() {
            Some(&self.entries[at].1)
        } else {
            None
        }
    }

    /// The name and the value at a place.
    pub fn at(&self, i: usize) -> (r: (&String, &T))
        requires
            i < self@.len(),
        ensures
            (r.0@, *r.1) == self@[i as int],
    {
        let e = &self.entries[i];
        (&e.0, &e.1)
    }

    /// Sets the value under the name.
    pub fn insert(&mut self, name: String, value: T)
        ensures
            final(self)@ == put(old(self)@, name@, value),
    {
        let ghost before = self@;
        let ghost shown = name@;
        let at: usize = self.find(name.as_str());
        if at < self.entries.len() {
            self.entries[at] = (name, value);
            assert(self@ =~= before.update(at as int, (shown, value)));
        } else {
            self.entries.push((name, value));
            assert(self@ =~= before.push((shown, value)));
        }
    }

    /// Takes the name out, with its value.
    pub fn remove(&mut self, name: &str) -> (r: Option<T>)
        ensures
            final(self)@ == without(old(self)@, name@),
            r == lookup(old(self)@, name@),
    {
        let ghost before = self@;
        let at: usize = self.find(name);
        if at < self.entries.len() {
            let e = self.entries.remove(at);
            assert(self@ =~= before.remove(at as int));
            Some(e.1)
        } else {
            None
        }
    }

    /// Takes a place out.
    pub fn remove_at(&mut self, i: usize)
        requires
            i < old(self)@.len(),
        ensures
            final(self)@ == old(self)@.remove(i as int),
    {
        let ghost before = self@;
        let _ = self.entries.remove(i);
        assert(self@ =~= before.remove(i as int));
    }

    /// Takes every name out.
    pub fn clear(&mut self)
        ensures
            final(self)@ == Seq::<(Seq<char>, T)>::empty(),
    {
        self.entries.clear();
        assert(self@ =~= Seq::empty());
    }
}

/// Names keep their order: one that is known stays in its place, a new one comes last, and taking
/// one out moves none of the others past each other.
pub proof fn law_names_keep_their_order<T>(list: Seq<(Seq<char>, T)>, name: Seq<char>, value: T)
    ensures
        lookup(list, name) is None ==> put(list, name, value) == list.push((name, value)),
        lookup(list, name) is Some ==> put(list, name, value).len() == list.len(),
        forall|i: int| 0 <= i < list.len() ==> (#[trigger] put(list, name, value)[i]).0 == list[i].0,
        forall|i: int|
            0 <= i < list.len() && list[i].0 != name ==> #[trigger] put(list, name, value)[i]
                == list[i],
        lookup(list, name) is None ==> without(list, name) == list,
        lookup(list, name) is Some ==> exists|at: int|
            0 <= at < list.len() && list[at].0 == name && without(list, name)
                == #[trigger] list.remove(at),
{
    lemma_place(list, name, 0);
    let at = place(list, name, 0);
    if at < list.len() {
        assert(without(list, name) == list.remove(at));
    }
}

} // verus!
