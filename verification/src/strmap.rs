//! A small map keyed by strings that keeps its entries in the order in which
//! their keys first came, so that walking it gives the same order every time.

use vstd::prelude::*;
use crate::text::same_text;

verus! {

/// No key stands in two entries.
pub open spec fn distinct_keys<T>(pairs: Seq<(Seq<char>, T)>) -> bool {
    forall|i: int, j: int| 0 <= i < j < pairs.len() ==> pairs[i].0 != pairs[j].0
}

/// The map that a list of entries stands for; of two entries with one key the
/// later one counts.
pub open spec fn as_map<T>(pairs: Seq<(Seq<char>, T)>) -> Map<Seq<char>, T>
    decreases pairs.len(),
{
    if pairs.len() == 0 {
        Map::empty()
    } else {
        as_map(pairs.drop_last()).insert(pairs.last().0, pairs.last().1)
    }
}

/// Whether `key` stands in an entry of the list.
pub open spec fn has_key<T>(pairs: Seq<(Seq<char>, T)>, key: Seq<char>) -> bool {
    exists|i: int| 0 <= i < pairs.len() && (#[trigger] pairs[i]).0 == key
}

/// The index of an entry with `key`, where there is one.
pub open spec fn key_index<T>(pairs: Seq<(Seq<char>, T)>, key: Seq<char>) -> int {
    choose|i: int| 0 <= i < pairs.len() && (#[trigger] pairs[i]).0 == key
}

/// The list with `value` stored under `key`: in the place of the entry with
/// that key, or else in a new entry at the end.
pub open spec fn put<T>(pairs: Seq<(Seq<char>, T)>, key: Seq<char>, value: T) -> Seq<
    (Seq<char>, T),
> {
    if has_key(pairs, key) {
        pairs.update(key_index(pairs, key), (key, value))
    } else {
        pairs.push((key, value))
    }
}

/// A key of the list is a key of its map.
pub proof fn lemma_as_map_has_key<T>(pairs: Seq<(Seq<char>, T)>, i: int)
    requires
        0 <= i < pairs.len(),
    ensures
        as_map(pairs).dom().contains(pairs[i].0),
    decreases pairs.len(),
{
    if i < pairs.len() - 1 {
        lemma_as_map_has_key(pairs.drop_last(), i);
    }
}

/// A key of the map is a key of the list.
pub proof fn lemma_as_map_key_listed<T>(pairs: Seq<(Seq<char>, T)>, key: Seq<char>)
    requires
        as_map(pairs).dom().contains(key),
    ensures
        exists|i: int| 0 <= i < pairs.len() && #[trigger] pairs[i].0 == key,
    decreases pairs.len(),
{
    if pairs.len() > 0 {
        if pairs.last().0 == key {
            assert(pairs[pairs.len() - 1].0 == key);
        } else {
            lemma_as_map_key_listed(pairs.drop_last(), key);
            let i = choose|i: int|
                0 <= i < pairs.drop_last().len() && #[trigger] pairs.drop_last()[i].0 == key;
            assert(pairs[i].0 == key);
        }
    }
}

/// Where no key stands twice, the map gives each key the value listed with it.
pub proof fn lemma_as_map_value<T>(pairs: Seq<(Seq<char>, T)>, i: int)
    requires
        0 <= i < pairs.len(),
        distinct_keys(pairs),
    ensures
        as_map(pairs).dom().contains(pairs[i].0),
        as_map(pairs)[pairs[i].0] == pairs[i].1,
    decreases pairs.len(),
{
    if i < pairs.len() - 1 {
        lemma_as_map_value(pairs.drop_last(), i);
    }
}

/// Where no key stands twice, a new value for a listed key changes the map at
/// that key only.
pub proof fn lemma_as_map_update<T>(pairs: Seq<(Seq<char>, T)>, i: int, value: T)
    requires
        0 <= i < pairs.len(),
        distinct_keys(pairs),
    ensures
        distinct_keys(pairs.update(i, (pairs[i].0, value))),
        as_map(pairs.update(i, (pairs[i].0, value))) == as_map(pairs).insert(pairs[i].0, value),
    decreases pairs.len(),
{
    let after = pairs.update(i, (pairs[i].0, value));
    if i < pairs.len() - 1 {
        lemma_as_map_update(pairs.drop_last(), i, value);
        assert(after.drop_last() =~= pairs.drop_last().update(i, (pairs[i].0, value)));
        assert(after.last() == pairs.last());
        assert(as_map(after) =~= as_map(pairs).insert(pairs[i].0, value));
    } else {
        assert(after.drop_last() =~= pairs.drop_last());
        assert(as_map(after) =~= as_map(pairs).insert(pairs[i].0, value));
    }
}

/// A map from strings to values that remembers the order of its entries.
#[derive(Debug, PartialEq, Eq)]
pub struct StringMap<V: DeepView> {
    entries: Vec<(String, V)>,
}

impl<V: DeepView + Clone> Clone for StringMap<V> {
    /// A map with the same keys in the same order, each with a clone of its value.
    fn clone(&self) -> (out: Self)
        ensures
            out.deep_view().len() == self.deep_view().len(),
            forall|i: int|
                0 <= i < self.deep_view().len() ==> (#[trigger] out.deep_view()[i]).0
                    == self.deep_view()[i].0,
    {
        proof {
            use_type_invariant(self);
        }
        let mut entries: Vec<(String, V)> = Vec::new();
        let mut i: usize = 0;
        while i < self.entries.len()
            invariant
                i <= self.entries.len(),
                entries.len() == i,
                forall|j: int|
                    0 <= j < i ==> (#[trigger] entries.deep_view()[j]).0
                        == self.entries.deep_view()[j].0,
            decreases self.entries.len() - i,
        {
            let key = self.entries[i].0.clone();
            let value = self.entries[i].1.clone();
            let ghost before = entries.deep_view();
            entries.push((key, value));
            assert(entries.deep_view() =~= before.push((key@, value.deep_view())));
            i += 1;
        }
        StringMap { entries }
    }
}

impl<V: DeepView> DeepView for StringMap<V> {
    type V = Seq<(Seq<char>, V::V)>;

    /// The entries in order, each key and value by its own view.
    closed spec fn deep_view(&self) -> Seq<(Seq<char>, V::V)> {
        self.entries.deep_view()
    }
}

impl<V: DeepView> StringMap<V> {
    #[verifier::type_invariant]
    spec fn keys_are_distinct(self) -> bool {
        distinct_keys(self.entries.deep_view())
    }

    /// The map that the entries stand for.
    pub open spec fn map(&self) -> Map<Seq<char>, V::V> {
        as_map(self.deep_view())
    }

    /// A map without entries.
    pub fn new() -> (out: Self)
        ensures
            out.deep_view() == Seq::<(Seq<char>, V::V)>::empty(),
    {
        let out = StringMap { entries: Vec::new() };
        assert(out.entries.deep_view() =~= Seq::<(Seq<char>, V::V)>::empty());
        out
    }

    /// The number of entries.
    pub fn len(&self) -> (n: usize)
        ensures
            n == self.deep_view().len(),
    {
        self.entries.len()
    }

    /// Whether there is no entry.
    pub fn is_empty(&self) -> (empty: bool)
        ensures
            empty == (self.deep_view().len() == 0),
    {
        self.entries.len() == 0
    }

    /// The key of the entry at `index`.
    pub fn key_at(&self, index: usize) -> (key: &String)
        requires
            index < self.deep_view().len(),
        ensures
            key@ == self.deep_view()[index as int].0,
    {
        &self.entries[index].0
    }

    /// The value of the entry at `index`.
    pub fn value_at(&self, index: usize) -> (value: &V)
        requires
            index < self.deep_view().len(),
        ensures
            value.deep_view() == self.deep_view()[index as int].1,
    {
        &self.entries[index].1
    }

    /// The index of the entry with `key`, if there is one.
    pub fn position(&self, key: &str) -> (found: Option<usize>)
        ensures
            distinct_keys(self.deep_view()),
            match found {
                Some(i) => i < self.deep_view().len() && self.deep_view()[i as int].0 == key@,
                None => !self.map().dom().contains(key@),
            },
    {
        proof {
            use_type_invariant(self);
        }
        let mut i: usize = 0;
        while i < self.entries.len()
            invariant
                i <= self.entries.len(),
                distinct_keys(self.entries.deep_view()),
                forall|j: int| 0 <= j < i ==> self.entries.deep_view()[j].0 != key@,
            decreases self.entries.len() - i,
        {
            if same_text(self.entries[i].0.as_str(), key) {
                return Some(i);
            }
            i += 1;
        }
        proof {
            if self.map().dom().contains(key@) {
                lemma_as_map_key_listed(self.deep_view(), key@);
            }
        }
        None
    }

    /// The value stored under `key`, if there is one.
    pub fn get(&self, key: &str) -> (value: Option<&V>)
        ensures
            match value {
                Some(v) => self.map().dom().contains(key@) && self.map()[key@] == v.deep_view(),
                None => !self.map().dom().contains(key@),
            },
    {
        match self.position(key) {
            Some(i) => {
                proof {
                    lemma_as_map_value(self.deep_view(), i as int);
                }
                Some(&self.entries[i].1)
            },
            None => None,
        }
    }

    /// Whether a value is stored under `key`.
    pub fn contains_key(&self, key: &str) -> (found: bool)
        ensures
            found == self.map().dom().contains(key@),
    {
        match self.position(key) {
            Some(i) => {
                proof {
                    lemma_as_map_has_key(self.deep_view(), i as int);
                }
                true
            },
            None => false,
        }
    }

    /// Stores `value` under `key`: in place of the value that was there, or
    /// else in a new entry at the end.
    pub fn insert(&mut self, key: String, value: V)
        ensures
            final(self).map() == old(self).map().insert(key@, value.deep_view()),
            final(self).deep_view() == put(old(self).deep_view(), key@, value.deep_view()),
            old(self).map().dom().contains(key@) ==> final(self).deep_view().len() == old(
                self,
            ).deep_view().len(),
            !old(self).map().dom().contains(key@) ==> final(self).deep_view() == old(
                self,
            ).deep_view().push((key@, value.deep_view())),
            forall|i: int|
                0 <= i < old(self).deep_view().len() ==> (#[trigger] final(self).deep_view()[i]).0
                    == old(self).deep_view()[i].0,
            forall|i: int|
                0 <= i < old(self).deep_view().len() && old(self).deep_view()[i].0 != key@
                    ==> #[trigger] final(self).deep_view()[i] == old(self).deep_view()[i],
    {
        let ghost before = self.deep_view();
        match self.position(key.as_str()) {
            Some(i) => {
                proof {
                    lemma_as_map_update(before, i as int, value.deep_view());
                    lemma_as_map_has_key(before, i as int);
                }
                proof {
                    assert(before[i as int].0 == key@);
                    assert(has_key(before, key@));
                    let chosen = key_index(before, key@);
                    assert(chosen == i) by {
                        if chosen < i {
                            assert(before[chosen].0 != before[i as int].0);
                        } else if chosen > i {
                            assert(before[i as int].0 != before[chosen].0);
                        }
                    }
                }
                let mut entries = Vec::new();
                std::mem::swap(&mut entries, &mut self.entries);
                entries.set(i, (key, value));
                assert(entries.deep_view() =~= before.update(
                    i as int,
                    (before[i as int].0, value.deep_view()),
                ));
                self.entries = entries;
            },
            None => {
                proof {
                    assert forall|j: int| 0 <= j < before.len() implies before[j].0 != key@ by {
                        lemma_as_map_has_key(before, j);
                    }
                    assert(!has_key(before, key@));
                }
                let mut entries = Vec::new();
                std::mem::swap(&mut entries, &mut self.entries);
                entries.push((key, value));
                assert(entries.deep_view() =~= before.push((key@, value.deep_view())));
                assert(entries.deep_view().drop_last() =~= before);
                self.entries = entries;
            },
        }
    }
}

impl StringMap<String> {
    /// Stores every entry of `other`, each in place of what stood under its key.
    pub fn merge(&mut self, other: &StringMap<String>)
        ensures
            final(self).map() == old(self).map().union_prefer_right(other.map()),
    {
        let mut i: usize = 0;
        assert(other.deep_view().take(0) =~= Seq::<(Seq<char>, Seq<char>)>::empty());
        assert(self.map() =~= self.map().union_prefer_right(as_map(other.deep_view().take(0))));
        while i < other.len()
            invariant
                i <= other.deep_view().len(),
                self.map() == old(self).map().union_prefer_right(
                    as_map(other.deep_view().take(i as int)),
                ),
            decreases other.deep_view().len() - i,
        {
            let key = other.key_at(i).clone();
            let value = other.value_at(i).clone();
            let ghost done = other.deep_view().take(i as int);
            let ghost next = other.deep_view().take(i + 1);
            assert(next.drop_last() =~= done);
            assert(next.last() == (key@, value@));
            self.insert(key, value);
            assert(self.map() =~= old(self).map().union_prefer_right(as_map(next)));
            i += 1;
        }
        assert(other.deep_view().take(other.deep_view().len() as int) =~= other.deep_view());
    }
}

} // verus!
