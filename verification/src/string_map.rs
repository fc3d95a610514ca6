//! An insertion-ordered map keyed by strings.

use crate::text::same_text;
use vstd::prelude::*;
use vstd::string::*;

verus! {

/// One key of a [`StringMap`] with the value stored under it.
pub struct StringEntry<V> {
    pub key: String,
    pub value: V,
}

/// A map from strings to values that remembers the order in which its keys
/// were first inserted. No key occurs twice; storing under a key that is
/// already present replaces the value and leaves the key where it stands.
pub struct StringMap<V> {
    entries: Vec<StringEntry<V>>,
}

/// The keys of a list of entries, in order.
pub open spec fn entry_keys<V>(entries: Seq<StringEntry<V>>) -> Seq<Seq<char>> {
    Seq::new(entries.len(), |i: int| entries[i].key@)
}

/// The values of a list of entries, in order.
pub open spec fn entry_values<V>(entries: Seq<StringEntry<V>>) -> Seq<V> {
    Seq::new(entries.len(), |i: int| entries[i].value)
}

impl<V> StringMap<V> {
    /// The keys, in the order in which they were first inserted.
    pub closed spec fn keys(&self) -> Seq<Seq<char>> {
        entry_keys(self.entries@)
    }

    /// The values, each at the position of its key.
    pub closed spec fn values(&self) -> Seq<V> {
        entry_values(self.entries@)
    }

    /// No key occurs twice.
    #[verifier::type_invariant]
    pub closed spec fn wf(&self) -> bool {
        self.keys().no_duplicates()
    }

    /// The value stored under `key`, if any.
    pub open spec fn value_of(&self, key: Seq<char>) -> Option<V> {
        if self.keys().contains(key) {
            Some(self.values()[self.keys().index_of(key)])
        } else {
            None
        }
    }

    /// Keys and values line up, and no key occurs twice.
    pub proof fn lemma_shape(&self)
        requires
            self.wf(),
        ensures
            self.keys().len() == self.values().len(),
            self.keys().no_duplicates(),
    {
    }

    /// The empty map.
    pub fn new() -> (map: Self)
        ensures
            map.wf(),
            map.keys() == Seq::<Seq<char>>::empty(),
            map.values() == Seq::<V>::empty(),
    {
        let map = StringMap { entries: Vec::new() };
        assert(map.keys() =~= Seq::<Seq<char>>::empty());
        assert(map.values() =~= Seq::<V>::empty());
        map
    }

    /// The number of keys.
    pub fn len(&self) -> (n: usize)
        ensures
            n == self.keys().len(),
            n == self.values().len(),
            self.wf(),
    {
        proof {
            use_type_invariant(self);
        }
        self.entries.len()
    }

    /// The position of `key`, if it is present.
    pub fn find(&self, key: &str) -> (found: Option<usize>)
        ensures
            self.wf(),
            match found {
                Some(i) => i < self.keys().len() && self.keys()[i as int] == key@,
                None => !self.keys().contains(key@),
            },
    {
        proof {
            use_type_invariant(self);
        }
        let mut i: usize = 0;
        while i < self.entries.len()
            invariant
                self.wf(),
                i <= self.entries.len(),
                forall|j: int| 0 <= j < i ==> self.keys()[j] != key@,
            decreases self.entries.len() - i,
        {
            if same_text(self.entries[i].key.as_str(), key) {
                return Some(i);
            }
            i += 1;
        }
        None
    }

    /// The key at position `i`.
    pub fn key_at(&self, i: usize) -> (key: &String)
        requires
            i < self.keys().len(),
        ensures
            key@ == self.keys()[i as int],
    {
        &self.entries[i].key
    }

    /// The value at position `i`.
    pub fn value_at(&self, i: usize) -> (value: &V)
        requires
            i < self.values().len(),
        ensures
            *value == self.values()[i as int],
    {
        &self.entries[i].value
    }

    /// The value stored under `key`, if any.
    pub fn get(&self, key: &str) -> (value: Option<&V>)
        ensures
            self.wf(),
            match value {
                Some(v) => self.value_of(key@) == Some(*v),
                None => self.value_of(key@).is_none(),
            },
    {
        match self.find(key) {
            Some(i) => {
                proof {
                    self.lemma_index(i as int);
                }
                Some(&self.entries[i].value)
            },
            None => None,
        }
    }

    /// In a well-formed map a key is found at its own position.
    pub proof fn lemma_index(&self, i: int)
        requires
            self.wf(),
            0 <= i < self.keys().len(),
        ensures
            self.keys().contains(self.keys()[i]),
            self.keys().index_of(self.keys()[i]) == i,
            self.value_of(self.keys()[i]) == Some(self.values()[i]),
    {
        let keys = self.keys();
        assert(keys.contains(keys[i]));
        let k = keys.index_of(keys[i]);
        assert(keys[k] == keys[i]);
    }

    /// Stores `value` under `key`: in place where the key is present, at the
    /// end where it is new.
    pub fn insert(&mut self, key: String, value: V)
        ensures
            final(self).wf(),
            final(self).value_of(key@) == Some(value),
            forall|other: Seq<char>|
                other != key@ ==> final(self).value_of(other) == old(self).value_of(other),
            match old(self).value_of(key@) {
                Some(_) => {
                    let i = old(self).keys().index_of(key@);
                    &&& final(self).keys() == old(self).keys()
                    &&& final(self).values() == old(self).values().update(i, value)
                },
                None => {
                    &&& final(self).keys() == old(self).keys().push(key@)
                    &&& final(self).values() == old(self).values().push(value)
                },
            },
    {
        proof {
            use_type_invariant(&*self);
        }
        let found = self.find(key.as_str());
        let mut entries: Vec<StringEntry<V>> = Vec::new();
        core::mem::swap(&mut self.entries, &mut entries);
        match found {
            Some(i) => {
                proof {
                    old(self).lemma_index(i as int);
                }
                entries.set(i, StringEntry { key, value });
                assert(entry_keys(entries@) =~= old(self).keys());
                self.entries = entries;
                assert(self.keys() =~= old(self).keys());
                assert(self.values() =~= old(self).values().update(i as int, value));
                assert forall|other: Seq<char>| other != key@ implies self.value_of(other) == old(
                    self,
                ).value_of(other) by {
                    if self.keys().contains(other) {
                        let j = self.keys().index_of(other);
                        assert(self.keys()[j] == other);
                    }
                }
            },
            None => {
                entries.push(StringEntry { key, value });
                assert(entry_keys(entries@) =~= old(self).keys().push(key@));
                self.entries = entries;
                assert(self.keys() =~= old(self).keys().push(key@));
                assert(self.values() =~= old(self).values().push(value));
                let ghost last = old(self).keys().len() as int;
                assert(self.keys()[last] == key@);
                proof {
                    self.lemma_index(last);
                }
                assert forall|other: Seq<char>| other != key@ implies self.value_of(other) == old(
                    self,
                ).value_of(other) by {
                    if self.keys().contains(other) {
                        let j = self.keys().index_of(other);
                        assert(self.keys()[j] == other);
                        assert(j != last);
                        assert(old(self).keys()[j] == other);
                        old(self).lemma_index(j);
                    }
                    if old(self).keys().contains(other) {
                        let j = old(self).keys().index_of(other);
                        assert(self.keys()[j] == other);
                        self.lemma_index(j);
                    }
                }
            },
        }
    }
}


/// How often `key` occurs among `keys`.
pub open spec fn occurrences(keys: Seq<Seq<char>>, key: Seq<char>) -> nat
    decreases keys.len(),
{
    if keys.len() == 0 {
        0
    } else {
        occurrences(keys.drop_last(), key) + if keys.last() == key {
            1nat
        } else {
            0nat
        }
    }
}

/// The keys without repetition, each where it first occurs.
pub open spec fn distinct_keys(keys: Seq<Seq<char>>) -> Seq<Seq<char>>
    decreases keys.len(),
{
    if keys.len() == 0 {
        Seq::empty()
    } else {
        let before = distinct_keys(keys.drop_last());
        if before.contains(keys.last()) {
            before
        } else {
            before.push(keys.last())
        }
    }
}

/// The position at which `key` occurs last among `keys`; -1 if it does not
/// occur.
pub open spec fn last_index_of(keys: Seq<Seq<char>>, key: Seq<char>) -> int
    decreases keys.len(),
{
    if keys.len() == 0 {
        -1
    } else if keys.last() == key {
        keys.len() - 1
    } else {
        last_index_of(keys.drop_last(), key)
    }
}

/// `i` is the position of the leading count: no count is larger, and every
/// count before it is smaller. Among equal counts the earliest leads.
pub open spec fn is_leader(counts: Seq<usize>, i: int) -> bool {
    &&& 0 <= i < counts.len()
    &&& forall|j: int| 0 <= j < counts.len() ==> counts[j] <= counts[i]
    &&& forall|j: int| 0 <= j < i ==> counts[j] < counts[i]
}

/// The leading count is found at one position only.
pub proof fn lemma_leader_unique(counts: Seq<usize>, i: int, j: int)
    requires
        is_leader(counts, i),
        is_leader(counts, j),
    ensures
        i == j,
{
    if i < j {
        assert(counts[i] < counts[j]);
        assert(counts[j] <= counts[i]);
    }
    if j < i {
        assert(counts[j] < counts[i]);
        assert(counts[i] <= counts[j]);
    }
}

/// A key that is not among the distinct keys does not occur; one that is
/// occurs at least once, and its last position lies within the keys.
pub proof fn lemma_absent_key(keys: Seq<Seq<char>>, key: Seq<char>)
    ensures
        !distinct_keys(keys).contains(key) ==> occurrences(keys, key) == 0,
        distinct_keys(keys).contains(key) ==> 0 <= last_index_of(keys, key) < keys.len(),
        distinct_keys(keys).contains(key) ==> occurrences(keys, key) >= 1,
        occurrences(keys, key) <= keys.len(),
    decreases keys.len(),
{
    if keys.len() > 0 {
        let before = distinct_keys(keys.drop_last());
        lemma_absent_key(keys.drop_last(), key);
        if before.contains(keys.last()) {
        } else {
            assert(before.push(keys.last())[before.len() as int] == keys.last());
            if before.contains(key) {
                let i = choose|i: int| 0 <= i < before.len() && before[i] == key;
                assert(before.push(keys.last())[i] == key);
            }
        }
    }
}

} // verus!
