//! Tables that map keys to values.

use vstd::prelude::*;

verus! {

/// What can be looked up in a table.
pub trait Key: Copy {
    /// Whether two keys are the same.
    fn same(&self, other: &Self) -> (r: bool)
        ensures
            r == (*self == *other),
    ;
}

impl Key for u64 {
    fn same(&self, other: &Self) -> (r: bool) {
        *self == *other
    }
}

/// A table.
pub struct Table<K: Key, V: Copy> {
    entries: Vec<(K, V)>,
}

/// What a sequence of entries maps each key to: the value of the last entry with it.
pub open spec fn entries_map<K, V>(entries: Seq<(K, V)>) -> Map<K, V>
    decreases entries.len(),
{
    if entries.len() == 0 {
        Map::empty()
    } else {
        entries_map(entries.drop_last()).insert(entries.last().0, entries.last().1)
    }
}

impl<K: Key, V: Copy> View for Table<K, V> {
    type V = Map<K, V>;

    closed spec fn view(&self) -> Map<K, V> {
        entries_map(self.entries@)
    }
}

/// Where the last entry with a key is, and what it maps the key to.
proof fn lemma_last_entry<K, V>(entries: Seq<(K, V)>, key: K, i: int)
    requires
        0 <= i < entries.len(),
        entries[i].0 == key,
        forall|j: int| i < j < entries.len() ==> (#[trigger] entries[j]).0 != key,
    ensures
        entries_map(entries).contains_key(key),
        entries_map(entries)[key] == entries[i].1,
    decreases entries.len(),
{
    if i < entries.len() - 1 {
        assert(entries.last().0 != key);
        lemma_last_entry(entries.drop_last(), key, i);
    }
}

/// A key that no entry has is not mapped.
proof fn lemma_no_entry<K, V>(entries: Seq<(K, V)>, key: K)
    requires
        forall|j: int| 0 <= j < entries.len() ==> (#[trigger] entries[j]).0 != key,
    ensures
        !entries_map(entries).contains_key(key),
    decreases entries.len(),
{
    if entries.len() > 0 {
        assert(entries.last().0 != key);
        lemma_no_entry(entries.drop_last(), key);
    }
}

/// Replacing the last entry with a key replaces what the key is mapped to.
proof fn lemma_replaced_entry<K, V>(entries: Seq<(K, V)>, key: K, value: V, i: int)
    requires
        0 <= i < entries.len(),
        entries[i].0 == key,
        forall|j: int| i < j < entries.len() ==> (#[trigger] entries[j]).0 != key,
    ensures
        entries_map(entries.update(i, (key, value))) == entries_map(entries).insert(key, value),
    decreases entries.len(),
{
    let after = entries.update(i, (key, value));
    if i == entries.len() - 1 {
        assert(after.drop_last() =~= entries.drop_last());
        assert(entries_map(after) =~= entries_map(entries).insert(key, value));
    } else {
        assert(entries.last().0 != key);
        lemma_replaced_entry(entries.drop_last(), key, value, i);
        assert(after.drop_last() =~= entries.drop_last().update(i, (key, value)));
        assert(entries_map(after) =~= entries_map(entries).insert(key, value));
    }
}

impl<K: Key, V: Copy> Table<K, V> {
    /// An empty table.
    pub fn new() -> (r: Self)
        ensures
            r@ == Map::<K, V>::empty(),
    {
        Table { entries: Vec::new() }
    }

    /// Where the last entry with a key is.
    fn find(&self, key: K) -> (r: Option<usize>)
        ensures
            match r {
                Some(i) => {
                    &&& i < self.entries.len()
                    &&& self.entries[i as int].0 == key
                    &&& forall|j: int|
                        i < j < self.entries.len() ==> (#[trigger] self.entries[j]).0 != key
                },
                None => forall|j: int|
                    0 <= j < self.entries.len() ==> (#[trigger] self.entries[j]).0 != key,
            },
    {
        let mut n: usize = self.entries.len();
        while n > 0
            invariant
                n <= self.entries.len(),
                forall|j: int|
                    n <= j < self.entries.len() ==> (#[trigger] self.entries[j]).0 != key,
            decreases n,
        {
            n -= 1;
            if self.entries[n].0.same(&key) {
                return Some(n);
            }
        }
        None
    }

    /// What a key is mapped to.
    pub fn get(&self, key: K) -> (r: Option<V>)
        ensures
            r == (if self@.contains_key(key) {
                Some(self@[key])
            } else {
                None
            }),
    {
        match self.find(key) {
            Some(i) => {
                proof {
                    lemma_last_entry(self.entries@, key, i as int);
                }
                Some(self.entries[i].1)
            },
            None => {
                proof {
                    lemma_no_entry(self.entries@, key);
                }
                None
            },
        }
    }

    /// Whether a key is mapped.
    pub fn contains_key(&self, key: K) -> (r: bool)
        ensures
            r == self@.contains_key(key),
    {
        self.get(key).is_some()
    }

    /// Maps a key to a value.
    pub fn insert(&mut self, key: K, value: V)
        ensures
            final(self)@ == old(self)@.insert(key, value),
    {
        match self.find(key) {
            Some(i) => {
                proof {
                    lemma_replaced_entry(self.entries@, key, value, i as int);
                }
                self.entries.set(i, (key, value));
            },
            None => {
                self.entries.push((key, value));
                assert(self.entries@.drop_last() =~= old(self).entries@);
            },
        }
    }
}

} // verus!
