use crate::hasher::same_digest;
use vstd::prelude::*;

verus! {

/// A record's key: the administrators' root, then the digest the record is about.
pub type Key = ([u8; 32], [u8; 32]);

/// The value that `entries` holds for `key`: that of the first entry under it.
pub open spec fn first_under<V>(entries: Seq<(Key, V)>, key: Key) -> Option<V>
    decreases entries.len(),
{
    if entries.len() == 0 {
        None
    } else if entries[0].0 == key {
        Some(entries[0].1)
    } else {
        first_under(entries.drop_first(), key)
    }
}

/// A keyed table of records. Records are added and overwritten, never
/// removed. A key's record is the first entry under it; `insert` overwrites
/// that entry where there is one.
pub struct Table<V> {
    entries: Vec<(Key, V)>,
}

impl<V> View for Table<V> {
    type V = Map<Key, V>;

    closed spec fn view(&self) -> Map<Key, V> {
        Map::new(
            |key: Key| first_under(self.entries@, key) is Some,
            |key: Key| first_under(self.entries@, key)->0,
        )
    }
}

proof fn lemma_first_under_skip<V>(entries: Seq<(Key, V)>, key: Key, n: int)
    requires
        0 <= n <= entries.len(),
        forall|j: int| 0 <= j < n ==> entries[j].0 != key,
    ensures
        first_under(entries, key) == first_under(entries.skip(n), key),
    decreases n,
{
    if n == 0 {
        assert(entries.skip(0) =~= entries);
    } else {
        lemma_first_under_skip(entries.drop_first(), key, n - 1);
        assert(entries.drop_first().skip(n - 1) =~= entries.skip(n));
    }
}

proof fn lemma_first_under_update<V>(entries: Seq<(Key, V)>, at: int, value: V, other: Key)
    requires
        0 <= at < entries.len(),
        forall|j: int| 0 <= j < at ==> entries[j].0 != entries[at].0,
    ensures
        first_under(entries.update(at, (entries[at].0, value)), other) == if other
            == entries[at].0 {
            Some(value)
        } else {
            first_under(entries, other)
        },
    decreases at,
{
    let key = entries[at].0;
    let updated = entries.update(at, (key, value));
    if at == 0 {
        assert(updated.drop_first() =~= entries.drop_first());
    } else {
        lemma_first_under_update(entries.drop_first(), at - 1, value, other);
        assert(updated.drop_first() =~= entries.drop_first().update(at - 1, (key, value)));
    }
}

proof fn lemma_first_under_push<V>(entries: Seq<(Key, V)>, key: Key, value: V, other: Key)
    ensures
        first_under(entries.push((key, value)), other) == if first_under(entries, other) is Some {
            first_under(entries, other)
        } else if other == key {
            Some(value)
        } else {
            None
        },
    decreases entries.len(),
{
    let pushed = entries.push((key, value));
    if entries.len() == 0 {
        assert(pushed.drop_first() =~= entries);
    } else {
        lemma_first_under_push(entries.drop_first(), key, value, other);
        assert(pushed.drop_first() =~= entries.drop_first().push((key, value)));
    }
}

impl<V> Table<V> {
    /// The table without records.
    pub fn new() -> (table: Self)
        ensures
            table@ == Map::<Key, V>::empty(),
    {
        let table = Table { entries: Vec::new() };
        assert(table@ =~= Map::<Key, V>::empty());
        table
    }

    /// The place of the first entry under `key`, if there is one.
    fn position(&self, key: &Key) -> (at: Option<usize>)
        ensures
            match at {
                Some(i) => {
                    &&& i < self.entries@.len()
                    &&& self.entries@[i as int].0 == *key
                    &&& forall|j: int| 0 <= j < i ==> self.entries@[j].0 != *key
                    &&& first_under(self.entries@, *key) == Some(self.entries@[i as int].1)
                },
                None => first_under(self.entries@, *key) is None,
            },
    {
        let mut i: usize = 0;
        while i < self.entries.len()
            invariant
                i <= self.entries@.len(),
                forall|j: int| 0 <= j < i ==> self.entries@[j].0 != *key,
            decreases self.entries@.len() - i,
        {
            let entry = &self.entries[i];
            if same_digest(&entry.0.0, &key.0) && same_digest(&entry.0.1, &key.1) {
                proof {
                    lemma_first_under_skip(self.entries@, *key, i as int);
                }
                return Some(i);
            }
            i += 1;
        }
        proof {
            lemma_first_under_skip(self.entries@, *key, i as int);
        }
        None
    }

    /// Whether there is a record under `key`.
    pub fn contains_key(&self, key: &Key) -> (found: bool)
        ensures
            found == self@.contains_key(*key),
    {
        self.position(key).is_some()
    }

    /// The record under `key`, if there is one.
    pub fn get(&self, key: &Key) -> (value: Option<&V>)
        ensures
            match value {
                Some(v) => self@.contains_key(*key) && *v == self@[*key],
                None => !self@.contains_key(*key),
            },
    {
        match self.position(key) {
            Some(i) => Some(&self.entries[i].1),
            None => None,
        }
    }

    /// Puts `value` under `key`, in place of the record that was there.
    pub fn insert(&mut self, key: Key, value: V)
        ensures
            final(self)@ == old(self)@.insert(key, value),
    {
        match self.position(&key) {
            Some(i) => {
                self.entries[i] = (key, value);
                proof {
                    assert forall|other: Key|
                        first_under(self.entries@, other) == #[trigger] first_under(
                            old(self).entries@,
                            other,
                        ) || other == key by {
                        lemma_first_under_update(old(self).entries@, i as int, value, other);
                    }
                    lemma_first_under_update(old(self).entries@, i as int, value, key);
                }
            },
            None => {
                self.entries.push((key, value));
                proof {
                    assert forall|other: Key|
                        first_under(self.entries@, other) == if other == key {
                            Some(value)
                        } else {
                            #[trigger] first_under(old(self).entries@, other)
                        } by {
                        lemma_first_under_push(old(self).entries@, key, value, other);
                    }
                }
            },
        }
        assert(self@ =~= old(self)@.insert(key, value));
    }
}

} // verus!
