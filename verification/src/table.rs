//! A table: the key/value store of one tenant namespace.
//!
//! Keys and values are opaque byte strings. A key occurs at most once; putting
//! a value under a key that is present replaces the value. Nothing is ever
//! evicted.

use crate::buf::as_slice;
use crate::buf::bytes_seq;
use bytes::Bytes;
use vstd::prelude::*;

verus! {

/// One key with the value stored under it.
struct Entry {
    key: Bytes,
    value: Bytes,
}

/// The map that a run of entries stands for. Where a key occurs twice the
/// later entry counts.
spec fn entries_map(entries: Seq<Entry>) -> Map<Seq<u8>, Seq<u8>>
    decreases entries.len(),
{
    if entries.len() == 0 {
        Map::empty()
    } else {
        entries_map(entries.drop_last()).insert(
            bytes_seq(entries.last().key),
            bytes_seq(entries.last().value),
        )
    }
}

/// No two entries share a key.
spec fn keys_distinct(entries: Seq<Entry>) -> bool {
    forall|i: int, j: int|
        0 <= i < j < entries.len() ==> bytes_seq(#[trigger] entries[i].key) != bytes_seq(
            #[trigger] entries[j].key,
        )
}

/// The map holds exactly the keys of the entries.
proof fn lemma_map_domain(entries: Seq<Entry>, key: Seq<u8>)
    ensures
        entries_map(entries).contains_key(key) <==> exists|i: int|
            0 <= i < entries.len() && bytes_seq(#[trigger] entries[i].key) == key,
    decreases entries.len(),
{
    if entries.len() > 0 {
        let front = entries.drop_last();
        lemma_map_domain(front, key);
        if entries_map(entries).contains_key(key) {
            if bytes_seq(entries.last().key) == key {
                assert(bytes_seq(entries[entries.len() - 1].key) == key);
            } else {
                let i = choose|i: int|
                    0 <= i < front.len() && bytes_seq(#[trigger] front[i].key) == key;
                assert(bytes_seq(entries[i].key) == key);
            }
        }
        if exists|i: int| 0 <= i < entries.len() && bytes_seq(#[trigger] entries[i].key) == key {
            let i = choose|i: int|
                0 <= i < entries.len() && bytes_seq(#[trigger] entries[i].key) == key;
            if i < front.len() {
                assert(bytes_seq(front[i].key) == key);
            }
        }
    }
}

/// With distinct keys, the map sends each entry's key to that entry's value.
proof fn lemma_map_value(entries: Seq<Entry>, at: int)
    requires
        keys_distinct(entries),
        0 <= at < entries.len(),
    ensures
        entries_map(entries).contains_key(bytes_seq(entries[at].key)),
        entries_map(entries)[bytes_seq(entries[at].key)] == bytes_seq(entries[at].value),
    decreases entries.len(),
{
    let front = entries.drop_last();
    if at < entries.len() - 1 {
        assert(keys_distinct(front)) by {
            assert forall|i: int, j: int| 0 <= i < j < front.len() implies bytes_seq(
                #[trigger] front[i].key,
            ) != bytes_seq(#[trigger] front[j].key) by {
                assert(bytes_seq(entries[i].key) != bytes_seq(entries[j].key));
            }
        }
        lemma_map_value(front, at);
        assert(front[at] == entries[at]);
        assert(bytes_seq(entries[at].key) != bytes_seq(entries[entries.len() - 1].key));
    }
}

/// With distinct keys, replacing one entry by another with the same key
/// stores the new value under that key and touches nothing else.
proof fn lemma_map_replace(entries: Seq<Entry>, at: int, entry: Entry)
    requires
        keys_distinct(entries),
        0 <= at < entries.len(),
        bytes_seq(entry.key) == bytes_seq(entries[at].key),
    ensures
        keys_distinct(entries.update(at, entry)),
        entries_map(entries.update(at, entry)) == entries_map(entries).insert(
            bytes_seq(entry.key),
            bytes_seq(entry.value),
        ),
    decreases entries.len(),
{
    let replaced = entries.update(at, entry);
    assert(keys_distinct(replaced)) by {
        assert forall|i: int, j: int| 0 <= i < j < replaced.len() implies bytes_seq(
            #[trigger] replaced[i].key,
        ) != bytes_seq(#[trigger] replaced[j].key) by {
            assert(bytes_seq(entries[i].key) != bytes_seq(entries[j].key));
        }
    }
    let front = entries.drop_last();
    if at == entries.len() - 1 {
        assert(replaced.drop_last() =~= front);
        assert(entries_map(replaced) =~= entries_map(entries).insert(
            bytes_seq(entry.key),
            bytes_seq(entry.value),
        ));
    } else {
        assert(keys_distinct(front)) by {
            assert forall|i: int, j: int| 0 <= i < j < front.len() implies bytes_seq(
                #[trigger] front[i].key,
            ) != bytes_seq(#[trigger] front[j].key) by {
                assert(bytes_seq(entries[i].key) != bytes_seq(entries[j].key));
            }
        }
        lemma_map_replace(front, at, entry);
        assert(front[at] == entries[at]);
        assert(replaced.drop_last() =~= front.update(at, entry));
        assert(replaced.last() == entries.last());
        assert(bytes_seq(entries[at].key) != bytes_seq(entries[entries.len() - 1].key));
        assert(entries_map(replaced) =~= entries_map(entries).insert(
            bytes_seq(entry.key),
            bytes_seq(entry.value),
        ));
    }
}

/// Tells whether two byte strings are equal, byte for byte.
pub fn same_bytes(a: &[u8], b: &[u8]) -> (same: bool)
    ensures
        same == (a@ == b@),
{
    if a.len() != b.len() {
        return false;
    }
    let mut i: usize = 0;
    while i < a.len()
        invariant
            i <= a@.len(),
            a@.len() == b@.len(),
            forall|j: int| 0 <= j < i ==> a@[j] == b@[j],
        decreases a@.len() - i,
    {
        if a[i] != b[i] {
            return false;
        }
        i = i + 1;
    }
    proof {
        assert(a@ =~= b@);
    }
    true
}

/// A key/value store keyed by byte strings.
pub struct Table {
    entries: Vec<Entry>,
}

impl View for Table {
    type V = Map<Seq<u8>, Seq<u8>>;

    closed spec fn view(&self) -> Map<Seq<u8>, Seq<u8>> {
        entries_map(self.entries@)
    }
}

impl Table {
    /// The invariant of every table: no key is stored twice.
    pub closed spec fn wf(&self) -> bool {
        keys_distinct(self.entries@)
    }

    /// What a lookup of `key` in the map `table` yields.
    pub open spec fn spec_get(table: Map<Seq<u8>, Seq<u8>>, key: Seq<u8>) -> Option<Seq<u8>> {
        if table.contains_key(key) {
            Some(table[key])
        } else {
            None
        }
    }

    /// The map `table` after `value` is stored under `key`.
    pub open spec fn spec_put(
        table: Map<Seq<u8>, Seq<u8>>,
        key: Seq<u8>,
        value: Seq<u8>,
    ) -> Map<Seq<u8>, Seq<u8>> {
        table.insert(key, value)
    }

    /// A table that holds nothing.
    pub fn new() -> (table: Table)
        ensures
            table.wf(),
            table@ == Map::<Seq<u8>, Seq<u8>>::empty(),
    {
        Table { entries: Vec::new() }
    }

    /// The position of the entry stored under `key`, if there is one.
    fn find(&self, key: &[u8]) -> (found: Option<usize>)
        ensures
            match found {
                Some(at) => at < self.entries@.len() && bytes_seq(self.entries@[at as int].key)
                    == key@,
                None => forall|i: int|
                    0 <= i < self.entries@.len() ==> bytes_seq(#[trigger] self.entries@[i].key)
                        != key@,
            },
    {
        let mut i: usize = 0;
        while i < self.entries.len()
            invariant
                i <= self.entries@.len(),
                forall|j: int|
                    0 <= j < i ==> bytes_seq(#[trigger] self.entries@[j].key) != key@,
            decreases self.entries@.len() - i,
        {
            if same_bytes(as_slice(&self.entries[i].key), key) {
                return Some(i);
            }
            i = i + 1;
        }
        None
    }

    /// Looks up the value stored under `key`. The value is handed out by
    /// reference; no byte of it is copied.
    pub fn get(&self, key: &[u8]) -> (value: Option<&Bytes>)
        requires
            self.wf(),
        ensures
            match value {
                Some(v) => Self::spec_get(self@, key@) == Some(bytes_seq(*v)),
                None => Self::spec_get(self@, key@) is None,
            },
    {
        proof {
            lemma_map_domain(self.entries@, key@);
        }
        match self.find(key) {
            Some(at) => {
                proof {
                    lemma_map_value(self.entries@, at as int);
                }
                Some(&self.entries[at].value)
            },
            None => None,
        }
    }

    /// Stores `value` under `key`, replacing the value that was there, if any.
    /// Every other key keeps its value.
    pub fn put(&mut self, key: Bytes, value: Bytes)
        requires
            old(self).wf(),
        ensures
            final(self).wf(),
            final(self)@ == Self::spec_put(old(self)@, bytes_seq(key), bytes_seq(value)),
    {
        let found = self.find(as_slice(&key));
        let entry = Entry { key, value };
        match found {
            Some(at) => {
                proof {
                    lemma_map_replace(self.entries@, at as int, entry);
                }
                self.entries[at] = entry;
            },
            None => {
                self.entries.push(entry);
                proof {
                    assert(self.entries@.drop_last() =~= old(self).entries@);
                }
            },
        }
    }
}

impl Default for Table {
    /// A table that holds nothing.
    fn default() -> (table: Table)
        ensures
            table.wf(),
            table@ == Map::<Seq<u8>, Seq<u8>>::empty(),
    {
        Table::new()
    }
}

/// A value that was put under a key is what a lookup of that key yields, and
/// a lookup of any other key yields what it did before.
pub proof fn lemma_put_then_get(
    table: Map<Seq<u8>, Seq<u8>>,
    key: Seq<u8>,
    value: Seq<u8>,
    other: Seq<u8>,
)
    ensures
        Table::spec_get(Table::spec_put(table, key, value), key) == Some(value),
        other != key ==> Table::spec_get(Table::spec_put(table, key, value), other)
            == Table::spec_get(table, other),
{
}

} // verus!
