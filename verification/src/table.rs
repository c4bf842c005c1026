//! A flat table of keyed values, which finds a key by comparing nibbles.
//!
//! The table answers what a trie answers (what is stored under a key) without
//! a trie's branching: its entries lie side by side, and a key is found by
//! [`match_keys`] against each in turn.

use crate::keys::{match_keys, KeyMatch, TrieKey};
use crate::nibbles::{nibbles, unpack};
use nibble_vec::NibbleVec;
use vstd::prelude::*;

verus! {

/// A key, as nibbles, and the value stored under it.
struct Entry<V> {
    key: NibbleVec,
    value: V,
}

/// The nibbles of the key of entry `i`.
spec fn key_at<V>(entries: Seq<Entry<V>>, i: int) -> Seq<u8> {
    nibbles(entries[i].key)
}

/// Whether some entry has the key `key`.
spec fn holds<V>(entries: Seq<Entry<V>>, key: Seq<u8>) -> bool {
    exists|i: int| 0 <= i < entries.len() && #[trigger] key_at(entries, i) == key
}

/// An entry with the key `key`.
spec fn slot_of<V>(entries: Seq<Entry<V>>, key: Seq<u8>) -> int {
    choose|i: int| 0 <= i < entries.len() && #[trigger] key_at(entries, i) == key
}

/// Whether no two entries have the same key.
spec fn distinct<V>(entries: Seq<Entry<V>>) -> bool {
    forall|i: int, j: int|
        0 <= i < j < entries.len() ==> #[trigger] key_at(entries, i) != #[trigger] key_at(
            entries,
            j,
        )
}

/// The map from each key that has an entry to the value of that entry.
spec fn contents<V>(entries: Seq<Entry<V>>) -> Map<Seq<u8>, V> {
    Map::new(|key: Seq<u8>| holds(entries, key), |key: Seq<u8>| entries[slot_of(entries, key)].value)
}

/// Entry `i` is the one entry with its key, and its value is what the map
/// holds under that key.
proof fn lemma_slot<V>(entries: Seq<Entry<V>>, i: int)
    requires
        distinct(entries),
        0 <= i < entries.len(),
    ensures
        holds(entries, key_at(entries, i)),
        slot_of(entries, key_at(entries, i)) == i,
        contents(entries).dom().contains(key_at(entries, i)),
        contents(entries)[key_at(entries, i)] == entries[i].value,
{
}

/// A new entry under a key that has none adds that key to the map.
proof fn lemma_push<V>(entries: Seq<Entry<V>>, entry: Entry<V>)
    requires
        distinct(entries),
        !holds(entries, nibbles(entry.key)),
    ensures
        distinct(entries.push(entry)),
        contents(entries.push(entry)) == contents(entries).insert(nibbles(entry.key), entry.value),
{
    let more = entries.push(entry);
    let last = entries.len() as int;
    assert forall|i: int| 0 <= i < entries.len() implies key_at(more, i) == key_at(entries, i) by {
    }
    assert(distinct(more));
    let after = contents(more);
    let goal = contents(entries).insert(nibbles(entry.key), entry.value);
    assert forall|key: Seq<u8>| after.dom().contains(key) <==> goal.dom().contains(key) by {
        if holds(more, key) {
            assert(key_at(more, slot_of(more, key)) == key);
        }
        if holds(entries, key) {
            assert(key_at(more, slot_of(entries, key)) == key);
        }
        if key == nibbles(entry.key) {
            assert(key_at(more, last) == key);
        }
    }
    assert forall|key: Seq<u8>| after.dom().contains(key) implies after[key] == goal[key] by {
        let i = slot_of(more, key);
        lemma_slot(more, i);
        if i < last {
            lemma_slot(entries, i);
        }
    }
}

/// Where entry `at` moves to, seen from the sequence without it: the index
/// in the full sequence of what stands at `i` afterwards.
spec fn unshift(at: int, i: int) -> int {
    if i < at {
        i
    } else {
        i + 1
    }
}

/// Taking an entry out takes its key out of the map, and nothing else.
proof fn lemma_remove<V>(entries: Seq<Entry<V>>, at: int)
    requires
        distinct(entries),
        0 <= at < entries.len(),
    ensures
        distinct(entries.remove(at)),
        !holds(entries.remove(at), key_at(entries, at)),
        contents(entries.remove(at)) == contents(entries).remove(key_at(entries, at)),
{
    let fewer = entries.remove(at);
    let gone = key_at(entries, at);
    assert forall|i: int| 0 <= i < fewer.len() implies key_at(fewer, i) == key_at(
        entries,
        unshift(at, i),
    ) by {
    }
    assert(distinct(fewer));
    assert(!holds(fewer, gone));
    let after = contents(fewer);
    let goal = contents(entries).remove(gone);
    assert forall|key: Seq<u8>| after.dom().contains(key) <==> goal.dom().contains(key) by {
        if holds(fewer, key) {
            let i = slot_of(fewer, key);
            assert(key_at(entries, unshift(at, i)) == key);
        }
        if holds(entries, key) && key != gone {
            let i = slot_of(entries, key);
            let to = if i < at {
                i
            } else {
                i - 1
            };
            assert(key_at(fewer, to) == key);
        }
    }
    assert forall|key: Seq<u8>| after.dom().contains(key) implies after[key] == goal[key] by {
        let i = slot_of(fewer, key);
        lemma_slot(fewer, i);
        lemma_slot(entries, unshift(at, i));
    }
}

/// The entry whose key has the nibbles of `key`, if there is one.
fn find<V>(entries: &Vec<Entry<V>>, key: &NibbleVec) -> (slot: Option<usize>)
    ensures
        match slot {
            Some(i) => i < entries.len() && key_at(entries@, i as int) == nibbles(*key),
            None => !holds(entries@, nibbles(*key)),
        },
{
    let mut i: usize = 0;
    while i < entries.len()
        invariant
            i <= entries.len(),
            forall|j: int| 0 <= j < i ==> key_at(entries@, j) != nibbles(*key),
        decreases entries.len() - i,
    {
        let m = match_keys(0, &entries[i].key, key);
        match m {
            KeyMatch::Full => {
                return Some(i);
            },
            _ => {},
        }
        i += 1;
    }
    None
}

/// Values stored under keys, each key held as its nibbles.
pub struct KeyTable<V> {
    entries: Vec<Entry<V>>,
}

impl<V> View for KeyTable<V> {
    type V = Map<Seq<u8>, V>;

    /// The value stored under each sequence of nibbles that is the key of an
    /// entry.
    closed spec fn view(&self) -> Map<Seq<u8>, V> {
        contents(self.entries@)
    }
}

impl<V> KeyTable<V> {
    #[verifier::type_invariant]
    spec fn well_formed(&self) -> bool {
        distinct(self.entries@)
    }

    /// A table without entries.
    pub fn new() -> (table: Self)
        ensures
            table@ == Map::<Seq<u8>, V>::empty(),
    {
        KeyTable { entries: Vec::new() }
    }

    /// Store `value` under `key`, and give back what was stored there before.
    pub fn insert<K: TrieKey>(&mut self, key: &K, value: V) -> (before: Option<V>)
        ensures
            final(self)@ == old(self)@.insert(unpack(key.encoding()), value),
            before == if old(self)@.dom().contains(unpack(key.encoding())) {
                Some(old(self)@[unpack(key.encoding())])
            } else {
                None
            },
    {
        proof {
            use_type_invariant(&*self);
        }
        let nv = key.encode();
        let mut entries = Vec::new();
        std::mem::swap(&mut entries, &mut self.entries);
        let ghost start = entries@;
        let before = match find(&entries, &nv) {
            Some(i) => {
                proof {
                    lemma_slot(start, i as int);
                    lemma_remove(start, i as int);
                }
                let entry = entries.remove(i);
                assert(contents(entries@).insert(nibbles(nv), value) =~= contents(start).insert(
                    nibbles(nv),
                    value,
                ));
                Some(entry.value)
            },
            None => None,
        };
        let entry = Entry { key: nv, value };
        proof {
            lemma_push(entries@, entry);
        }
        entries.push(entry);
        self.entries = entries;
        before
    }

    /// What is stored under `key`.
    pub fn get<K: TrieKey>(&self, key: &K) -> (found: Option<&V>)
        ensures
            found == if self@.dom().contains(unpack(key.encoding())) {
                Some(&self@[unpack(key.encoding())])
            } else {
                None
            },
    {
        proof {
            use_type_invariant(self);
        }
        let nv = key.encode();
        match find(&self.entries, &nv) {
            Some(i) => {
                proof {
                    lemma_slot(self.entries@, i as int);
                }
                Some(&self.entries[i].value)
            },
            None => None,
        }
    }

    /// Take out what is stored under `key`, and give it back.
    pub fn remove<K: TrieKey>(&mut self, key: &K) -> (taken: Option<V>)
        ensures
            final(self)@ == old(self)@.remove(unpack(key.encoding())),
            taken == if old(self)@.dom().contains(unpack(key.encoding())) {
                Some(old(self)@[unpack(key.encoding())])
            } else {
                None
            },
    {
        proof {
            use_type_invariant(&*self);
        }
        let nv = key.encode();
        let mut entries = Vec::new();
        std::mem::swap(&mut entries, &mut self.entries);
        let ghost start = entries@;
        let taken = match find(&entries, &nv) {
            Some(i) => {
                proof {
                    lemma_slot(start, i as int);
                    lemma_remove(start, i as int);
                }
                let entry = entries.remove(i);
                Some(entry.value)
            },
            None => None,
        };
        self.entries = entries;
        taken
    }
}

} // verus!
