//! Keys of a radix trie: how a key becomes bytes and nibbles, and how two
//! nibble sequences relate.

use crate::nibbles::{nibbles, unpack};
use nibble_vec::NibbleVec;
use vstd::prelude::*;
use vstd::std_specs::cmp::PartialEqSpec;

verus! {

/// A type whose values can key a radix trie.
///
/// An implementer turns each value into bytes, and no two different values
/// into the same bytes. A trie that finds two different keys under one
/// encoding stops at [`check_keys`].
pub trait TrieKey: PartialEq + Eq {
    /// The bytes that stand for the key: a function of the key's value alone.
    spec fn encoding(&self) -> Seq<u8>;

    /// Encode a value as a vector of bytes.
    fn encode_bytes(&self) -> (bytes: Vec<u8>)
        ensures
            bytes@ == self.encoding(),
    ;

    /// Encode a value as a `NibbleVec`: two nibbles for each byte of
    /// [`TrieKey::encode_bytes`].
    fn encode(&self) -> (nv: NibbleVec)
        ensures
            nibbles(nv) == unpack(self.encoding()),
    {
        NibbleVec::from_byte_vec(self.encode_bytes())
    }
}

/// Key comparison result.
#[derive(Debug)]
pub enum KeyMatch {
    /// The keys match up to the given index.
    Partial(usize),
    /// The first key is a prefix of the second.
    FirstPrefix,
    /// The second key is a prefix of the first.
    SecondPrefix,
    /// The keys match exactly.
    Full,
}

impl KeyMatch {
    /// Whether this result is the relation between `first` and `second`.
    pub open spec fn holds_of(self, first: Seq<u8>, second: Seq<u8>) -> bool {
        match self {
            KeyMatch::Partial(i) => {
                &&& i < first.len()
                &&& i < second.len()
                &&& first.take(i as int) == second.take(i as int)
                &&& first[i as int] != second[i as int]
            },
            KeyMatch::FirstPrefix => first.len() < second.len() && first.is_prefix_of(second),
            KeyMatch::SecondPrefix => second.len() < first.len() && second.is_prefix_of(first),
            KeyMatch::Full => first == second,
        }
    }
}

/// Two sequences stand in one relation only.
pub proof fn lemma_key_match_unique(first: Seq<u8>, second: Seq<u8>, m1: KeyMatch, m2: KeyMatch)
    requires
        m1.holds_of(first, second),
        m2.holds_of(first, second),
    ensures
        m1 == m2,
{
    if let (KeyMatch::Partial(i), KeyMatch::Partial(j)) = (m1, m2) {
        // The sequences agree before the greater index, and so at the lesser.
        if i < j {
            assert(first[i as int] == first.take(j as int)[i as int]);
            assert(second[i as int] == second.take(j as int)[i as int]);
        } else if j < i {
            assert(first[j as int] == first.take(i as int)[j as int]);
            assert(second[j as int] == second.take(i as int)[j as int]);
        }
    }
}

/// A key with no nibbles left agrees with every key as far as it goes: it is
/// a prefix of each key that has a nibble, and equal to the one that has none.
pub proof fn lemma_exhausted_key_matches(first: Seq<u8>, second: Seq<u8>, m: KeyMatch)
    requires
        m.holds_of(first.skip(first.len() as int), second),
    ensures
        m == if second.len() == 0 {
            KeyMatch::Full
        } else {
            KeyMatch::FirstPrefix
        },
{
}

/// The key that encodes to no bytes has no nibbles, and is a prefix of every
/// key that has one.
pub proof fn lemma_empty_key_matches(key: Seq<u8>, second: Seq<u8>, m: KeyMatch)
    requires
        key.len() == 0,
        m.holds_of(unpack(key), second),
    ensures
        unpack(key).len() == 0,
        m == if second.len() == 0 {
            KeyMatch::Full
        } else {
            KeyMatch::FirstPrefix
        },
{
}

/// Compare two trie keys: the nibbles of `first` from `start_idx` on, and all
/// of `second`.
///
/// The nibbles are walked from the front. The first position at which they
/// differ, counted from `start_idx`, is reported as `Partial`. Where one side
/// ends before any difference, the lengths decide.
pub fn match_keys(start_idx: usize, first: &NibbleVec, second: &NibbleVec) -> (m: KeyMatch)
    requires
        start_idx <= nibbles(*first).len(),
    ensures
        m.holds_of(nibbles(*first).skip(start_idx as int), nibbles(*second)),
{
    let first_len = first.len() - start_idx;
    let second_len = second.len();
    let min_length = if first_len < second_len {
        first_len
    } else {
        second_len
    };
    let ghost rest = nibbles(*first).skip(start_idx as int);
    let ghost other = nibbles(*second);

    let mut i: usize = 0;
    while i < min_length
        invariant
            start_idx + first_len == nibbles(*first).len() <= usize::MAX,
            second_len == other.len(),
            min_length <= first_len,
            min_length <= second_len,
            i <= min_length,
            rest == nibbles(*first).skip(start_idx as int),
            other == nibbles(*second),
            forall|j: int| 0 <= j < i ==> rest[j] == other[j],
        decreases min_length - i,
    {
        if first.get(start_idx + i) != second.get(i) {
            assert(rest.take(i as int) =~= other.take(i as int));
            return KeyMatch::Partial(i);
        }
        i += 1;
    }

    if first_len < second_len {
        KeyMatch::FirstPrefix
    } else if first_len == second_len {
        assert(rest =~= other);
        KeyMatch::Full
    } else {
        KeyMatch::SecondPrefix
    }
}

/// Check two keys for equality.
///
/// A trie calls this where two keys have led to the same place, that is where
/// their encodings are equal. Keys that differ there show an encoding that
/// maps two values to the same bytes: no caller that Verus has seen gets that
/// far, and any other is stopped here.
pub fn check_keys<K>(key1: &K, key2: &K) where K: TrieKey
    requires
        K::obeys_eq_spec(),
        key1.eq_spec(key2),
{
    if *key1 != *key2 {
        vstd::pervasive::unreached()
    }
}

} // verus!
