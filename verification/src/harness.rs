//! A workload for a keyed store: the words of a text, inserted, looked up and
//! removed again.

use crate::nibbles::unpack;
use crate::table::KeyTable;
use vstd::prelude::*;
use vstd::utf8::encode_utf8;

verus! {

/// Whether `c` is whitespace, as `char::is_whitespace` tells.
pub uninterp spec fn is_whitespace(c: char) -> bool;

/// `char::is_whitespace` tells of a character whether it has the Unicode
/// property `White_Space`: a fixed set of characters.
pub assume_specification[ char::is_whitespace ](c: char) -> (b: bool)
    ensures
        b == is_whitespace(c),
;

/// `String::push` appends one character to the end of the string.
pub assume_specification[ String::push ](s: &mut String, c: char)
    ensures
        final(s)@ == old(s)@.push(c),
;

/// The words of a text: the stretches, empty ones too, that lie before,
/// between and behind its whitespace characters.
pub open spec fn words_of(text: Seq<char>) -> Seq<Seq<char>>
    decreases text.len(),
{
    if text.len() == 0 {
        seq![Seq::empty()]
    } else {
        let before = words_of(text.drop_last());
        if is_whitespace(text.last()) {
            before.push(Seq::empty())
        } else {
            before.update(before.len() - 1, before.last().push(text.last()))
        }
    }
}

/// The characters of each string.
pub open spec fn texts(words: Seq<String>) -> Seq<Seq<char>> {
    Seq::new(words.len(), |i: int| words[i]@)
}

/// Split a text into its words, at each whitespace character.
pub fn split_text(text: &str) -> (words: Vec<String>)
    ensures
        texts(words@) == words_of(text@),
{
    let mut words: Vec<String> = Vec::new();
    let mut word = String::new();
    for c in it: text.chars()
        invariant
            it.seq() == text@,
            texts(words@).push(word@) == words_of(text@.take(it.index() as int)),
    {
        let ghost before = texts(words@).push(word@);
        assert(text@.take(it.index() + 1).drop_last() =~= text@.take(it.index() as int));
        if c.is_whitespace() {
            words.push(word);
            word = String::new();
        } else {
            word.push(c);
            assert(texts(words@).push(word@) =~= before.update(
                before.len() - 1,
                before.last().push(c),
            ));
        }
    }
    assert(text@.take(text@.len() as int) =~= text@);
    words.push(word);
    words
}

/// The key of a word: the nibbles of its UTF-8 bytes.
pub open spec fn word_key(word: Seq<char>) -> Seq<u8> {
    unpack(encode_utf8(word))
}

/// The length of a word in bytes of UTF-8.
pub open spec fn byte_len(word: Seq<char>) -> usize {
    encode_utf8(word).len() as usize
}

/// Whether `key` is the key of one of the first `count` words.
pub open spec fn among(words: Seq<String>, count: int, key: Seq<u8>) -> bool {
    exists|i: int| 0 <= i < count && word_key(#[trigger] words[i]@) == key
}

/// What a store holds once the first `to` words were stored and the first
/// `from` of them taken out again: under the key of each word that is left,
/// its length in bytes. A key has two nibbles for each byte.
pub open spec fn word_table(words: Seq<String>, from: int, to: int) -> Map<Seq<u8>, usize> {
    Map::new(
        |key: Seq<u8>| among(words, to, key) && !among(words, from, key),
        |key: Seq<u8>| (key.len() / 2) as usize,
    )
}

/// One word more brings one key more: its own.
proof fn lemma_among_next(words: Seq<String>, count: int, key: Seq<u8>)
    requires
        0 <= count < words.len(),
    ensures
        among(words, count + 1, key) <==> among(words, count, key) || key == word_key(
            words[count]@,
        ),
{
    if among(words, count + 1, key) {
        let i = choose|i: int| 0 <= i < count + 1 && word_key(#[trigger] words[i]@) == key;
        assert(i < count ==> among(words, count, key));
    }
    if among(words, count, key) {
        let i = choose|i: int| 0 <= i < count && word_key(#[trigger] words[i]@) == key;
        assert(0 <= i < count + 1);
    }
}

/// Build a store of the words, each under its own key with its length in
/// bytes.
pub fn make_trie(words: &[String]) -> (trie: KeyTable<usize>)
    ensures
        trie@ == word_table(words@, 0, words@.len() as int),
{
    let mut trie = KeyTable::new();
    for i in 0..words.len()
        invariant
            trie@ == word_table(words@, 0, i as int),
    {
        let w: &str = words[i].as_str();
        trie.insert(&w, w.len());
        assert(trie@ =~= word_table(words@, 0, i + 1)) by {
            assert forall|key: Seq<u8>|
                among(words@, i + 1, key) <==> among(words@, i as int, key) || key == word_key(
                    w@,
                ) by {
                lemma_among_next(words@, i as int, key);
            }
        }
    }
    trie
}

/// Insert every word: the store that [`make_trie`] builds.
pub fn trie_insert(words: &[String]) -> (trie: KeyTable<usize>)
    ensures
        trie@ == word_table(words@, 0, words@.len() as int),
{
    make_trie(words)
}

/// Insert every word, then look every word up again: each is found, with
/// its length in bytes.
pub fn trie_get(words: &[String]) -> (found: Vec<Option<usize>>)
    ensures
        found@.len() == words@.len(),
        forall|i: int| 0 <= i < words@.len() ==> #[trigger] found@[i] == Some(byte_len(words@[i]@)),
{
    let trie = make_trie(words);
    let mut found: Vec<Option<usize>> = Vec::new();
    for i in 0..words.len()
        invariant
            trie@ == word_table(words@, 0, words@.len() as int),
            found@.len() == i,
            forall|j: int| 0 <= j < i ==> #[trigger] found@[j] == Some(byte_len(words@[j]@)),
    {
        let w: &str = words[i].as_str();
        let value = match trie.get(&w) {
            Some(v) => Some(*v),
            None => None,
        };
        found.push(value);
    }
    found
}

/// Insert every word, then remove every word again, in the same order.
///
/// A word is taken out, with its length in bytes, where it stands for the
/// first time; where it has stood before, nothing is left to take. In the
/// end the store is empty.
pub fn trie_insert_remove(words: &[String]) -> (end: (KeyTable<usize>, Vec<Option<usize>>))
    ensures
        end.0@ == Map::<Seq<u8>, usize>::empty(),
        end.1@.len() == words@.len(),
        forall|i: int|
            0 <= i < words@.len() ==> #[trigger] end.1@[i] == if among(
                words@,
                i,
                word_key(words@[i]@),
            ) {
                None
            } else {
                Some(byte_len(words@[i]@))
            },
{
    let mut trie = make_trie(words);
    let mut taken: Vec<Option<usize>> = Vec::new();
    let ghost count = words@.len() as int;
    for i in 0..words.len()
        invariant
            count == words@.len(),
            trie@ == word_table(words@, i as int, count),
            taken@.len() == i,
            forall|j: int|
                0 <= j < i ==> #[trigger] taken@[j] == if among(words@, j, word_key(words@[j]@)) {
                    None
                } else {
                    Some(byte_len(words@[j]@))
                },
    {
        let w: &str = words[i].as_str();
        let value = trie.remove(&w);
        assert(trie@ =~= word_table(words@, i + 1, count)) by {
            assert forall|key: Seq<u8>|
                among(words@, i + 1, key) <==> among(words@, i as int, key) || key == word_key(
                    w@,
                ) by {
                lemma_among_next(words@, i as int, key);
            }
        }
        taken.push(value);
    }
    (trie, taken)
}

} // verus!
