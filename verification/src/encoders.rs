//! The encoders of the standard key types: byte sequences, text and
//! integers.

use crate::bytes::{
    be_bytes, lemma_be_bytes_injective, lemma_be_bytes_injective_signed, lemma_span_values,
    low_byte,
};
use crate::endian::{ByteOrder, Tagged};
use crate::keys::TrieKey;
use crate::order::{lemma_be_bytes_ordered, lesser_at, lex_less};
use vstd::prelude::*;
use vstd::slice::slice_to_vec;
use vstd::utf8::{encode_utf8, encode_utf8_decode_utf8};

verus! {

/// A byte vector is its own encoding.
impl TrieKey for Vec<u8> {
    open spec fn encoding(&self) -> Seq<u8> {
        self@
    }

    fn encode_bytes(&self) -> (bytes: Vec<u8>) {
        self.clone()
    }
}

/// A byte slice is its own encoding.
impl<'a> TrieKey for &'a [u8] {
    open spec fn encoding(&self) -> Seq<u8> {
        self@
    }

    fn encode_bytes(&self) -> (bytes: Vec<u8>) {
        slice_to_vec(*self)
    }
}

/// Text is encoded as its UTF-8 bytes.
impl TrieKey for String {
    open spec fn encoding(&self) -> Seq<u8> {
        encode_utf8(self@)
    }

    fn encode_bytes(&self) -> (bytes: Vec<u8>) {
        self.as_str().as_bytes().encode_bytes()
    }
}

/// Text is encoded as its UTF-8 bytes.
impl<'a> TrieKey for &'a str {
    open spec fn encoding(&self) -> Seq<u8> {
        encode_utf8(self@)
    }

    fn encode_bytes(&self) -> (bytes: Vec<u8>) {
        self.as_bytes().encode_bytes()
    }
}

/// A signed byte is encoded as the byte with the same bits. The encodings of
/// negative values therefore come after those of all others.
impl TrieKey for i8 {
    open spec fn encoding(&self) -> Seq<u8> {
        seq![low_byte(*self as int)]
    }

    fn encode_bytes(&self) -> (bytes: Vec<u8>) {
        let x = *self;
        let byte = #[verifier::truncate] (x as u8);
        assert(byte == if x < 0 { x + 256 } else { x as int }) by (bit_vector)
            requires
                byte == x as u8,
        ;
        let mut v: Vec<u8> = Vec::with_capacity(1);
        v.push(byte);
        v
    }
}

/// A byte is its own encoding.
impl TrieKey for u8 {
    open spec fn encoding(&self) -> Seq<u8> {
        seq![*self]
    }

    fn encode_bytes(&self) -> (bytes: Vec<u8>) {
        let mut v: Vec<u8> = Vec::with_capacity(1);
        v.push(*self);
        v
    }
}

/// A `u16` is encoded most significant byte first.
impl TrieKey for u16 {
    open spec fn encoding(&self) -> Seq<u8> {
        be_bytes(*self as int, 2)
    }

    fn encode_bytes(&self) -> (bytes: Vec<u8>) {
        let be = Tagged { payload: *self, order: ByteOrder::Big };
        be.encode_bytes()
    }
}

/// A `u32` is encoded most significant byte first.
impl TrieKey for u32 {
    open spec fn encoding(&self) -> Seq<u8> {
        be_bytes(*self as int, 4)
    }

    fn encode_bytes(&self) -> (bytes: Vec<u8>) {
        let be = Tagged { payload: *self, order: ByteOrder::Big };
        be.encode_bytes()
    }
}

/// A `u64` is encoded most significant byte first.
impl TrieKey for u64 {
    open spec fn encoding(&self) -> Seq<u8> {
        be_bytes(*self as int, 8)
    }

    fn encode_bytes(&self) -> (bytes: Vec<u8>) {
        let be = Tagged { payload: *self, order: ByteOrder::Big };
        be.encode_bytes()
    }
}

/// A `usize` is encoded most significant byte first.
impl TrieKey for usize {
    open spec fn encoding(&self) -> Seq<u8> {
        be_bytes(*self as int, (usize::BITS / 8) as nat)
    }

    fn encode_bytes(&self) -> (bytes: Vec<u8>) {
        let be = Tagged { payload: *self, order: ByteOrder::Big };
        be.encode_bytes()
    }
}

/// An `i16` is encoded most significant byte first.
impl TrieKey for i16 {
    open spec fn encoding(&self) -> Seq<u8> {
        be_bytes(*self as int, 2)
    }

    fn encode_bytes(&self) -> (bytes: Vec<u8>) {
        let be = Tagged { payload: *self, order: ByteOrder::Big };
        be.encode_bytes()
    }
}

/// An `i32` is encoded most significant byte first.
impl TrieKey for i32 {
    open spec fn encoding(&self) -> Seq<u8> {
        be_bytes(*self as int, 4)
    }

    fn encode_bytes(&self) -> (bytes: Vec<u8>) {
        let be = Tagged { payload: *self, order: ByteOrder::Big };
        be.encode_bytes()
    }
}

/// An `i64` is encoded most significant byte first.
impl TrieKey for i64 {
    open spec fn encoding(&self) -> Seq<u8> {
        be_bytes(*self as int, 8)
    }

    fn encode_bytes(&self) -> (bytes: Vec<u8>) {
        let be = Tagged { payload: *self, order: ByteOrder::Big };
        be.encode_bytes()
    }
}

/// An `isize` is encoded most significant byte first.
impl TrieKey for isize {
    open spec fn encoding(&self) -> Seq<u8> {
        be_bytes(*self as int, (isize::BITS / 8) as nat)
    }

    fn encode_bytes(&self) -> (bytes: Vec<u8>) {
        let be = Tagged { payload: *self, order: ByteOrder::Big };
        be.encode_bytes()
    }
}

/// Different byte vectors have different encodings.
pub proof fn lemma_byte_vec_key_injective(a: Vec<u8>, b: Vec<u8>)
    requires
        a@ != b@,
    ensures
        a.encoding() != b.encoding(),
{
}

/// Different byte slices have different encodings.
pub proof fn lemma_byte_slice_key_injective(a: &[u8], b: &[u8])
    requires
        a@ != b@,
    ensures
        a.encoding() != b.encoding(),
{
}

/// Different strings have different encodings.
pub proof fn lemma_string_key_injective(a: String, b: String)
    requires
        a@ != b@,
    ensures
        a.encoding() != b.encoding(),
{
    encode_utf8_decode_utf8(a@);
    encode_utf8_decode_utf8(b@);
}

/// Different string slices have different encodings.
pub proof fn lemma_str_key_injective(a: &str, b: &str)
    requires
        a@ != b@,
    ensures
        a.encoding() != b.encoding(),
{
    encode_utf8_decode_utf8(a@);
    encode_utf8_decode_utf8(b@);
}

/// Different signed bytes have different encodings.
pub proof fn lemma_i8_key_injective(a: i8, b: i8)
    requires
        a != b,
    ensures
        a.encoding() != b.encoding(),
{
    assert(a.encoding()[0] == low_byte(a as int));
    assert(b.encoding()[0] == low_byte(b as int));
}

/// Different bytes have different encodings.
pub proof fn lemma_u8_key_injective(a: u8, b: u8)
    requires
        a != b,
    ensures
        a.encoding() != b.encoding(),
{
    assert(a.encoding()[0] == a);
    assert(b.encoding()[0] == b);
}

/// Different `u16` values have different encodings.
pub proof fn lemma_u16_key_injective(a: u16, b: u16)
    requires
        a != b,
    ensures
        a.encoding() != b.encoding(),
{
    lemma_span_values();
    if a.encoding() == b.encoding() {
        lemma_be_bytes_injective(a as int, b as int, 2);
    }
}

/// Different `u32` values have different encodings.
pub proof fn lemma_u32_key_injective(a: u32, b: u32)
    requires
        a != b,
    ensures
        a.encoding() != b.encoding(),
{
    lemma_span_values();
    if a.encoding() == b.encoding() {
        lemma_be_bytes_injective(a as int, b as int, 4);
    }
}

/// Different `u64` values have different encodings.
pub proof fn lemma_u64_key_injective(a: u64, b: u64)
    requires
        a != b,
    ensures
        a.encoding() != b.encoding(),
{
    lemma_span_values();
    if a.encoding() == b.encoding() {
        lemma_be_bytes_injective(a as int, b as int, 8);
    }
}

/// Different `usize` values have different encodings.
pub proof fn lemma_usize_key_injective(a: usize, b: usize)
    requires
        a != b,
    ensures
        a.encoding() != b.encoding(),
{
    lemma_span_values();
    if a.encoding() == b.encoding() {
        lemma_be_bytes_injective(a as int, b as int, (usize::BITS / 8) as nat);
    }
}

/// Different `i16` values have different encodings.
pub proof fn lemma_i16_key_injective(a: i16, b: i16)
    requires
        a != b,
    ensures
        a.encoding() != b.encoding(),
{
    lemma_span_values();
    if a.encoding() == b.encoding() {
        lemma_be_bytes_injective_signed(a as int, b as int, 2);
    }
}

/// Different `i32` values have different encodings.
pub proof fn lemma_i32_key_injective(a: i32, b: i32)
    requires
        a != b,
    ensures
        a.encoding() != b.encoding(),
{
    lemma_span_values();
    if a.encoding() == b.encoding() {
        lemma_be_bytes_injective_signed(a as int, b as int, 4);
    }
}

/// Different `i64` values have different encodings.
pub proof fn lemma_i64_key_injective(a: i64, b: i64)
    requires
        a != b,
    ensures
        a.encoding() != b.encoding(),
{
    lemma_span_values();
    if a.encoding() == b.encoding() {
        lemma_be_bytes_injective_signed(a as int, b as int, 8);
    }
}

/// Different `isize` values have different encodings.
pub proof fn lemma_isize_key_injective(a: isize, b: isize)
    requires
        a != b,
    ensures
        a.encoding() != b.encoding(),
{
    lemma_span_values();
    if a.encoding() == b.encoding() {
        lemma_be_bytes_injective_signed(a as int, b as int, (isize::BITS / 8) as nat);
    }
}

/// Of two bytes, the lesser has the lesser encoding.
pub proof fn lemma_u8_key_ordered(a: u8, b: u8)
    requires
        a < b,
    ensures
        lex_less(a.encoding(), b.encoding()),
{
    assert(a.encoding().take(0) =~= b.encoding().take(0));
    assert(lesser_at(a.encoding(), b.encoding(), 0));
}

/// Of two `u16` values, the lesser has the lesser encoding.
pub proof fn lemma_u16_key_ordered(a: u16, b: u16)
    requires
        a < b,
    ensures
        lex_less(a.encoding(), b.encoding()),
{
    lemma_span_values();
    lemma_be_bytes_ordered(a as int, b as int, 2);
}

/// Of two `u32` values, the lesser has the lesser encoding.
pub proof fn lemma_u32_key_ordered(a: u32, b: u32)
    requires
        a < b,
    ensures
        lex_less(a.encoding(), b.encoding()),
{
    lemma_span_values();
    lemma_be_bytes_ordered(a as int, b as int, 4);
}

/// Of two `u64` values, the lesser has the lesser encoding.
pub proof fn lemma_u64_key_ordered(a: u64, b: u64)
    requires
        a < b,
    ensures
        lex_less(a.encoding(), b.encoding()),
{
    lemma_span_values();
    lemma_be_bytes_ordered(a as int, b as int, 8);
}

/// Of two `usize` values, the lesser has the lesser encoding.
pub proof fn lemma_usize_key_ordered(a: usize, b: usize)
    requires
        a < b,
    ensures
        lex_less(a.encoding(), b.encoding()),
{
    lemma_span_values();
    lemma_be_bytes_ordered(a as int, b as int, (usize::BITS / 8) as nat);
}

} // verus!
