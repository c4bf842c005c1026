//! Integers as bytes in a stated order.
//!
//! A [`Tagged`] value pairs an integer with the order in which its bytes are
//! written out. The bytes themselves come from `endian_type`, which lays an
//! integer out in memory in the order asked for.

use crate::bytes::{
    be_bytes, fits_signed, fits_unsigned, le_bytes, lemma_be_bytes_injective,
    lemma_be_bytes_injective_signed, lemma_le_is_be_reversed, lemma_span_values,
};
use crate::keys::TrieKey;
use crate::sealed::Sealed;
use endian_type::{BigEndian, LittleEndian};
use vstd::prelude::*;

verus! {

/// `endian_type::BigEndian`, named in bounds only: no value of it is read
/// here.
#[verifier::external_type_specification]
#[verifier::external_body]
#[verifier::reject_recursive_types(T)]
pub struct ExBigEndian<T>(BigEndian<T>);

/// `endian_type::LittleEndian`, named in bounds only: no value of it is read
/// here.
#[verifier::external_type_specification]
#[verifier::external_body]
#[verifier::reject_recursive_types(T)]
pub struct ExLittleEndian<T>(LittleEndian<T>);

/// An integer type of two bytes or more, which can be laid out in either
/// byte order: `u16`, `u32`, `u64`, `usize`, `i16`, `i32`, `i64` and `isize`,
/// and no other.
pub trait Payload: Copy + Eq + Sealed {
    /// The integer that the value is.
    spec fn value(&self) -> int;

    /// The number of bytes that a value of the type takes.
    spec fn width() -> nat;

    /// Whether the type holds negative integers, in two's complement.
    spec fn signed() -> bool;

    /// A value is within what `width` bytes can hold.
    proof fn lemma_value_fits(&self)
        ensures
            Self::signed() ==> fits_signed(self.value(), Self::width()),
            !Self::signed() ==> fits_unsigned(self.value(), Self::width()),
    ;

    /// Different values are different integers.
    proof fn lemma_value_injective(&self, other: &Self)
        requires
            self.value() == other.value(),
        ensures
            self == other,
    ;
}

impl Payload for u16 {
    open spec fn value(&self) -> int {
        *self as int
    }

    open spec fn width() -> nat {
        2
    }

    open spec fn signed() -> bool {
        false
    }

    proof fn lemma_value_fits(&self) {
        lemma_span_values();
    }

    proof fn lemma_value_injective(&self, other: &Self) {
    }
}

impl Payload for u32 {
    open spec fn value(&self) -> int {
        *self as int
    }

    open spec fn width() -> nat {
        4
    }

    open spec fn signed() -> bool {
        false
    }

    proof fn lemma_value_fits(&self) {
        lemma_span_values();
    }

    proof fn lemma_value_injective(&self, other: &Self) {
    }
}

impl Payload for u64 {
    open spec fn value(&self) -> int {
        *self as int
    }

    open spec fn width() -> nat {
        8
    }

    open spec fn signed() -> bool {
        false
    }

    proof fn lemma_value_fits(&self) {
        lemma_span_values();
    }

    proof fn lemma_value_injective(&self, other: &Self) {
    }
}

impl Payload for usize {
    open spec fn value(&self) -> int {
        *self as int
    }

    open spec fn width() -> nat {
        (usize::BITS / 8) as nat
    }

    open spec fn signed() -> bool {
        false
    }

    proof fn lemma_value_fits(&self) {
        lemma_span_values();
    }

    proof fn lemma_value_injective(&self, other: &Self) {
    }
}

impl Payload for i16 {
    open spec fn value(&self) -> int {
        *self as int
    }

    open spec fn width() -> nat {
        2
    }

    open spec fn signed() -> bool {
        true
    }

    proof fn lemma_value_fits(&self) {
        lemma_span_values();
    }

    proof fn lemma_value_injective(&self, other: &Self) {
    }
}

impl Payload for i32 {
    open spec fn value(&self) -> int {
        *self as int
    }

    open spec fn width() -> nat {
        4
    }

    open spec fn signed() -> bool {
        true
    }

    proof fn lemma_value_fits(&self) {
        lemma_span_values();
    }

    proof fn lemma_value_injective(&self, other: &Self) {
    }
}

impl Payload for i64 {
    open spec fn value(&self) -> int {
        *self as int
    }

    open spec fn width() -> nat {
        8
    }

    open spec fn signed() -> bool {
        true
    }

    proof fn lemma_value_fits(&self) {
        lemma_span_values();
    }

    proof fn lemma_value_injective(&self, other: &Self) {
    }
}

impl Payload for isize {
    open spec fn value(&self) -> int {
        *self as int
    }

    open spec fn width() -> nat {
        (isize::BITS / 8) as nat
    }

    open spec fn signed() -> bool {
        true
    }

    proof fn lemma_value_fits(&self) {
        lemma_span_values();
    }

    proof fn lemma_value_injective(&self, other: &Self) {
    }
}

/// The order in which the bytes of an integer follow each other.
#[derive(Clone, Copy, Debug, PartialEq, Eq)]
pub enum ByteOrder {
    /// Least significant byte first.
    Little,
    /// Most significant byte first.
    Big,
}

/// An integer together with the byte order in which it is written out.
///
/// The order is taken as given. Two values with the same order encode alike
/// only if they are the same integer; one written least significant byte
/// first encodes as another written most significant byte first does, where
/// the bytes of one are those of the other read backwards.
#[derive(Debug, PartialEq, Eq)]
pub struct Tagged<T> {
    pub payload: T,
    pub order: ByteOrder,
}

impl<T: Copy> Clone for Tagged<T> {
    fn clone(&self) -> (copy: Self)
        ensures
            copy == *self,
    {
        *self
    }
}

impl<T: Copy> Copy for Tagged<T> {

}

/// `BigEndian::<T>::from` stores the integer with its most significant byte
/// at the lowest address, whatever the machine's own order, and
/// `BigEndian::<T>::as_bytes` reads the stored value byte by byte from the
/// lowest address up: as many bytes as `T` takes, in two's complement.
#[verifier::external_body]
fn big_endian_bytes<T: Payload>(x: T) -> (bytes: Vec<u8>) where BigEndian<T>: From<T>
    ensures
        bytes@ == be_bytes(x.value(), T::width()),
{
    BigEndian::<T>::from(x).as_bytes().to_vec()
}

/// `LittleEndian::<T>::from` stores the integer with its least significant
/// byte at the lowest address, whatever the machine's own order, and
/// `LittleEndian::<T>::as_bytes` reads the stored value byte by byte from the
/// lowest address up: as many bytes as `T` takes, in two's complement.
#[verifier::external_body]
fn little_endian_bytes<T: Payload>(x: T) -> (bytes: Vec<u8>) where LittleEndian<T>: From<T>
    ensures
        bytes@ == le_bytes(x.value(), T::width()),
{
    LittleEndian::<T>::from(x).as_bytes().to_vec()
}

/// The encoding of a tagged integer is its bytes in the order of the tag.
impl<T: Payload> TrieKey for Tagged<T> where BigEndian<T>: From<T>, LittleEndian<T>: From<T> {
    open spec fn encoding(&self) -> Seq<u8> {
        match self.order {
            ByteOrder::Big => be_bytes(self.payload.value(), T::width()),
            ByteOrder::Little => le_bytes(self.payload.value(), T::width()),
        }
    }

    fn encode_bytes(&self) -> (bytes: Vec<u8>) {
        match self.order {
            ByteOrder::Big => {
                assert(self.encoding() == be_bytes(self.payload.value(), T::width()));
                big_endian_bytes(self.payload)
            },
            ByteOrder::Little => {
                assert(self.encoding() == le_bytes(self.payload.value(), T::width()));
                little_endian_bytes(self.payload)
            },
        }
    }
}

/// Different tagged integers have different encodings, unless they differ in
/// their order and the bytes of one are the bytes of the other read
/// backwards.
pub proof fn lemma_tagged_key_injective<T: Payload>(a: Tagged<T>, b: Tagged<T>) where
    BigEndian<T>: From<T>,
    LittleEndian<T>: From<T>,

    requires
        a != b,
        a.order != b.order ==> be_bytes(a.payload.value(), T::width()) != be_bytes(
            b.payload.value(),
            T::width(),
        ).reverse(),
    ensures
        a.encoding() != b.encoding(),
{
    let width = T::width();
    let x = a.payload.value();
    let y = b.payload.value();
    lemma_le_is_be_reversed(x, width);
    lemma_le_is_be_reversed(y, width);
    assert(be_bytes(x, width) =~= be_bytes(x, width).reverse().reverse());
    assert(be_bytes(y, width) =~= be_bytes(y, width).reverse().reverse());
    if a.encoding() == b.encoding() && a.order == b.order {
        assert(be_bytes(x, width) == be_bytes(y, width));
        a.payload.lemma_value_fits();
        b.payload.lemma_value_fits();
        if T::signed() {
            lemma_be_bytes_injective_signed(x, y, width);
        } else {
            lemma_be_bytes_injective(x, y, width);
        }
        a.payload.lemma_value_injective(&b.payload);
    }
}

} // verus!
