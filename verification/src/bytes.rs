//! Integers written out as bytes, and what the bytes tell of the integer.

use vstd::prelude::*;

verus! {

/// The lowest byte of `value` in two's complement.
pub open spec fn low_byte(value: int) -> u8 {
    (value % 256) as u8
}

/// The lowest `width` bytes of `value` in two's complement, the most
/// significant first.
pub open spec fn be_bytes(value: int, width: nat) -> Seq<u8>
    decreases width,
{
    if width == 0 {
        Seq::empty()
    } else {
        be_bytes(value / 256, (width - 1) as nat).push(low_byte(value))
    }
}

/// The lowest `width` bytes of `value` in two's complement, the least
/// significant first.
pub open spec fn le_bytes(value: int, width: nat) -> Seq<u8>
    decreases width,
{
    if width == 0 {
        Seq::empty()
    } else {
        seq![low_byte(value)] + le_bytes(value / 256, (width - 1) as nat)
    }
}

/// The number of values that `width` bytes can tell apart: 256 to the power
/// `width`.
pub open spec fn span(width: nat) -> int
    decreases width,
{
    if width == 0 {
        1
    } else {
        256 * span((width - 1) as nat)
    }
}

/// Whether `value` is an unsigned integer of `width` bytes.
pub open spec fn fits_unsigned(value: int, width: nat) -> bool {
    0 <= value < span(width)
}

/// Whether `value` is a signed integer of `width` bytes.
pub open spec fn fits_signed(value: int, width: nat) -> bool {
    -span(width) <= 2 * value < span(width)
}

/// The spans of the widths that integer types have.
pub proof fn lemma_span_values()
    ensures
        span(1) == 0x100,
        span(2) == 0x1_0000,
        span(4) == 0x1_0000_0000,
        span(8) == 0x1_0000_0000_0000_0000,
{
    assert(span(0) == 1);
    assert(span(1) == 0x100);
    assert(span(2) == 0x1_0000);
    assert(span(3) == 0x100_0000);
    assert(span(4) == 0x1_0000_0000);
    assert(span(5) == 0x100_0000_0000);
    assert(span(6) == 0x1_0000_0000_0000);
    assert(span(7) == 0x100_0000_0000_0000);
}

/// An integer written in `width` bytes takes `width` bytes.
pub proof fn lemma_be_bytes_len(value: int, width: nat)
    ensures
        be_bytes(value, width).len() == width,
    decreases width,
{
    if width > 0 {
        lemma_be_bytes_len(value / 256, (width - 1) as nat);
    }
}

/// The bytes in one order are the bytes in the other order, read backwards.
pub proof fn lemma_le_is_be_reversed(value: int, width: nat)
    ensures
        le_bytes(value, width) == be_bytes(value, width).reverse(),
    decreases width,
{
    if width > 0 {
        let rest = (width - 1) as nat;
        lemma_le_is_be_reversed(value / 256, rest);
        lemma_be_bytes_len(value / 256, rest);
    }
    assert(le_bytes(value, width) =~= be_bytes(value, width).reverse());
}

/// Unsigned integers of `width` bytes with the same bytes are the same
/// integer.
pub proof fn lemma_be_bytes_injective(a: int, b: int, width: nat)
    requires
        fits_unsigned(a, width),
        fits_unsigned(b, width),
        be_bytes(a, width) == be_bytes(b, width),
    ensures
        a == b,
    decreases width,
{
    if width > 0 {
        let rest = (width - 1) as nat;
        lemma_be_bytes_len(a / 256, rest);
        lemma_be_bytes_len(b / 256, rest);
        assert(be_bytes(a, width).last() == low_byte(a));
        assert(be_bytes(b, width).last() == low_byte(b));
        assert(be_bytes(a / 256, rest) =~= be_bytes(a, width).drop_last());
        assert(be_bytes(b / 256, rest) =~= be_bytes(b, width).drop_last());
        lemma_be_bytes_injective(a / 256, b / 256, rest);
    }
}

/// Adding 256 to the power `width` leaves the lowest `width` bytes as they
/// were.
pub proof fn lemma_be_bytes_periodic(value: int, width: nat)
    ensures
        be_bytes(value + span(width), width) == be_bytes(value, width),
    decreases width,
{
    if width > 0 {
        let rest = (width - 1) as nat;
        let s = span(rest);
        assert((value + 256 * s) / 256 == value / 256 + s);
        assert((value + 256 * s) % 256 == value % 256);
        lemma_be_bytes_periodic(value / 256, rest);
    }
}

/// The unsigned integer with the same bytes as the signed integer `value`.
pub open spec fn bit_pattern(value: int, width: nat) -> int {
    if value < 0 {
        value + span(width)
    } else {
        value
    }
}

/// Signed integers of `width` bytes with the same bytes are the same
/// integer.
pub proof fn lemma_be_bytes_injective_signed(a: int, b: int, width: nat)
    requires
        fits_signed(a, width),
        fits_signed(b, width),
        be_bytes(a, width) == be_bytes(b, width),
    ensures
        a == b,
{
    if a < 0 {
        lemma_be_bytes_periodic(a, width);
    }
    if b < 0 {
        lemma_be_bytes_periodic(b, width);
    }
    lemma_be_bytes_injective(bit_pattern(a, width), bit_pattern(b, width), width);
}

} // verus!
