//! The nibble sequence that keys are compared in, as `nibble_vec` stores it.

use nibble_vec::NibbleVec;
use vstd::prelude::*;

verus! {

/// `nibble_vec::NibbleVec`: a sequence of nibbles, packed two to a byte.
#[verifier::external_type_specification]
#[verifier::external_body]
pub struct ExNibbleVec(NibbleVec);

/// The nibbles that a `NibbleVec` holds, first to last.
pub uninterp spec fn nibbles(v: NibbleVec) -> Seq<u8>;

/// Two nibbles for each byte: its upper half, then its lower half.
pub open spec fn unpack(bytes: Seq<u8>) -> Seq<u8> {
    Seq::new(
        2 * bytes.len(),
        |i: int|
            if i % 2 == 0 {
                bytes[i / 2] / 16
            } else {
                bytes[i / 2] % 16
            },
    )
}

/// `NibbleVec::from_byte_vec` keeps the bytes and counts two nibbles for each,
/// the most significant half first.
pub assume_specification[ NibbleVec::from_byte_vec ](vec: Vec<u8>) -> (nv: NibbleVec)
    ensures
        nibbles(nv) == unpack(vec@),
;

/// `NibbleVec::len` is the number of nibbles held.
pub assume_specification[ NibbleVec::len ](nv: &NibbleVec) -> (n: usize)
    ensures
        n == nibbles(*nv).len(),
;

/// `NibbleVec::get` reads the nibble at `idx`, a value below 16; it panics
/// at and beyond the length.
pub assume_specification[ NibbleVec::get ](nv: &NibbleVec, idx: usize) -> (nibble: u8)
    requires
        idx < nibbles(*nv).len(),
    ensures
        nibble == nibbles(*nv)[idx as int],
        nibble <= 15,
;

/// Byte sequences with the same nibbles are the same bytes.
pub proof fn lemma_unpack_injective(a: Seq<u8>, b: Seq<u8>)
    requires
        unpack(a) == unpack(b),
    ensures
        a == b,
{
    assert(unpack(a).len() == 2 * a.len());
    assert(unpack(b).len() == 2 * b.len());
    assert forall|i: int| 0 <= i < a.len() implies a[i] == b[i] by {
        assert(unpack(a)[2 * i] == a[i] / 16);
        assert(unpack(a)[2 * i + 1] == a[i] % 16);
        assert(unpack(b)[2 * i] == b[i] / 16);
        assert(unpack(b)[2 * i + 1] == b[i] % 16);
    }
    assert(a =~= b);
}

} // verus!
