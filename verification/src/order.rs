//! The order of byte sequences, and how integers keep their order when they
//! are written most significant byte first.

use crate::bytes::{be_bytes, fits_unsigned, lemma_be_bytes_len, low_byte};
use crate::nibbles::unpack;
use vstd::prelude::*;

verus! {

/// Whether `a` and `b` agree before position `at`, and `a` is the lesser
/// there: it ends at `at` where `b` goes on, or holds the lesser byte.
pub open spec fn lesser_at(a: Seq<u8>, b: Seq<u8>, at: int) -> bool {
    &&& 0 <= at <= a.len()
    &&& at < b.len()
    &&& a.take(at) == b.take(at)
    &&& at < a.len() ==> a[at] < b[at]
}

/// Whether `a` comes before `b` in lexicographic order.
pub open spec fn lex_less(a: Seq<u8>, b: Seq<u8>) -> bool {
    exists|at: int| lesser_at(a, b, at)
}

/// Of two unsigned integers of `width` bytes, the lesser has the lesser
/// bytes, most significant byte first.
pub proof fn lemma_be_bytes_ordered(a: int, b: int, width: nat)
    requires
        fits_unsigned(a, width),
        fits_unsigned(b, width),
        a < b,
    ensures
        lex_less(be_bytes(a, width), be_bytes(b, width)),
    decreases width,
{
    if width > 0 {
        let rest = (width - 1) as nat;
        let head_a = be_bytes(a / 256, rest);
        let head_b = be_bytes(b / 256, rest);
        let full_a = be_bytes(a, width);
        let full_b = be_bytes(b, width);
        lemma_be_bytes_len(a / 256, rest);
        lemma_be_bytes_len(b / 256, rest);
        if a / 256 < b / 256 {
            lemma_be_bytes_ordered(a / 256, b / 256, rest);
            let at = choose|at: int| lesser_at(head_a, head_b, at);
            assert(full_a.take(at) =~= head_a.take(at));
            assert(full_b.take(at) =~= head_b.take(at));
            assert(lesser_at(full_a, full_b, at));
        } else {
            assert(a / 256 == b / 256);
            assert(low_byte(a) < low_byte(b));
            assert(full_a.take(rest as int) =~= head_a);
            assert(full_b.take(rest as int) =~= head_b);
            assert(lesser_at(full_a, full_b, rest as int));
        }
    }
}

/// Byte sequences in order have their nibbles in the same order: what a trie
/// tells apart nibble by nibble, it tells apart as the bytes compare.
pub proof fn lemma_unpack_keeps_order(a: Seq<u8>, b: Seq<u8>)
    requires
        lex_less(a, b),
    ensures
        lex_less(unpack(a), unpack(b)),
{
    let at = choose|at: int| lesser_at(a, b, at);
    let na = unpack(a);
    let nb = unpack(b);
    assert forall|j: int| 0 <= j < 2 * at implies na[j] == nb[j] by {
        assert(a.take(at)[j / 2] == b.take(at)[j / 2]);
    }
    if at < a.len() && a[at] / 16 == b[at] / 16 {
        assert(na[2 * at] == nb[2 * at]);
        assert(na.take(2 * at + 1) =~= nb.take(2 * at + 1));
        assert(na[2 * at + 1] == a[at] % 16);
        assert(nb[2 * at + 1] == b[at] % 16);
        assert(lesser_at(na, nb, 2 * at + 1));
    } else {
        assert(na.take(2 * at) =~= nb.take(2 * at));
        if at < a.len() {
            assert(na[2 * at] == a[at] / 16);
            assert(nb[2 * at] == b[at] / 16);
        }
        assert(lesser_at(na, nb, 2 * at));
    }
}

} // verus!
