//! Reading an unsigned count as a signed one.

use vstd::prelude::*;

verus! {

/// The number that the bits of `n` stand for in two's complement.
pub open spec fn as_signed(n: usize) -> int {
    if n <= isize::MAX {
        n as int
    } else {
        n - usize::MAX - 1
    }
}

/// A cast to `isize` keeps the bits.
pub proof fn lemma_signed_cast(n: usize)
    ensures
        n as isize == as_signed(n),
{
    if usize::BITS == 64 {
        assert(n as isize == if n <= 0x7fff_ffff_ffff_ffff {
            n as int
        } else {
            n - 0xffff_ffff_ffff_ffff - 1
        }) by (bit_vector)
            requires
                usize::BITS == 64,
        ;
    } else {
        assert(n as isize == if n <= 0x7fff_ffff {
            n as int
        } else {
            n - 0xffff_ffff - 1
        }) by (bit_vector)
            requires
                usize::BITS == 32,
        ;
    }
}

} // verus!
