//! Kernel-wide constants.

use vstd::prelude::*;

verus! {

/// Bytes in a page.
pub const PAGE_SIZE: usize = 0x1000;

/// The bytes in a machine word.
pub open spec fn word_size() -> nat {
    vstd::layout::size_of::<usize>()
}

} // verus!
