use vstd::prelude::*;

use crate::hal_core::mm::{self, spec_align_down, spec_align_up};

verus! {

/// The size of a page of the Sv39 page tables.
pub const PAGE_SIZE: usize = 4096;

/// The page boundary one page above `align_up(addr)`.
pub fn align_down(addr: usize) -> (r: usize)
    requires
        addr + PAGE_SIZE - 1 <= usize::MAX,
        spec_align_up(addr as int, PAGE_SIZE as int) + PAGE_SIZE <= usize::MAX,
    ensures
        r == spec_align_down(addr as int, PAGE_SIZE as int),
{
    mm::align_down(addr, PAGE_SIZE)
}

/// `addr` rounded up to the next page boundary.
pub fn align_up(addr: usize) -> (r: usize)
    requires
        addr + PAGE_SIZE - 1 <= usize::MAX,
    ensures
        r == spec_align_up(addr as int, PAGE_SIZE as int),
{
    mm::align_up(addr, PAGE_SIZE)
}

} // verus!
