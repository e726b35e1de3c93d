//! Address helpers of the kernel image, over plain integers.
use vstd::prelude::*;

use crate::memory::{self, PhysicalAddress};

verus! {

/// Converts a virtual address to a pseudo-physical one, the image being
/// mapped from `text_start` on.
pub fn to_phys(address: usize, text_start: usize) -> (r: usize)
    requires
        text_start <= address,
    ensures
        r == address - text_start,
{
    address - text_start
}

/// Converts a pseudo-physical address to a virtual one, the image being
/// mapped from `text_start` on.
pub fn to_virt(address: usize, text_start: usize) -> (r: usize)
    requires
        address + text_start <= usize::MAX,
    ensures
        r == address + text_start,
{
    address + text_start
}

/// Number of pages needed to reach `address`: the address rounded up to a
/// page boundary, in pages.
pub fn pfn_up(address: usize) -> (r: usize)
    requires
        address + memory::PAGE_SIZE - 1 <= usize::MAX,
    ensures
        r == (address + memory::PAGE_SIZE - 1) / memory::PAGE_SIZE as int,
{
    memory::pfn_up(PhysicalAddress(address)).0
}

} // verus!
