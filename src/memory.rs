//! Kinds of memory locations and the arithmetic between them.
use vstd::prelude::*;

verus! {

/// log2 of the page size.
pub const PAGE_SHIFT: usize = 12;

/// Size of a page in bytes.
pub const PAGE_SIZE: usize = 4096;

/// Shift of the address bits that index an L1 page table.
pub const L1_PAGETABLE_SHIFT: usize = 12;

/// Shift of the address bits that index an L2 page table.
pub const L2_PAGETABLE_SHIFT: usize = 21;

/// Shift of the address bits that index an L3 page table.
pub const L3_PAGETABLE_SHIFT: usize = 30;

/// Shift of the address bits that index an L4 page table.
pub const L4_PAGETABLE_SHIFT: usize = 39;

/// Entries in a page table of any level.
pub const PAGETABLE_ENTRIES: usize = 512;

/// Page table entry.
#[derive(Debug, Clone, Copy, PartialEq, Eq, Structural)]
pub struct PageEntry(pub usize);

/// Number of a page in the guest's pseudo-physical address space.
#[derive(Debug, Clone, Copy, PartialEq, Eq, Structural)]
pub struct PageFrameNumber(pub usize);

/// Number of a page in the machine's address space.
#[derive(Debug, Clone, Copy, PartialEq, Eq, Structural)]
pub struct MachineFrameNumber(pub usize);

/// Virtual address.
#[derive(Debug, Clone, Copy, PartialEq, Eq, Structural)]
pub struct VirtualAddress(pub usize);

/// Pseudo-physical address.
#[derive(Debug, Clone, Copy, PartialEq, Eq, Structural)]
pub struct PhysicalAddress(pub usize);

/// Machine address.
#[derive(Debug, Clone, Copy, PartialEq, Eq, Structural)]
pub struct MachineAddress(pub usize);

/// Index into a page table of entries 512 wide, from the address bits above `shift`.
pub open spec fn table_index(address: usize, shift: nat) -> int {
    (address as int / vstd::arithmetic::power2::pow2(shift) as int) % 512
}

/// Page frame number after rounding the address up to the next page boundary.
pub fn pfn_up(phys: PhysicalAddress) -> (r: PageFrameNumber)
    requires
        phys.0 + PAGE_SIZE - 1 <= usize::MAX,
    ensures
        r.0 == (phys.0 + PAGE_SIZE - 1) / PAGE_SIZE as int,
{
    let a = phys.0 + (PAGE_SIZE - 1);
    assert(a >> 12usize == a / 4096) by (bit_vector);
    PageFrameNumber(a >> L1_PAGETABLE_SHIFT)
}

fn table_offset(address: usize, shift: u64) -> (r: isize)
    requires
        shift == 12 || shift == 21 || shift == 30 || shift == 39,
    ensures
        r == table_index(address, shift as nat),
{
    let a = address as u64;
    let q = a >> shift;
    let v = q & 511;
    assert(q & 511u64 == q % 512) by (bit_vector);
    proof {
        vstd::bits::lemma_u64_shr_is_div(a, shift);
    }
    v as isize
}

/// Offset into an L1 page table of the entry for `address`.
pub fn l1_table_offset(address: VirtualAddress) -> (r: isize)
    ensures
        r == table_index(address.0, 12),
{
    table_offset(address.0, L1_PAGETABLE_SHIFT as u64)
}

/// Offset into an L2 page table of the entry for `address`.
pub fn l2_table_offset(address: VirtualAddress) -> (r: isize)
    ensures
        r == table_index(address.0, 21),
{
    table_offset(address.0, L2_PAGETABLE_SHIFT as u64)
}

/// Offset into an L3 page table of the entry for `address`.
pub fn l3_table_offset(address: VirtualAddress) -> (r: isize)
    ensures
        r == table_index(address.0, 30),
{
    table_offset(address.0, L3_PAGETABLE_SHIFT as u64)
}

/// Offset into an L4 page table of the entry for `address`.
pub fn l4_table_offset(address: VirtualAddress) -> (r: isize)
    ensures
        r == table_index(address.0, 39),
{
    table_offset(address.0, L4_PAGETABLE_SHIFT as u64)
}

impl VirtualAddress {
    /// Offset into an L1 page table of the entry for this address.
    pub fn l1_table_offset(&self) -> (r: isize)
        ensures
            r == table_index(self.0, 12),
    {
        l1_table_offset(*self)
    }

    /// Offset into an L2 page table of the entry for this address.
    pub fn l2_table_offset(&self) -> (r: isize)
        ensures
            r == table_index(self.0, 21),
    {
        l2_table_offset(*self)
    }

    /// Offset into an L3 page table of the entry for this address.
    pub fn l3_table_offset(&self) -> (r: isize)
        ensures
            r == table_index(self.0, 30),
    {
        l3_table_offset(*self)
    }

    /// Offset into an L4 page table of the entry for this address.
    pub fn l4_table_offset(&self) -> (r: isize)
        ensures
            r == table_index(self.0, 39),
    {
        l4_table_offset(*self)
    }
}

/// The page frame of a virtual address, the image being mapped from
/// `text_start` on.
pub fn virt_to_pfn(virt: VirtualAddress, text_start: usize) -> (r: PageFrameNumber)
    requires
        text_start <= virt.0,
    ensures
        r.0 == (virt.0 - text_start) / PAGE_SIZE as int,
{
    let phys = virt.0 - text_start;
    proof {
        vstd::bits::lemma_usize_shr_is_div(phys, 12);
        vstd::arithmetic::power2::lemma2_to64();
    }
    PageFrameNumber(phys >> PAGE_SHIFT)
}

/// The virtual address of the start of a page frame.
pub fn pfn_to_virt(pfn: PageFrameNumber, text_start: usize) -> (r: VirtualAddress)
    requires
        pfn.0 * PAGE_SIZE + text_start <= usize::MAX,
    ensures
        r.0 == pfn.0 * PAGE_SIZE + text_start,
{
    proof {
        vstd::arithmetic::power2::lemma2_to64();
        vstd::bits::lemma_usize_shl_is_mul(pfn.0, 12);
    }
    VirtualAddress((pfn.0 << PAGE_SHIFT) + text_start)
}

/// The machine frame behind a page frame, from the table of machine frames
/// that the hypervisor hands the domain at start.
pub fn pfn_to_mfn(pfn: PageFrameNumber, mfn_list: &[usize]) -> (r: MachineFrameNumber)
    requires
        pfn.0 < mfn_list@.len(),
    ensures
        r.0 == mfn_list@[pfn.0 as int],
{
    MachineFrameNumber(mfn_list[pfn.0])
}

/// The page frame of a machine frame, from the machine-to-physical table.
pub fn mfn_to_pfn(mfn: MachineFrameNumber, m2p: &[usize]) -> (r: PageFrameNumber)
    requires
        mfn.0 < m2p@.len(),
    ensures
        r.0 == m2p@[mfn.0 as int],
{
    PageFrameNumber(m2p[mfn.0])
}

/// The machine frame behind a virtual address.
pub fn virt_to_mfn(virt: VirtualAddress, text_start: usize, mfn_list: &[usize]) -> (r: Option<MachineFrameNumber>)
    requires
        text_start <= virt.0,
    ensures
        ({
            let pfn = (virt.0 - text_start) / PAGE_SIZE as int;
            &&& pfn < mfn_list@.len() ==> r == Some(MachineFrameNumber(mfn_list@[pfn]))
            &&& pfn >= mfn_list@.len() ==> r is None
        }),
{
    let pfn = virt_to_pfn(virt, text_start);
    if pfn.0 < mfn_list.len() {
        Some(pfn_to_mfn(pfn, mfn_list))
    } else {
        None
    }
}

} // verus!
