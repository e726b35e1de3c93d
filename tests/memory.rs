use stardust::memory::{
    l1_table_offset, l2_table_offset, l3_table_offset, l4_table_offset, mfn_to_pfn, pfn_to_mfn,
    pfn_to_virt, pfn_up, virt_to_mfn, virt_to_pfn, MachineFrameNumber, PageFrameNumber,
    PhysicalAddress, VirtualAddress,
};
use stardust::mm::{pfn_up as pages_up, to_phys, to_virt};

#[test]
fn page_table_offsets() {
    let a = VirtualAddress(0x0000_7f12_3456_7000);
    assert_eq!(l1_table_offset(a), ((0x0000_7f12_3456_7000usize >> 12) & 511) as isize);
    assert_eq!(l2_table_offset(a), ((0x0000_7f12_3456_7000usize >> 21) & 511) as isize);
    assert_eq!(l3_table_offset(a), ((0x0000_7f12_3456_7000usize >> 30) & 511) as isize);
    assert_eq!(l4_table_offset(a), ((0x0000_7f12_3456_7000usize >> 39) & 511) as isize);
    let b = VirtualAddress((3 << 39) | (5 << 30) | (7 << 21) | (9 << 12) | 0x123);
    assert_eq!(b.l4_table_offset(), 3);
    assert_eq!(b.l3_table_offset(), 5);
    assert_eq!(b.l2_table_offset(), 7);
    assert_eq!(b.l1_table_offset(), 9);
}

#[test]
fn rounds_up_to_page_frames() {
    assert_eq!(pfn_up(PhysicalAddress(0)).0, 0);
    assert_eq!(pfn_up(PhysicalAddress(1)).0, 1);
    assert_eq!(pfn_up(PhysicalAddress(4096)).0, 1);
    assert_eq!(pfn_up(PhysicalAddress(4097)).0, 2);
    assert_eq!(pages_up(8192), 2);
    assert_eq!(pages_up(8193), 3);
}

#[test]
fn image_relative_addresses() {
    assert_eq!(to_phys(0x1_2000, 0x1_0000), 0x2000);
    assert_eq!(to_virt(0x2000, 0x1_0000), 0x1_2000);
}

#[test]
fn frame_conversions() {
    let text = 0x40_0000;
    assert_eq!(virt_to_pfn(VirtualAddress(text + 0x3123), text), PageFrameNumber(3));
    assert_eq!(pfn_to_virt(PageFrameNumber(3), text), VirtualAddress(text + 0x3000));
    let mfns = [90, 91, 92, 93];
    assert_eq!(pfn_to_mfn(PageFrameNumber(2), &mfns), MachineFrameNumber(92));
    let m2p = [0, 0, 7, 0];
    assert_eq!(mfn_to_pfn(MachineFrameNumber(2), &m2p), PageFrameNumber(7));
    assert_eq!(virt_to_mfn(VirtualAddress(text + 0x1fff), text, &mfns), Some(MachineFrameNumber(91)));
    assert_eq!(virt_to_mfn(VirtualAddress(text + 0x9000), text, &mfns), None);
}
