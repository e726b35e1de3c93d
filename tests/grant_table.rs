use stardust::grant_table::{
    GrantError, GrantTable, GTF_ACCEPT_TRANSFER, GTF_PERMIT_ACCESS, GTF_READONLY, NUM_GRANT_ENTRIES,
    NUM_RESERVED_ENTRIES,
};
use stardust::memory::MachineFrameNumber;
use std::collections::HashSet;

#[test]
fn first_reference_is_the_highest() {
    let mut t = GrantTable::new();
    let r = t.grant_access(3, MachineFrameNumber(0x1234), false).unwrap();
    assert_eq!(r, NUM_GRANT_ENTRIES - 1);
    let e = t.table[r as usize];
    assert_eq!(e.frame, 0x1234);
    assert_eq!(e.domid, 3);
    assert_eq!(e.flags, GTF_PERMIT_ACCESS);
}

#[test]
fn readonly_and_transfer_flags() {
    let mut t = GrantTable::new();
    let a = t.grant_access(1, MachineFrameNumber(7), true).unwrap();
    assert_eq!(t.table[a as usize].flags, GTF_PERMIT_ACCESS | GTF_READONLY);
    assert_eq!(t.table[a as usize].flags, 5);
    let b = t.grant_transfer(2, MachineFrameNumber(8)).unwrap();
    assert_eq!(t.table[b as usize].flags, GTF_ACCEPT_TRANSFER);
    assert_eq!(t.table[b as usize].domid, 2);
    assert_ne!(a, b);
}

#[test]
fn ended_reference_is_reused_next() {
    let mut t = GrantTable::new();
    let a = t.grant_access(1, MachineFrameNumber(10), false).unwrap();
    let b = t.grant_access(1, MachineFrameNumber(11), false).unwrap();
    assert_eq!(t.grant_end(a), Ok(()));
    assert_eq!(t.table[a as usize].flags, 0);
    let c = t.grant_access(2, MachineFrameNumber(12), true).unwrap();
    assert_eq!(c, a);
    assert_ne!(c, b);
    assert_eq!(t.table[c as usize].frame, 12);
}

#[test]
fn exhausting_the_table_is_refused() {
    let mut t = GrantTable::new();
    let mut seen = HashSet::new();
    let n = NUM_GRANT_ENTRIES - NUM_RESERVED_ENTRIES;
    for i in 0..n {
        let r = t.grant_access(1, MachineFrameNumber(i as usize), false).unwrap();
        assert!(r >= NUM_RESERVED_ENTRIES && r < NUM_GRANT_ENTRIES);
        assert!(seen.insert(r), "reference {} handed out twice", r);
    }
    assert_eq!(seen.len(), 2040);
    assert_eq!(t.grant_access(1, MachineFrameNumber(0), false), Err(GrantError::Exhausted));
    assert_eq!(t.grant_transfer(1, MachineFrameNumber(0)), Err(GrantError::Exhausted));
    for r in 0..NUM_RESERVED_ENTRIES {
        assert_eq!(t.table[r as usize].flags, 0);
    }
    assert_eq!(t.grant_end(100), Ok(()));
    assert_eq!(t.grant_access(1, MachineFrameNumber(5), false), Ok(100));
}

#[test]
fn ending_an_unknown_grant_is_refused() {
    let mut t = GrantTable::new();
    assert_eq!(t.grant_end(0), Err(GrantError::InvalidReference));
    assert_eq!(t.grant_end(7), Err(GrantError::InvalidReference));
    assert_eq!(t.grant_end(NUM_GRANT_ENTRIES), Err(GrantError::InvalidReference));
    assert_eq!(t.grant_end(100), Err(GrantError::NotGranted));
    let a = t.grant_access(1, MachineFrameNumber(1), false).unwrap();
    assert_eq!(t.grant_end(a), Ok(()));
    assert_eq!(t.grant_end(a), Err(GrantError::NotGranted));
}
