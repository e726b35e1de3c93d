use stardust::time::{block, snapshot_consistent, system_time_ns, TimeInfo};

fn info(shift: i8, mul: u32) -> TimeInfo {
    TimeInfo { wc_sec: 2, wc_nsec: 5, system_time: 1_000, tsc_timestamp: 100, tsc_shift: shift, tsc_to_system_mul: mul }
}

#[test]
fn clock_formula() {
    // half a nanosecond per tick, 200 ticks since the snapshot
    assert_eq!(system_time_ns(&info(0, 0x8000_0000), 300), Some(1_000 + 100 + 2_000_000_000 + 5));
    // shifted left by one: one nanosecond per tick
    assert_eq!(system_time_ns(&info(1, 0x8000_0000), 300), Some(1_000 + 200 + 2_000_000_000 + 5));
    // shifted right by one: a quarter
    assert_eq!(system_time_ns(&info(-1, 0x8000_0000), 300), Some(1_000 + 50 + 2_000_000_000 + 5));
}

#[test]
fn clock_limits() {
    assert_eq!(system_time_ns(&info(64, 1), 300), None);
    assert_eq!(system_time_ns(&info(-64, 1), 300), None);
    let mut i = info(0, 0);
    i.system_time = u64::MAX;
    assert_eq!(system_time_ns(&i, 100), None);
}

#[test]
fn snapshot_needs_even_unchanged_versions() {
    assert!(snapshot_consistent(2, 4, 2, 4));
    assert!(!snapshot_consistent(3, 4, 3, 4));
    assert!(!snapshot_consistent(2, 5, 2, 5));
    assert!(!snapshot_consistent(2, 4, 4, 4));
}

#[test]
fn block_only_before_the_deadline() {
    assert!(block(5, 10));
    assert!(!block(10, 10));
    assert!(!block(11, 10));
}
