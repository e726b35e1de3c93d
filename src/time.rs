//! Time: the clock formula over what the hypervisor publishes, and the
//! decisions of the loops that read it.
use vstd::prelude::*;

verus! {

/// The time fields that the hypervisor publishes in the shared info page.
#[derive(Debug, Clone, Copy, PartialEq, Eq, Structural)]
pub struct TimeInfo {
    /// Wall-clock seconds at boot.
    pub wc_sec: u32,
    /// Wall-clock nanoseconds at boot.
    pub wc_nsec: u32,
    /// Nanoseconds since boot at `tsc_timestamp`.
    pub system_time: u64,
    /// Time-stamp counter when `system_time` was taken.
    pub tsc_timestamp: u64,
    /// Shift that brings counter ticks to the scale of `tsc_to_system_mul`.
    pub tsc_shift: i8,
    /// Nanoseconds per tick, as a 32.32 fixed-point fraction.
    pub tsc_to_system_mul: u32,
}

/// Ticks since the snapshot, shifted as the hypervisor asks.
pub open spec fn scaled_ticks(delta: u64, shift: i8) -> u64 {
    if shift < 0 {
        delta >> ((0 - shift) as u64)
    } else {
        delta << (shift as u64)
    }
}

/// Nanoseconds since the epoch at counter reading `tsc`.
pub open spec fn wall_clock_ns(info: TimeInfo, tsc: u64) -> int {
    let delta = vstd::wrapping::u64_specs::wrapping_sub(tsc, info.tsc_timestamp);
    let ticks = scaled_ticks(delta, info.tsc_shift);
    info.system_time + (ticks as int * info.tsc_to_system_mul as int) / 0x1_0000_0000 + info.wc_sec as int
        * 1_000_000_000 + info.wc_nsec
}

/// The current time in nanoseconds since the epoch from a snapshot of the
/// published fields and a counter reading; `None` when the shift is out of
/// range or the sum does not fit in 64 bits.
pub fn system_time_ns(info: &TimeInfo, tsc: u64) -> (r: Option<u64>)
    ensures
        r == (if -64 < info.tsc_shift < 64 && wall_clock_ns(*info, tsc) <= u64::MAX {
            Some(wall_clock_ns(*info, tsc) as u64)
        } else {
            None
        }),
{
    if info.tsc_shift <= -64 || info.tsc_shift >= 64 {
        return None;
    }
    let delta = tsc.wrapping_sub(info.tsc_timestamp);
    let ticks: u64 = if info.tsc_shift < 0 {
        delta >> ((0 - info.tsc_shift) as u64)
    } else {
        delta << (info.tsc_shift as u64)
    };
    assert(ticks as int * info.tsc_to_system_mul as int <= 0xffff_ffff_ffff_ffff * 0xffff_ffff) by (nonlinear_arith)
        requires
            0 <= ticks <= 0xffff_ffff_ffff_ffffu64,
            0 <= info.tsc_to_system_mul <= 0xffff_ffffu32,
    ;
    let product = (ticks as u128) * (info.tsc_to_system_mul as u128);
    let nanos = (product / 0x1_0000_0000) as u64;
    let wall = (info.wc_sec as u64) * 1_000_000_000 + info.wc_nsec as u64;
    let a = match info.system_time.checked_add(nanos) {
        Some(a) => a,
        None => {
            return None;
        },
    };
    match a.checked_add(wall) {
        Some(t) => Some(t),
        None => None,
    }
}

/// Whether a snapshot of the time fields can be used: both version counters
/// were even (no update in progress) and did not change while it was taken.
pub fn snapshot_consistent(version: u32, wc_version: u32, version_after: u32, wc_version_after: u32) -> (r:
    bool)
    ensures
        r == (version % 2 == 0 && wc_version % 2 == 0 && version == version_after && wc_version
            == wc_version_after),
{
    version % 2 == 0 && wc_version % 2 == 0 && version == version_after && wc_version == wc_version_after
}

/// Whether to block the domain until the timer at `until`: only while the
/// clock reading `now` has not reached it.
pub fn block(now: u64, until: u64) -> (r: bool)
    ensures
        r == (now < until),
{
    now < until
}

} // verus!
