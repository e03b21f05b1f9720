//! Conversions between timer ticks and nanoseconds.

use vstd::prelude::*;

verus! {

/// Nanoseconds per second.
pub const NANO_PER_SEC: u128 = 1_000_000_000;

/// `ticks` of a timer running at `hz` ticks per second, in nanoseconds,
/// rounded down.
pub fn ticks_to_nanos(ticks: u64, hz: u64) -> (r: u128)
    requires
        hz > 0,
    ensures
        r == (ticks as int * 1_000_000_000) / hz as int,
{
    assert(ticks as int * 1_000_000_000 <= u128::MAX) by (nonlinear_arith)
        requires ticks <= u64::MAX;
    (ticks as u128) * NANO_PER_SEC / (hz as u128)
}

/// `nanos` nanoseconds in ticks of a timer running at `hz` ticks per second,
/// rounded down and truncated to 64 bits.
pub fn nanos_to_ticks(nanos: u128, hz: u64) -> (r: u64)
    requires
        nanos * hz <= u128::MAX,
    ensures
        r == ((nanos as int * hz as int) / 1_000_000_000) as u64,
{
    (nanos * (hz as u128) / NANO_PER_SEC) as u64
}

/// Law: converting ticks to nanoseconds and back never gains ticks, and
/// loses at most one tick when the timer runs at most at 1 GHz.
pub proof fn law_ticks_roundtrip(ticks: u64, hz: u64)
    requires
        hz > 0,
    ensures
        ((ticks as int * 1_000_000_000) / hz as int) * hz as int / 1_000_000_000 <= ticks,
        hz <= 1_000_000_000 ==> ((ticks as int * 1_000_000_000) / hz as int) * hz as int / 1_000_000_000 >= ticks - 1,
{
    let t = ticks as int;
    let h = hz as int;
    let n = (t * 1_000_000_000) / h;
    assert(n * h <= t * 1_000_000_000) by (nonlinear_arith)
        requires h > 0, n == (t * 1_000_000_000) / h, t >= 0;
    assert(n * h / 1_000_000_000 <= t) by (nonlinear_arith)
        requires n * h <= t * 1_000_000_000, n >= 0, h > 0;
    if h <= 1_000_000_000 {
        assert(n * h > t * 1_000_000_000 - h) by (nonlinear_arith)
            requires h > 0, n == (t * 1_000_000_000) / h, t >= 0;
        assert(n * h / 1_000_000_000 >= t - 1) by (nonlinear_arith)
            requires n * h > t * 1_000_000_000 - h, h <= 1_000_000_000, h > 0, n >= 0;
    }
}

} // verus!
