//! The rate gate: how soon after one chord the next may be struck.
//!
//! The tilt of the hand sets the pace. It is measured in thousandths, from
//! -1000 to 1000; a level hand plays slowest, a steep one fastest.

use vstd::prelude::*;

verus! {

/// Delay between chords at a rate of one, in milliseconds, unless configured
/// otherwise.
pub const DEFAULT_BASE_DELAY_MS: u64 = 1000;

/// One, in the thousandths in which tilt and rate are measured.
pub const RATE_UNIT: u32 = 1000;

/// Smallest share of the base delay that the rate gate waits.
pub const MIN_RATE: u32 = 100;

/// Largest share of the base delay that the rate gate waits.
pub const MAX_RATE: u32 = 800;

/// The time from `since` to `now`, in milliseconds; none if `now` is earlier.
pub open spec fn elapsed_ms(since: u64, now: u64) -> int {
    if now >= since {
        now - since
    } else {
        0
    }
}

/// Computes [`elapsed_ms`].
pub fn elapsed_since(since: u64, now: u64) -> (elapsed: u64)
    ensures
        elapsed == elapsed_ms(since, now),
{
    if now >= since {
        now - since
    } else {
        0
    }
}

/// The share of the base delay to wait, in thousandths: one minus the size
/// of the tilt, kept between [`MIN_RATE`] and [`MAX_RATE`].
pub open spec fn emission_rate(tilt: i32) -> int {
    let size = if tilt < 0 {
        -tilt
    } else {
        tilt as int
    };
    let rate = RATE_UNIT - size;
    if rate < MIN_RATE {
        MIN_RATE as int
    } else if rate > MAX_RATE {
        MAX_RATE as int
    } else {
        rate
    }
}

/// Computes [`emission_rate`].
pub fn rate_for_tilt(tilt: i32) -> (rate: u32)
    ensures
        rate == emission_rate(tilt),
        MIN_RATE <= rate <= MAX_RATE,
{
    let size: i64 = if tilt < 0 {
        -(tilt as i64)
    } else {
        tilt as i64
    };
    let rate: i64 = RATE_UNIT as i64 - size;
    if rate < MIN_RATE as i64 {
        MIN_RATE
    } else if rate > MAX_RATE as i64 {
        MAX_RATE
    } else {
        rate as u32
    }
}

/// Whether a chord may be struck: the hand has moved, and at least the base
/// delay times the rate has passed since the last chord.
pub open spec fn gate_opens(elapsed: int, base_delay_ms: u64, tilt: i32, moved: bool) -> bool {
    moved && elapsed * RATE_UNIT >= base_delay_ms * emission_rate(tilt)
}

/// Decides [`gate_opens`] for a chord last struck at `last_emission_ms`.
pub fn gate_open(
    last_emission_ms: u64,
    now_ms: u64,
    base_delay_ms: u64,
    tilt: i32,
    moved: bool,
) -> (open: bool)
    ensures
        open == gate_opens(elapsed_ms(last_emission_ms, now_ms), base_delay_ms, tilt, moved),
{
    if !moved {
        return false;
    }
    let elapsed = elapsed_since(last_emission_ms, now_ms);
    let rate = rate_for_tilt(tilt);
    assert(base_delay_ms * rate <= 0xffff_ffff_ffff_ffff * 800) by (nonlinear_arith)
        requires
            0 <= base_delay_ms <= 0xffff_ffff_ffff_ffff,
            0 <= rate <= 800,
    ;
    assert(elapsed * RATE_UNIT <= 0xffff_ffff_ffff_ffff * 1000) by (nonlinear_arith)
        requires
            0 <= elapsed <= 0xffff_ffff_ffff_ffff,
            RATE_UNIT == 1000,
    ;
    let waited: u128 = elapsed as u128 * RATE_UNIT as u128;
    let needed: u128 = base_delay_ms as u128 * rate as u128;
    waited >= needed
}

/// The rate gate never opens for a hand that has not moved, and the wait it asks
/// for lies between a tenth and four fifths of the base delay.
pub proof fn lemma_gate_bounds(elapsed: int, base_delay_ms: u64, tilt: i32)
    requires
        0 <= elapsed,
    ensures
        !gate_opens(elapsed, base_delay_ms, tilt, false),
        MIN_RATE <= emission_rate(tilt) <= MAX_RATE,
        elapsed * RATE_UNIT >= base_delay_ms * MAX_RATE ==> gate_opens(
            elapsed,
            base_delay_ms,
            tilt,
            true,
        ),
        elapsed * RATE_UNIT < base_delay_ms * MIN_RATE ==> !gate_opens(
            elapsed,
            base_delay_ms,
            tilt,
            true,
        ),
{
    let rate = emission_rate(tilt);
    assert(base_delay_ms * MIN_RATE <= base_delay_ms * rate <= base_delay_ms * MAX_RATE)
        by (nonlinear_arith)
        requires
            MIN_RATE <= rate <= MAX_RATE,
            0 <= base_delay_ms,
    ;
}

} // verus!
