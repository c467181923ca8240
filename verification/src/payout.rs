//! The payout engine: pure integer functions from position type, elapsed
//! time, and price-in-range state to a payout percentage in `[0, 200]`
//! (100 = principal refund, 200 = double, 0 = total loss). All divisions
//! truncate, so round-off always favours the lower percentage.

use vstd::prelude::*;
use crate::order::{MAX_WIDTH_SCALED, PERCENTAGE_SCALE, POSITION_DURATION_SECONDS};
use crate::position::PositionType;
use vstd::arithmetic::div_mod::{lemma_div_is_ordered, lemma_div_pos_is_pos};

verus! {

/// Seconds of the position's window already elapsed at `current_time`,
/// clamped to `[0, POSITION_DURATION_SECONDS]`.
pub open spec fn spec_elapsed(start_time: int, current_time: int) -> int {
    if current_time <= start_time {
        0
    } else if current_time - start_time >= POSITION_DURATION_SECONDS {
        POSITION_DURATION_SECONDS as int
    } else {
        current_time - start_time
    }
}

/// Whether the observed price sits outside the closed band `[lower, upper]`.
pub open spec fn spec_outside_range(lower: int, upper: int, price: int) -> bool {
    price < lower || price > upper
}

/// Whether the position's 24-hour window has lapsed at `current_time`.
pub open spec fn spec_expired(start_time: int, current_time: int) -> bool {
    current_time >= start_time + POSITION_DURATION_SECONDS
}

/// The decision table of the payout engine. StayIn value accrues with time
/// survived inside the band, reaching 200 only at full-duration survival; a
/// breakout caps StayIn's refund at a time-proportional fraction of
/// principal. Breakout value decays with elapsed time once outside; an
/// in-range expiry is a total loss for Breakout.
pub open spec fn spec_payout_percentage(
    position_type: PositionType,
    start_time: int,
    lower: int,
    upper: int,
    current_time: int,
    price: int,
) -> int {
    let duration = POSITION_DURATION_SECONDS as int;
    let outside = spec_outside_range(lower, upper, price);
    let expired = spec_expired(start_time, current_time);
    let elapsed = spec_elapsed(start_time, current_time);
    let remaining = duration - elapsed;
    match position_type {
        PositionType::StayIn => {
            if outside {
                elapsed * 100 / duration
            } else if expired {
                200
            } else {
                elapsed * 200 / duration
            }
        },
        PositionType::Breakout => {
            if outside {
                remaining * 200 / duration
            } else if expired {
                0
            } else {
                remaining * 100 / duration
            }
        },
    }
}

/// The payout owed on `amount` at `payout_percentage` percent, truncated.
pub open spec fn spec_payout_amount(amount: int, payout_percentage: int) -> int {
    amount * payout_percentage / 100
}

/// The payout percentage is bounded: every reachable input combination
/// yields a value in `[0, 200]`.
pub proof fn lemma_payout_percentage_bounds(
    position_type: PositionType,
    start_time: int,
    lower: int,
    upper: int,
    current_time: int,
    price: int,
)
    ensures
        0 <= spec_payout_percentage(position_type, start_time, lower, upper, current_time, price)
            <= 200,
{
    let duration = POSITION_DURATION_SECONDS as int;
    assert(duration == 86400);
    let elapsed = spec_elapsed(start_time, current_time);
    let remaining = duration - elapsed;
    assert(0 <= elapsed <= duration);
    assert(0 <= remaining <= duration);
    lemma_div_pos_is_pos(elapsed * 100, duration);
    lemma_div_pos_is_pos(elapsed * 200, duration);
    lemma_div_pos_is_pos(remaining * 100, duration);
    lemma_div_pos_is_pos(remaining * 200, duration);
    lemma_div_is_ordered(elapsed * 100, 8640000int, 86400);
    lemma_div_is_ordered(elapsed * 200, 17280000int, 86400);
    lemma_div_is_ordered(remaining * 100, 8640000int, 86400);
    lemma_div_is_ordered(remaining * 200, 17280000int, 86400);
    assert(8640000int / 86400 == 100);
    assert(17280000int / 86400 == 200);
}

/// Elapsed time is monotone in the clock reading.
proof fn lemma_elapsed_monotone(start_time: int, t1: int, t2: int)
    requires
        t1 <= t2,
    ensures
        spec_elapsed(start_time, t1) <= spec_elapsed(start_time, t2),
{
}

/// Payout monotonicity for StayIn: with the price state fixed, the payout
/// percentage never decreases as time passes.
pub proof fn lemma_stay_in_payout_monotone(
    start_time: int,
    lower: int,
    upper: int,
    t1: int,
    t2: int,
    price: int,
)
    requires
        t1 <= t2,
    ensures
        spec_payout_percentage(PositionType::StayIn, start_time, lower, upper, t1, price)
            <= spec_payout_percentage(PositionType::StayIn, start_time, lower, upper, t2, price),
{
    let duration = POSITION_DURATION_SECONDS as int;
    let e1 = spec_elapsed(start_time, t1);
    let e2 = spec_elapsed(start_time, t2);
    lemma_elapsed_monotone(start_time, t1, t2);
    lemma_div_is_ordered(e1 * 100, e2 * 100, duration);
    lemma_div_is_ordered(e1 * 200, e2 * 200, duration);
    lemma_payout_percentage_bounds(PositionType::StayIn, start_time, lower, upper, t1, price);
    lemma_payout_percentage_bounds(PositionType::StayIn, start_time, lower, upper, t2, price);
}

/// Payout monotonicity for Breakout: with the price state fixed, the payout
/// percentage never increases as time passes, decaying toward 0 by expiry.
pub proof fn lemma_breakout_payout_monotone(
    start_time: int,
    lower: int,
    upper: int,
    t1: int,
    t2: int,
    price: int,
)
    requires
        t1 <= t2,
    ensures
        spec_payout_percentage(PositionType::Breakout, start_time, lower, upper, t1, price)
            >= spec_payout_percentage(PositionType::Breakout, start_time, lower, upper, t2, price),
{
    let duration = POSITION_DURATION_SECONDS as int;
    let r1 = duration - spec_elapsed(start_time, t1);
    let r2 = duration - spec_elapsed(start_time, t2);
    lemma_elapsed_monotone(start_time, t1, t2);
    lemma_div_is_ordered(r2 * 100, r1 * 100, duration);
    lemma_div_is_ordered(r2 * 200, r1 * 200, duration);
    lemma_payout_percentage_bounds(PositionType::Breakout, start_time, lower, upper, t1, price);
    lemma_payout_percentage_bounds(PositionType::Breakout, start_time, lower, upper, t2, price);
}

/// The amount-based StayIn payout: a per-second rate of `base / duration`
/// accrues from 0, capped at twice the base amount.
pub open spec fn spec_stay_in_payout(base_amount: int, start_time: int, current_time: int) -> int {
    let elapsed = if current_time >= start_time {
        current_time - start_time
    } else {
        0
    };
    let accrued = (base_amount / (POSITION_DURATION_SECONDS as int)) * elapsed;
    if accrued > 2 * base_amount {
        2 * base_amount
    } else {
        accrued
    }
}

/// The amount-based Breakout payout: starts at twice the base amount and
/// decays by a per-second rate of `base / duration`, reaching 0 at expiry.
pub open spec fn spec_breakout_payout(base_amount: int, start_time: int, current_time: int) -> int {
    let elapsed = if current_time >= start_time {
        current_time - start_time
    } else {
        0
    };
    if elapsed >= POSITION_DURATION_SECONDS {
        0
    } else {
        let decayed = (base_amount / (POSITION_DURATION_SECONDS as int)) * elapsed;
        if 2 * base_amount >= decayed {
            2 * base_amount - decayed
        } else {
            0
        }
    }
}

/// Payout for a StayIn position, in amount terms: increases linearly with
/// the seconds held, from 0 up to twice the base amount.
pub fn calculate_stay_in_payout(base_amount: u64, start_time: u64, current_time: u64) -> (r: u64)
    requires
        base_amount * 2 <= u64::MAX,
    ensures
        r == spec_stay_in_payout(base_amount as int, start_time as int, current_time as int),
        r <= 2 * base_amount,
{
    let seconds_elapsed: u64 = if current_time >= start_time {
        current_time - start_time
    } else {
        0
    };
    let payout_rate = base_amount / POSITION_DURATION_SECONDS;
    let max_payout = 2 * base_amount;
    proof {
        assert((payout_rate as int) * (seconds_elapsed as int) <= u128::MAX) by (nonlinear_arith)
            requires
                0 <= payout_rate <= u64::MAX,
                0 <= seconds_elapsed <= u64::MAX,
        {}
    }
    let accrued: u128 = (payout_rate as u128) * (seconds_elapsed as u128);
    if accrued > (max_payout as u128) {
        max_payout
    } else {
        accrued as u64
    }
}

/// Payout for a Breakout position, in amount terms: starts at twice the
/// base amount and decreases linearly with the seconds held, reaching 0 at
/// expiry.
pub fn calculate_breakout_payout(base_amount: u64, start_time: u64, current_time: u64) -> (r: u64)
    requires
        base_amount * 2 <= u64::MAX,
    ensures
        r == spec_breakout_payout(base_amount as int, start_time as int, current_time as int),
        r <= 2 * base_amount,
{
    let seconds_elapsed: u64 = if current_time >= start_time {
        current_time - start_time
    } else {
        0
    };
    let payout_rate = base_amount / POSITION_DURATION_SECONDS;
    let max_payout = 2 * base_amount;
    if seconds_elapsed >= POSITION_DURATION_SECONDS {
        return 0;
    }
    proof {
        assert((payout_rate as int) * (seconds_elapsed as int) <= u128::MAX) by (nonlinear_arith)
            requires
                0 <= payout_rate <= u64::MAX,
                0 <= seconds_elapsed <= u64::MAX,
        {}
    }
    let decayed: u128 = (payout_rate as u128) * (seconds_elapsed as u128);
    if (max_payout as u128) >= decayed {
        max_payout - (decayed as u64)
    } else {
        0
    }
}

/// Absolute price band implied by a reference price and a scaled width:
/// `base * (1 -/+ width/100%)`, in truncating integer arithmetic.
pub open spec fn spec_lower_bound(base_price: int, width_scaled: int) -> int {
    base_price * (100 * PERCENTAGE_SCALE - width_scaled) / (100 * PERCENTAGE_SCALE)
}

/// See [`spec_lower_bound`].
pub open spec fn spec_upper_bound(base_price: int, width_scaled: int) -> int {
    base_price * (100 * PERCENTAGE_SCALE + width_scaled) / (100 * PERCENTAGE_SCALE)
}

/// Resolve a reference price and a scaled width percentage into the
/// absolute price band of a position.
pub fn price_bounds(base_price: u64, width_scaled: u64) -> (r: (u64, u64))
    requires
        width_scaled <= MAX_WIDTH_SCALED,
        base_price <= u64::MAX / 2,
    ensures
        r.0 == spec_lower_bound(base_price as int, width_scaled as int),
        r.1 == spec_upper_bound(base_price as int, width_scaled as int),
        r.0 <= base_price <= r.1,
{
    let ghost b = base_price as int;
    let ghost w = width_scaled as int;
    let ghost s = 100 * PERCENTAGE_SCALE as int;
    proof {
        assert(s == 1000000);
        assert(b * (s - w) <= b * s && b * s <= b * (s + w) && b * (s + w) <= b * (2 * s)
            && b * (s - w) >= 0 && b * (2 * s) == 2000000 * b) by (nonlinear_arith)
            requires
                0 <= b,
                0 <= w <= s,
                s == 1000000,
        {}
        assert(2000000 * b <= 2000000 * (u64::MAX as int));
        lemma_div_is_ordered(b * (s - w), b * s, s);
        lemma_div_is_ordered(b * s, b * (s + w), s);
        lemma_div_is_ordered(b * (s + w), b * (2 * s), s);
        assert(b * s / s == b && b * (2 * s) / s == 2 * b) by (nonlinear_arith)
            requires
                0 < s,
        {}
        lemma_div_pos_is_pos(b * (s - w), s);
    }
    let scale: u128 = 100 * (PERCENTAGE_SCALE as u128);
    let down: u128 = (base_price as u128) * (scale - (width_scaled as u128)) / scale;
    let up: u128 = (base_price as u128) * (scale + (width_scaled as u128)) / scale;
    (down as u64, up as u64)
}

} // verus!
