use passage::payout::{calculate_breakout_payout, calculate_stay_in_payout, price_bounds};
use passage::position::{PositionState, PositionStatus, PositionType};
use passage::pubkey::Pubkey;

fn position(ptype: PositionType, lower: u64, upper: u64, amount: u64) -> PositionState {
    PositionState {
        user: Pubkey::new_from_array([1u8; 32]),
        funder: Pubkey::new_from_array([2u8; 32]),
        position_type: ptype,
        lower_bound: lower,
        upper_bound: upper,
        start_time: 0,
        order_id: 1,
        status: PositionStatus::Active,
        amount,
        settlement_data: None,
    }
}

#[test]
fn stay_in_half_duration_breaks_even() {
    // Half of the 24-hour window survived in range: floor(43200*200/86400) = 100.
    let p = position(PositionType::StayIn, 99000, 101000, 4000);
    assert_eq!(p.calculate_payout(43200, 100000), 100);
}

#[test]
fn breakout_early_exit_pays_nearly_double() {
    // Price outside the band near the start: floor((86400-5000)*200/86400) = 188.
    let p = position(PositionType::Breakout, 99000, 101000, 4000);
    assert_eq!(p.calculate_payout(5000, 101500), 188);
}

#[test]
fn stay_in_full_survival_doubles() {
    let p = position(PositionType::StayIn, 99000, 101000, 4000);
    assert_eq!(p.calculate_payout(86400, 100000), 200);
    assert_eq!(p.calculate_payout(100000, 100500), 200);
}

#[test]
fn breakout_in_range_expiry_is_total_loss() {
    let p = position(PositionType::Breakout, 99000, 101000, 4000);
    assert_eq!(p.calculate_payout(86400, 100000), 0);
    assert_eq!(p.calculate_payout(500000, 100000), 0);
}

#[test]
fn stay_in_after_breakout_gets_time_proportional_refund() {
    // Price outside: floor(43200*100/86400) = 50 at half duration.
    let p = position(PositionType::StayIn, 99000, 101000, 4000);
    assert_eq!(p.calculate_payout(43200, 98000), 50);
    // Even past expiry the consolation caps at 100.
    assert_eq!(p.calculate_payout(90000, 98000), 100);
}

#[test]
fn breakout_in_range_decays_from_100() {
    // In range, not expired: floor((86400-43200)*100/86400) = 50.
    let p = position(PositionType::Breakout, 99000, 101000, 4000);
    assert_eq!(p.calculate_payout(43200, 100000), 50);
    assert_eq!(p.calculate_payout(0, 100000), 100);
}

#[test]
fn payout_is_bounded_on_sampled_grid() {
    let stay = position(PositionType::StayIn, 99000, 101000, 4000);
    let brk = position(PositionType::Breakout, 99000, 101000, 4000);
    for t in [0i64, 1, 5000, 43200, 86399, 86400, 86401, 1000000] {
        for price in [0u64, 98999, 99000, 100000, 101000, 101001, u64::MAX] {
            assert!(stay.calculate_payout(t, price) <= 200);
            assert!(brk.calculate_payout(t, price) <= 200);
        }
    }
}

#[test]
fn stay_in_payout_monotone_on_sampled_grid() {
    let stay = position(PositionType::StayIn, 99000, 101000, 4000);
    let brk = position(PositionType::Breakout, 99000, 101000, 4000);
    for price in [98000u64, 100000] {
        let mut last_stay = 0u8;
        let mut last_brk = 200u8;
        for t in [0i64, 1000, 20000, 43200, 70000, 86400, 90000] {
            let s = stay.calculate_payout(t, price);
            let b = brk.calculate_payout(t, price);
            assert!(s >= last_stay);
            assert!(b <= last_brk);
            last_stay = s;
            last_brk = b;
        }
    }
}

#[test]
fn price_bounds_resolve_band_exactly() {
    // 1.0% width around 100000: [99000, 101000].
    assert_eq!(price_bounds(100000, 10000), (99000, 101000));
    // 0.5% width around 200000: [199000, 201000].
    assert_eq!(price_bounds(200000, 5000), (199000, 201000));
    // Zero width collapses to the reference price.
    assert_eq!(price_bounds(12345, 0), (12345, 12345));
}

#[test]
fn amount_based_stay_in_payout_accrues_and_caps() {
    // rate = 86400/86400 = 1 per second.
    assert_eq!(calculate_stay_in_payout(86400, 0, 1000), 1000);
    assert_eq!(calculate_stay_in_payout(86400, 0, 400000), 2 * 86400);
    assert_eq!(calculate_stay_in_payout(86400, 500, 0), 0);
}

#[test]
fn amount_based_breakout_payout_decays_to_zero() {
    assert_eq!(calculate_breakout_payout(86400, 0, 1000), 2 * 86400 - 1000);
    assert_eq!(calculate_breakout_payout(86400, 0, 86400), 0);
    assert_eq!(calculate_breakout_payout(86400, 0, 500000), 0);
    assert_eq!(calculate_breakout_payout(86400, 500, 0), 2 * 86400);
}
