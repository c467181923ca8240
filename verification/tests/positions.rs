use passage::errors::ErrorCode;
use passage::order::{AssetType, OrderType};
use passage::orderbook::PassageOrderbook;
use passage::position::{PositionState, PositionStatus, PositionType, SettlementData};
use passage::pubkey::Pubkey;
use passage::trader::TraderState;

fn pk(tag: u8) -> Pubkey {
    Pubkey::new_from_array([tag; 32])
}

fn fresh_position() -> PositionState {
    PositionState {
        user: pk(1),
        funder: pk(2),
        position_type: PositionType::StayIn,
        lower_bound: 99000,
        upper_bound: 101000,
        start_time: 0,
        order_id: 7,
        status: PositionStatus::Active,
        amount: 4000,
        settlement_data: None,
    }
}

#[test]
fn initialize_validates_the_band() {
    let mut p = fresh_position();
    assert_eq!(
        p.initialize(pk(3), pk(4), PositionType::Breakout, 5000, 4000, 10, 9, 100),
        Err(ErrorCode::InvalidRange)
    );
    // The failed call changed nothing.
    assert_eq!(p.user, pk(1));
    assert_eq!(
        p.initialize(pk(3), pk(4), PositionType::Breakout, 4000, 5000, 10, 9, 100),
        Ok(())
    );
    assert_eq!(p.user, pk(3));
    assert_eq!(p.funder, pk(4));
    assert_eq!(p.status, PositionStatus::Active);
    assert_eq!(p.settlement_data, None);
    assert_eq!(p.order_id, 9);
}

#[test]
fn expiry_helpers_follow_the_24_hour_window() {
    let p = fresh_position();
    assert_eq!(p.get_expiry_time(), 86400);
    assert!(!p.is_expired(86399));
    assert!(p.is_expired(86400));
    assert!(!p.is_outside_range(99000));
    assert!(!p.is_outside_range(101000));
    assert!(p.is_outside_range(98999));
    assert!(p.is_outside_range(101001));
}

#[test]
fn settle_is_one_shot_and_keeps_first_outcome() {
    let mut p = fresh_position();
    assert_eq!(p.settle(43200, 100000, 100), Ok(()));
    assert_eq!(p.status, PositionStatus::Settled);
    let first = p.settlement_data;
    assert_eq!(
        first,
        Some(SettlementData {
            settlement_time: 43200,
            settlement_price: 100000,
            payout_percentage: 100,
        })
    );
    // The second settlement fails and the stored outcome is untouched.
    assert_eq!(p.settle(50000, 90000, 0), Err(ErrorCode::PositionAlreadySettled));
    assert_eq!(p.settlement_data, first);
    assert_eq!(p.status, PositionStatus::Settled);
}

#[test]
fn claim_is_one_shot() {
    let mut p = fresh_position();
    assert_eq!(p.claim(), Err(ErrorCode::PositionNotSettled));
    p.settle(43200, 100000, 100).unwrap();
    assert_eq!(p.claim(), Ok(()));
    assert_eq!(p.status, PositionStatus::Claimed);
    // Claiming again is a hard error, not a no-op.
    assert_eq!(p.claim(), Err(ErrorCode::PositionNotSettled));
}

fn matched_book() -> (PassageOrderbook, u64) {
    let mut b = PassageOrderbook::new(AssetType::BTC, 100000, 1000, 100000);
    b.register_trader(pk(1), 100000);
    b.register_trader(pk(2), 50000);
    b.place_liquidity_order(pk(1), OrderType::StayIn, 10000, 10000, 0).unwrap();
    b.match_position_order(pk(2), OrderType::Breakout, 10000, 4000, 0).unwrap();
    let order_id = b.positions[0].order_id;
    (b, order_id)
}

#[test]
fn settle_position_writes_outcome_once() {
    let (mut b, order_id) = matched_book();
    assert_eq!(b.settle_position(pk(2), 999, 43200, 100000), Err(ErrorCode::OrderNotFound));
    assert_eq!(b.settle_position(pk(2), order_id, 43200, 98000), Ok(()));
    let p = &b.positions[0];
    assert_eq!(p.status, PositionStatus::Settled);
    // Breakout, price outside at half time: floor(43200*200/86400) = 100.
    let data = p.settlement_data.unwrap();
    assert_eq!(data.payout_percentage, 100);
    assert_eq!(data.settlement_time, 43200);
    assert_eq!(data.settlement_price, 98000);
    // Settling twice fails and keeps the first outcome.
    assert_eq!(
        b.settle_position(pk(2), order_id, 86400, 100000),
        Err(ErrorCode::PositionAlreadySettled)
    );
    assert_eq!(b.positions[0].settlement_data.unwrap().settlement_time, 43200);
}

#[test]
fn claim_position_splits_the_doubled_stake() {
    let (mut b, order_id) = matched_book();
    assert_eq!(b.claim_position(pk(2), order_id), Err(ErrorCode::PositionNotSettled));
    // Breakout taker wins early: settle at t=5000, price outside.
    b.settle_position(pk(2), order_id, 5000, 98000).unwrap();
    let pct = b.positions[0].settlement_data.unwrap().payout_percentage;
    assert_eq!(pct, 188);
    let payout = b.claim_position(pk(2), order_id).unwrap();
    assert_eq!(payout, 4000 * 188 / 100);
    // Taker: stake unlocked into the payout; funder: the remainder.
    assert_eq!(b.traders[1].free_funds, 46000 + payout);
    assert_eq!(b.traders[1].locked_funds, 0);
    assert_eq!(b.traders[0].free_funds, 90000 + (8000 - payout));
    assert_eq!(b.traders[0].locked_funds, 6000);
    assert_eq!(b.positions[0].status, PositionStatus::Claimed);
    // A second claim is refused and pays nothing more.
    let funds_after = b.traders[1].free_funds;
    assert_eq!(b.claim_position(pk(2), order_id), Err(ErrorCode::PositionNotSettled));
    assert_eq!(b.traders[1].free_funds, funds_after);
}

#[test]
fn claim_missing_position_is_not_found() {
    let (mut b, _) = matched_book();
    assert_eq!(b.claim_position(pk(2), 999), Err(ErrorCode::OrderNotFound));
}

#[test]
fn trader_state_moves_funds_all_or_nothing() {
    let mut t = TraderState::new(pk(1), 100);
    assert!(!t.lock_funds(101));
    assert_eq!((t.free_funds, t.locked_funds), (100, 0));
    assert!(t.lock_funds(60));
    assert_eq!((t.free_funds, t.locked_funds), (40, 60));
    t.unlock_funds(10);
    assert_eq!((t.free_funds, t.locked_funds), (50, 50));
}

#[test]
fn trader_order_set_removal_is_idempotent() {
    let mut t = TraderState::new(pk(1), 0);
    let mut b = PassageOrderbook::new(AssetType::ETH, 1000, 1000, 100000);
    let id1 = b.generate_order_id(10000, 5);
    let id2 = b.generate_order_id(10000, 5);
    t.add_order(id1);
    t.add_order(id2);
    t.remove_order(id1);
    assert_eq!(t.orders, vec![id2]);
    // Removing an absent id is a no-op, not an error.
    t.remove_order(id1);
    assert_eq!(t.orders, vec![id2]);
}

#[test]
fn pubkey_compares_by_bytes() {
    assert_eq!(Pubkey::new(), Pubkey::new_from_array([0u8; 32]));
    assert_ne!(pk(1), pk(2));
    let mut bytes = [3u8; 32];
    bytes[31] = 4;
    assert_ne!(Pubkey::new_from_array([3u8; 32]), Pubkey::new_from_array(bytes));
}

#[test]
fn asset_tags_decode_and_errors_describe_themselves() {
    assert_eq!(AssetType::from_tag(0), Ok(AssetType::BTC));
    assert_eq!(AssetType::from_tag(1), Ok(AssetType::ETH));
    assert_eq!(AssetType::from_tag(2), Ok(AssetType::BNB));
    assert_eq!(AssetType::from_tag(3), Ok(AssetType::GMX));
    assert_eq!(AssetType::from_tag(4), Err(ErrorCode::InvalidAssetType));
    assert_eq!(ErrorCode::InsufficientFunds.message(), "Insufficient funds");
    assert_eq!(
        ErrorCode::InvalidWidthPercentage.message(),
        "Width percentage outside allowed range"
    );
}
