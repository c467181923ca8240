use passage::errors::ErrorCode;
use passage::order::{AssetType, OrderStatus, OrderType};
use passage::orderbook::PassageOrderbook;
use passage::pubkey::Pubkey;

fn pk(tag: u8) -> Pubkey {
    Pubkey::new_from_array([tag; 32])
}

fn book() -> PassageOrderbook {
    // BTC book at a reference price of 100,000 with widths 0.1%..10%.
    PassageOrderbook::new(AssetType::BTC, 100000, 1000, 100000)
}

fn total_funds(b: &PassageOrderbook) -> u128 {
    b.traders.iter().map(|t| t.free_funds as u128 + t.locked_funds as u128).sum()
}

#[test]
fn register_is_top_up_on_repeat() {
    let mut b = book();
    b.register_trader(pk(1), 500);
    // A fresh registration starts with an empty order set.
    assert!(b.traders[0].orders.is_empty());
    b.register_trader(pk(1), 250);
    assert_eq!(b.traders.len(), 1);
    assert_eq!(b.traders[0].free_funds, 750);
    assert_eq!(b.traders[0].locked_funds, 0);
    // A top-up touches no order set.
    assert!(b.traders[0].orders.is_empty());
}

#[test]
fn place_locks_funds_and_files_order() {
    let mut b = book();
    b.register_trader(pk(1), 100000);
    let id = b.place_liquidity_order(pk(1), OrderType::StayIn, 10000, 10000, 0).unwrap();
    assert_eq!(id.width_percentage_scaled, 10000);
    assert_eq!(id.sequence_number, 1);
    assert_eq!(b.traders[0].free_funds, 90000);
    assert_eq!(b.traders[0].locked_funds, 10000);
    assert_eq!(b.stay_in_orders.len(), 1);
    assert_eq!(b.stay_in_orders[0].amount, 10000);
    assert_eq!(b.stay_in_orders[0].status, OrderStatus::Pending);
    assert_eq!(b.stay_in_orders[0].base_price, 100000);
    assert!(b.breakout_orders.is_empty());
    assert_eq!(b.traders[0].orders.len(), 1);
}

#[test]
fn place_rejects_bad_width_unregistered_and_poor() {
    let mut b = book();
    assert_eq!(
        b.place_liquidity_order(pk(1), OrderType::StayIn, 999, 10, 0),
        Err(ErrorCode::InvalidWidthPercentage)
    );
    assert_eq!(
        b.place_liquidity_order(pk(1), OrderType::StayIn, 100001, 10, 0),
        Err(ErrorCode::InvalidWidthPercentage)
    );
    assert_eq!(
        b.place_liquidity_order(pk(1), OrderType::StayIn, 10000, 10, 0),
        Err(ErrorCode::TraderNotRegistered)
    );
    b.register_trader(pk(1), 5);
    assert_eq!(
        b.place_liquidity_order(pk(1), OrderType::StayIn, 10000, 10, 0),
        Err(ErrorCode::InsufficientFunds)
    );
    // Nothing was placed or locked along the way.
    assert!(b.stay_in_orders.is_empty());
    assert_eq!(b.traders[0].locked_funds, 0);
}

#[test]
fn match_walks_opposite_side_and_reduces_funder_order() {
    // The worked scenario: funder F posts StayIn width 1.0% amount 10,000
    // at t=0; taker T requests Breakout width 1.0% amount 4,000 at t=10.
    // Breakout requests search the StayIn book for width >= requested, so
    // F's order matches: it shrinks to 6,000 and T's position gets the
    // band [99000, 101000] and expiry t+86400.
    let mut b = book();
    let funder = pk(1);
    let taker = pk(2);
    b.register_trader(funder, 100000);
    b.register_trader(taker, 50000);
    b.place_liquidity_order(funder, OrderType::StayIn, 10000, 10000, 0).unwrap();
    assert_eq!(b.traders[0].locked_funds, 10000);

    let before = total_funds(&b);
    let mr = b.match_position_order(taker, OrderType::Breakout, 10000, 4000, 10).unwrap();
    assert_eq!(mr.trader_amount, 4000);
    assert_eq!(mr.funder_amount, 4000);
    assert_eq!(mr.width_percentage_scaled, 10000);
    assert_eq!(mr.trader, taker);
    assert_eq!(mr.funder, funder);
    assert_eq!(mr.base_price, 100000);
    assert_eq!(mr.expiration, 10 + 86400);

    assert_eq!(b.stay_in_orders[0].amount, 6000);
    assert_eq!(b.positions.len(), 1);
    let p = &b.positions[0];
    assert_eq!(p.lower_bound, 99000);
    assert_eq!(p.upper_bound, 101000);
    assert_eq!(p.amount, 4000);
    assert_eq!(p.start_time, 10);
    assert_eq!(p.user, taker);
    assert_eq!(p.funder, funder);
    // Taker's stake moved from free to locked; funder's lock is unchanged
    // (the matched slice now backs the position).
    assert_eq!(b.traders[1].free_funds, 46000);
    assert_eq!(b.traders[1].locked_funds, 4000);
    assert_eq!(b.traders[0].locked_funds, 10000);
    // Matching never creates or destroys funds.
    assert_eq!(total_funds(&b), before);
}

#[test]
fn match_full_fill_retires_the_order() {
    let mut b = book();
    b.register_trader(pk(1), 10000);
    b.register_trader(pk(2), 10000);
    let id = b.place_liquidity_order(pk(1), OrderType::Breakout, 10000, 3000, 0).unwrap();
    let mr = b.match_position_order(pk(2), OrderType::StayIn, 10000, 3000, 5).unwrap();
    assert_eq!(mr.funder, pk(1));
    assert!(b.breakout_orders.is_empty());
    // The funder's owned-order set dropped the retired id.
    assert!(!b.traders[0].orders.contains(&id));
    assert_eq!(b.traders[0].locked_funds, 3000);
    assert_eq!(b.positions.len(), 1);
}

#[test]
fn match_needs_compatible_width_and_amount() {
    let mut b = book();
    b.register_trader(pk(1), 100000);
    b.register_trader(pk(2), 50000);
    // StayIn liquidity at width 2.0%.
    b.place_liquidity_order(pk(1), OrderType::StayIn, 20000, 10000, 0).unwrap();
    // Breakout request at width 3.0% needs StayIn width >= 3.0%: no match.
    assert_eq!(
        b.match_position_order(pk(2), OrderType::Breakout, 30000, 4000, 1).unwrap_err(),
        ErrorCode::NoMatchingOrders
    );
    // Request bigger than the resting amount: no match.
    assert_eq!(
        b.match_position_order(pk(2), OrderType::Breakout, 10000, 20000, 1).unwrap_err(),
        ErrorCode::NoMatchingOrders
    );
    // A StayIn request searches the Breakout book, which is empty.
    assert_eq!(
        b.match_position_order(pk(2), OrderType::StayIn, 20000, 4000, 1).unwrap_err(),
        ErrorCode::NoMatchingOrders
    );
    // Nothing changed.
    assert_eq!(b.stay_in_orders[0].amount, 10000);
    assert_eq!(b.traders[1].locked_funds, 0);
}

#[test]
fn match_prefers_tightest_liquidity_for_stay_in_takers() {
    let mut b = book();
    b.register_trader(pk(1), 100000);
    b.register_trader(pk(2), 100000);
    b.register_trader(pk(3), 50000);
    // Breakout liquidity at widths 2.0% and 0.5% (the latter placed later).
    b.place_liquidity_order(pk(1), OrderType::Breakout, 20000, 5000, 0).unwrap();
    b.place_liquidity_order(pk(2), OrderType::Breakout, 5000, 5000, 1).unwrap();
    // StayIn request at 2.0% accepts both; the tightest (0.5%) wins.
    let mr = b.match_position_order(pk(3), OrderType::StayIn, 20000, 1000, 2).unwrap();
    assert_eq!(mr.funder, pk(2));
    assert_eq!(mr.width_percentage_scaled, 5000);
}

#[test]
fn match_prefers_widest_liquidity_for_breakout_takers() {
    let mut b = book();
    b.register_trader(pk(1), 100000);
    b.register_trader(pk(2), 100000);
    b.register_trader(pk(3), 50000);
    b.place_liquidity_order(pk(1), OrderType::StayIn, 15000, 5000, 0).unwrap();
    b.place_liquidity_order(pk(2), OrderType::StayIn, 30000, 5000, 1).unwrap();
    // Breakout request at 1.0% accepts both; the widest (3.0%) wins.
    let mr = b.match_position_order(pk(3), OrderType::Breakout, 10000, 1000, 2).unwrap();
    assert_eq!(mr.funder, pk(2));
    assert_eq!(mr.width_percentage_scaled, 30000);
}

#[test]
fn match_breaks_width_ties_by_earliest_timestamp() {
    let mut b = book();
    b.register_trader(pk(1), 100000);
    b.register_trader(pk(2), 100000);
    b.register_trader(pk(3), 50000);
    // Same width, different placement times; FIFO wins regardless of the
    // placement order in the book.
    b.place_liquidity_order(pk(2), OrderType::Breakout, 10000, 5000, 7).unwrap();
    b.place_liquidity_order(pk(1), OrderType::Breakout, 10000, 5000, 3).unwrap();
    let mr = b.match_position_order(pk(3), OrderType::StayIn, 10000, 1000, 8).unwrap();
    assert_eq!(mr.funder, pk(1));
}

#[test]
fn cancel_returns_funds_only_to_the_owner() {
    let mut b = book();
    b.register_trader(pk(1), 10000);
    b.register_trader(pk(2), 10000);
    let id = b.place_liquidity_order(pk(1), OrderType::StayIn, 10000, 4000, 0).unwrap();
    assert_eq!(b.cancel_order(pk(2), id), Err(ErrorCode::NotAuthorized));
    assert_eq!(b.stay_in_orders.len(), 1);
    assert_eq!(b.cancel_order(pk(1), id), Ok(()));
    assert!(b.stay_in_orders.is_empty());
    assert_eq!(b.traders[0].free_funds, 10000);
    assert_eq!(b.traders[0].locked_funds, 0);
    assert!(b.traders[0].orders.is_empty());
    // The order is gone now.
    assert_eq!(b.cancel_order(pk(1), id), Err(ErrorCode::OrderNotFound));
    let unregistered = pk(9);
    assert_eq!(b.cancel_order(unregistered, id), Err(ErrorCode::TraderNotRegistered));
}

#[test]
fn sweep_unlocks_expired_orders_and_keeps_the_rest() {
    let mut b = book();
    b.register_trader(pk(1), 10000);
    b.place_liquidity_order(pk(1), OrderType::StayIn, 10000, 3000, 0).unwrap();
    b.place_liquidity_order(pk(1), OrderType::Breakout, 10000, 2000, 0).unwrap();
    // Give the StayIn order a bounded window that has lapsed.
    b.stay_in_orders[0].expiration = Some(100);
    let swept_id = b.stay_in_orders[0].id;
    let kept_id = b.breakout_orders[0].id;
    let before = total_funds(&b);
    b.process_orders(101);
    assert!(b.stay_in_orders.is_empty());
    assert_eq!(b.breakout_orders.len(), 1);
    assert_eq!(b.traders[0].free_funds, 8000);
    assert_eq!(b.traders[0].locked_funds, 2000);
    assert_eq!(total_funds(&b), before);
    // The swept order left its owner's order set; the resting one stayed.
    assert!(!b.traders[0].orders.contains(&swept_id));
    assert!(b.traders[0].orders.contains(&kept_id));
    // Sweeping is idempotent: the removed order is simply absent now.
    b.process_orders(101);
    assert_eq!(b.breakout_orders.len(), 1);
    assert_eq!(b.traders[0].locked_funds, 2000);
}

#[test]
fn sweep_ignores_unexpired_and_unbounded_orders() {
    let mut b = book();
    b.register_trader(pk(1), 10000);
    b.place_liquidity_order(pk(1), OrderType::StayIn, 10000, 3000, 0).unwrap();
    b.stay_in_orders[0].expiration = Some(1000);
    let orders_before = b.traders[0].orders.clone();
    b.process_orders(1000);
    // Expiry is strict: an order expiring exactly now stays, and a trader
    // owning no expired order is untouched.
    assert_eq!(b.stay_in_orders.len(), 1);
    assert_eq!(b.traders[0].orders, orders_before);
}

#[test]
fn update_base_price_feeds_later_placements() {
    let mut b = book();
    b.register_trader(pk(1), 10000);
    b.update_base_price(120000);
    assert_eq!(b.base_price, 120000);
    b.place_liquidity_order(pk(1), OrderType::StayIn, 10000, 1000, 0).unwrap();
    assert_eq!(b.stay_in_orders[0].base_price, 120000);
}

#[test]
fn books_stay_sorted_by_width_then_time() {
    let mut b = book();
    b.register_trader(pk(1), 100000);
    b.place_liquidity_order(pk(1), OrderType::StayIn, 30000, 100, 5).unwrap();
    b.place_liquidity_order(pk(1), OrderType::StayIn, 10000, 100, 9).unwrap();
    b.place_liquidity_order(pk(1), OrderType::StayIn, 30000, 100, 2).unwrap();
    let snapshot = b.get_stay_in_orderbook();
    assert_eq!(snapshot.len(), 3);
    assert_eq!(
        snapshot.iter().map(|o| (o.width_percentage_scaled, o.timestamp)).collect::<Vec<_>>(),
        vec![(10000, 9), (30000, 2), (30000, 5)]
    );
}

#[test]
fn aggregation_groups_by_width_in_order() {
    let mut b = book();
    b.register_trader(pk(1), 100000);
    b.place_liquidity_order(pk(1), OrderType::Breakout, 20000, 700, 0).unwrap();
    b.place_liquidity_order(pk(1), OrderType::Breakout, 10000, 300, 1).unwrap();
    b.place_liquidity_order(pk(1), OrderType::Breakout, 20000, 800, 2).unwrap();
    let agg = b.get_aggregated_orderbook(OrderType::Breakout);
    assert_eq!(agg, vec![(10000, 300), (20000, 1500)]);
    assert_eq!(b.get_aggregated_orderbook(OrderType::StayIn), vec![]);
}

#[test]
fn profitability_reads_the_orders_own_band() {
    let mut b = book();
    b.register_trader(pk(1), 10000);
    let id = b.place_liquidity_order(pk(1), OrderType::StayIn, 10000, 1000, 0).unwrap();
    let bid = b.place_liquidity_order(pk(1), OrderType::Breakout, 10000, 1000, 1).unwrap();
    // A pending order has no live band yet.
    assert_eq!(b.is_stay_in_profitable(id, 100000), Err(ErrorCode::OrderNotActive));
    assert_eq!(b.is_breakout_profitable(id, 100000), Err(ErrorCode::OrderNotFound));
    // Profitability only speaks of matched (active) orders; stage two.
    b.stay_in_orders[0].status = OrderStatus::Active;
    b.breakout_orders[0].status = OrderStatus::Active;
    assert_eq!(b.is_stay_in_profitable(id, 100000), Ok(true));
    assert_eq!(b.is_stay_in_profitable(id, 98999), Ok(false));
    assert_eq!(b.is_breakout_profitable(bid, 100000), Ok(false));
    assert_eq!(b.is_breakout_profitable(bid, 101001), Ok(true));
}

#[test]
fn conservation_across_a_full_session() {
    let mut b = book();
    b.register_trader(pk(1), 100000);
    b.register_trader(pk(2), 50000);
    b.register_trader(pk(3), 30000);
    let deposited = 180000u128;
    assert_eq!(total_funds(&b), deposited);

    b.place_liquidity_order(pk(1), OrderType::StayIn, 10000, 10000, 0).unwrap();
    b.place_liquidity_order(pk(2), OrderType::Breakout, 5000, 8000, 1).unwrap();
    assert_eq!(total_funds(&b), deposited);

    let mr = b.match_position_order(pk(3), OrderType::Breakout, 10000, 4000, 10).unwrap();
    assert_eq!(total_funds(&b), deposited);

    let cancel_id = b.breakout_orders[0].id;
    b.cancel_order(pk(2), cancel_id).unwrap();
    assert_eq!(total_funds(&b), deposited);

    let order_id = b.positions[0].order_id;
    b.settle_position(pk(3), order_id, 43200, 100000).unwrap();
    assert_eq!(total_funds(&b), deposited);

    // Claiming splits the doubled stake between taker and funder: the
    // total still does not move.
    let payout = b.claim_position(pk(3), order_id).unwrap();
    assert!(payout <= 2 * mr.trader_amount);
    assert_eq!(total_funds(&b), deposited);
}

#[test]
fn lock_invariant_holds_at_every_step() {
    let mut b = book();
    b.register_trader(pk(1), 100000);
    b.register_trader(pk(2), 50000);
    let check = |b: &PassageOrderbook| {
        for t in &b.traders {
            let orders: u128 = b
                .stay_in_orders
                .iter()
                .chain(b.breakout_orders.iter())
                .filter(|o| o.trader == t.trader)
                .map(|o| o.amount as u128)
                .sum();
            let positions: u128 = b
                .positions
                .iter()
                .filter(|p| p.status != passage::position::PositionStatus::Claimed)
                .map(|p| {
                    let mut stake = 0u128;
                    if p.user == t.trader {
                        stake += p.amount as u128;
                    }
                    if p.funder == t.trader {
                        stake += p.amount as u128;
                    }
                    stake
                })
                .sum();
            assert_eq!(t.locked_funds as u128, orders + positions);
        }
    };
    check(&b);
    b.place_liquidity_order(pk(1), OrderType::StayIn, 10000, 10000, 0).unwrap();
    check(&b);
    b.match_position_order(pk(2), OrderType::Breakout, 10000, 4000, 10).unwrap();
    check(&b);
    let order_id = b.positions[0].order_id;
    b.settle_position(pk(2), order_id, 50000, 98000).unwrap();
    check(&b);
    b.claim_position(pk(2), order_id).unwrap();
    check(&b);
    b.process_orders(1000000);
    check(&b);
}
