//! The per-asset trading venue: two ordered books of resting liquidity,
//! the positions matched out of them, and the traders' ledger entries,
//! kept together so that every operation is a single all-or-nothing state
//! transition.
//!
//! The central invariant (`wf`) ties the ledger to the books: each trader's
//! locked funds equal the sum of their resting order amounts plus their
//! exposure in unclaimed positions. Every operation preserves it, and every
//! operation but registration conserves the total of free and locked funds
//! across all traders.

use vstd::prelude::*;
use crate::errors::ErrorCode;
use crate::order::{
    AssetType, Order, OrderId, OrderStatus, OrderType, MAX_WIDTH_SCALED,
    POSITION_DURATION_SECONDS,
};
use crate::position::{PositionState, PositionStatus, PositionType, SettlementData};
use crate::payout::{spec_lower_bound, spec_outside_range, spec_payout_percentage, spec_upper_bound};
use crate::pubkey::Pubkey;
use crate::summation::{
    lemma_filter_remove_excluded, lemma_sum_by_element_bound, lemma_sum_by_insert,
    lemma_sum_by_nonneg, lemma_sum_by_push, lemma_sum_by_remove, lemma_sum_by_update, sum_by,
};
use crate::trader::TraderState;

verus! {

/// The measure of one resting order toward `pk`'s locked funds.
pub open spec fn order_measure(pk: Pubkey) -> spec_fn(Order) -> int {
    |o: Order| if o.trader == pk { o.amount as int } else { 0 }
}

/// The measure of one position toward `pk`'s locked funds: both the taker
/// and the funder keep the position's amount locked until it is claimed.
pub open spec fn position_measure(pk: Pubkey) -> spec_fn(PositionState) -> int {
    |p: PositionState| if p.status == PositionStatus::Claimed {
        0
    } else {
        (if p.user == pk { p.amount as int } else { 0 })
        + (if p.funder == pk { p.amount as int } else { 0 })
    }
}

/// Whether an order's bounded window has lapsed strictly before `now`.
pub open spec fn spec_order_expired(o: Order, now: u64) -> bool {
    match o.expiration {
        Some(e) => e < now,
        None => false,
    }
}

/// The orders a sweep at `now` keeps: those not yet expired.
pub open spec fn keep_order_fn(now: u64) -> spec_fn(Order) -> bool {
    |o: Order| !spec_order_expired(o, now)
}

/// The measure of one order toward the funds a sweep at `now` returns to
/// `pk`.
pub open spec fn expired_order_measure(pk: Pubkey, now: u64) -> spec_fn(Order) -> int {
    |o: Order| if o.trader == pk && spec_order_expired(o, now) {
        o.amount as int
    } else {
        0
    }
}

/// The total a sweep of `s` at `now` unlocks for `pk`.
pub open spec fn spec_expired_exposure(s: Seq<Order>, pk: Pubkey, now: u64) -> int {
    sum_by(s, expired_order_measure(pk, now))
}

/// Whether `s` holds an expired order of `pk` under the key `id`: a sweep
/// at `now` takes exactly these keys out of `pk`'s order set.
pub open spec fn spec_expired_owned(s: Seq<Order>, pk: Pubkey, id: OrderId, now: u64) -> bool {
    exists|x: int|
        0 <= x < s.len() && (#[trigger] s[x]).trader == pk && s[x].id == id && spec_order_expired(
            s[x],
            now,
        )
}

/// Whether `s` holds any expired order of `pk`: a sweep at `now` touches
/// no other trader's order set.
pub open spec fn spec_owns_expired(s: Seq<Order>, pk: Pubkey, now: u64) -> bool {
    exists|x: int|
        0 <= x < s.len() && (#[trigger] s[x]).trader == pk && spec_order_expired(s[x], now)
}

/// The measure of one order's amount, regardless of owner or width.
pub open spec fn full_amount_measure() -> spec_fn(Order) -> int {
    |o: Order| o.amount as int
}

/// The measure of one order's amount when it rests at width `w`.
pub open spec fn width_amount_measure(w: u64) -> spec_fn(Order) -> int {
    |o: Order| if o.width_percentage_scaled == w {
        o.amount as int
    } else {
        0
    }
}

/// The measure of one ledger entry toward the venue's total funds.
pub open spec fn trader_measure() -> spec_fn(TraderState) -> int {
    |t: TraderState| t.free_funds + t.locked_funds
}

/// Strictly increasing by the composite order key.
pub open spec fn sorted_by_id(s: Seq<Order>) -> bool {
    forall|i: int, j: int| 0 <= i < j < s.len() ==> (#[trigger] s[i]).id.lt((#[trigger] s[j]).id)
}

/// Insert `order` into a strictly sorted book at its key's place, keeping
/// the book sorted. The order's sequence number must be fresh, so its key
/// differs from every resting key.
fn insert_sorted(side: &mut Vec<Order>, order: Order) -> (k: usize)
    requires
        sorted_by_id(old(side)@),
        forall|i: int|
            0 <= i < old(side)@.len()
                ==> (#[trigger] old(side)@[i]).id.sequence_number != order.id.sequence_number,
    ensures
        k <= old(side)@.len(),
        final(side)@ == old(side)@.insert(k as int, order),
        sorted_by_id(final(side)@),
    {
        let n = side.len();
        let mut k: usize = 0;
        while k < n
            invariant
                k <= n,
                n == side@.len(),
                side@ == old(side)@,
                forall|j: int|
                    0 <= j < side@.len()
                        ==> (#[trigger] side@[j]).id.sequence_number != order.id.sequence_number,
                forall|j: int| 0 <= j < k ==> (#[trigger] side@[j]).id.lt(order.id),
            ensures
                k <= n,
                n == side@.len(),
                side@ == old(side)@,
                forall|j: int| 0 <= j < k ==> (#[trigger] side@[j]).id.lt(order.id),
                k < n ==> order.id.lt(side@[k as int].id),
            decreases n - k,
        {
            if order.id.is_before(&side[k].id) {
                break;
            }
            proof {
                OrderId::lemma_lt_total(order.id, side@[k as int].id);
                assert(side@[k as int].id != order.id);
            }
            k += 1;
        }
        proof {
            side@.insert_ensures(k as int, order);
            let t = side@.insert(k as int, order);
            assert forall|a: int, b: int| 0 <= a < b < t.len() implies
                (#[trigger] t[a]).id.lt((#[trigger] t[b]).id) by {
                if a < k && b < k {
                    assert(t[a] == side@[a] && t[b] == side@[b]);
                } else if a < k && b == k {
                    assert(t[a] == side@[a]);
                } else if a < k && b > k {
                    assert(t[a] == side@[a] && t[b] == side@[b - 1]);
                } else if a == k && b > k {
                    assert(t[b] == side@[b - 1]);
                    if k < side@.len() {
                        if b - 1 > k {
                            assert(side@[k as int].id.lt(side@[b - 1].id));
                        }
                    }
                } else {
                    assert(t[a] == side@[a - 1] && t[b] == side@[b - 1]);
                }
            }
        }
        side.insert(k, order);
        k
    }

/// Removing an element keeps a book strictly sorted.
proof fn lemma_sorted_remove(s: Seq<Order>, j: int)
    requires
        sorted_by_id(s),
        0 <= j < s.len(),
    ensures
        sorted_by_id(s.remove(j)),
{
    s.remove_ensures(j);
    let t = s.remove(j);
    assert forall|a: int, b: int| 0 <= a < b < t.len() implies
        (#[trigger] t[a]).id.lt((#[trigger] t[b]).id) by {
        let a0 = if a < j { a } else { a + 1 };
        let b0 = if b < j { b } else { b + 1 };
        assert(t[a] == s[a0] && t[b] == s[b0]);
        assert(s[a0].id.lt(s[b0].id));
    }
}

/// Whether some order in `s` carries the key `id`.
pub open spec fn contains_order(s: Seq<Order>, id: OrderId) -> bool {
    exists|j: int| 0 <= j < s.len() && (#[trigger] s[j]).id == id
}

/// Find the order with key `id` in a book.
fn find_order(side: &Vec<Order>, id: &OrderId) -> (r: Option<usize>)
    ensures
        match r {
            Some(j) => j < side@.len() && side@[j as int].id == *id,
            None => !contains_order(side@, *id),
        },
{
    let n = side.len();
    let mut j: usize = 0;
    while j < n
        invariant
            j <= n,
            n == side@.len(),
            forall|x: int| 0 <= x < j ==> (#[trigger] side@[x]).id != *id,
        decreases n - j,
    {
        if side[j].id == *id {
            return Some(j);
        }
        j += 1;
    }
    None
}

/// Copy a book's orders into a fresh vector, in order.
fn copy_orders(side: &Vec<Order>) -> (r: Vec<Order>)
    ensures
        r@ == side@,
{
    let n = side.len();
    let mut r: Vec<Order> = Vec::new();
    let mut j: usize = 0;
    while j < n
        invariant
            j <= n,
            n == side@.len(),
            r@ == side@.take(j as int),
        decreases n - j,
    {
        r.push(side[j]);
        proof {
            assert(side@.take(j + 1).drop_last() == side@.take(j as int));
            assert(side@.take(j + 1).last() == side@[j as int]);
            assert(r@ =~= side@.take(j + 1));
        }
        j += 1;
    }
    proof {
        assert(side@.take(n as int) == side@);
    }
    r
}

/// The index of the order with key `id` (meaningful when present).
pub open spec fn order_index_of(s: Seq<Order>, id: OrderId) -> int {
    choose|j: int| 0 <= j < s.len() && (#[trigger] s[j]).id == id
}

/// In a strictly sorted book, a key determines its index.
proof fn lemma_order_index_unique(s: Seq<Order>, j: int)
    requires
        sorted_by_id(s),
        0 <= j < s.len(),
    ensures
        order_index_of(s, s[j].id) == j,
        contains_order(s, s[j].id),
{
    assert(contains_order(s, s[j].id));
    let w = order_index_of(s, s[j].id);
    if w != j {
        if w < j {
            assert(s[w].id.lt(s[j].id));
        } else {
            assert(s[j].id.lt(s[w].id));
        }
    }
}

/// Whether a resting order can cover a taker's request: it must still be
/// pending, hold at least the requested amount, and its width must be
/// compatible — a StayIn request accepts narrower-or-equal Breakout
/// liquidity, a Breakout request accepts wider-or-equal StayIn liquidity.
/// The inequality directions are a fixed risk-transfer contract, not a
/// tunable.
pub open spec fn spec_match_candidate(
    o: Order,
    requested: OrderType,
    width_percentage_scaled: u64,
    amount: u64,
) -> bool {
    &&& o.status == OrderStatus::Pending
    &&& o.amount >= amount
    &&& match requested {
        OrderType::StayIn => o.width_percentage_scaled <= width_percentage_scaled,
        OrderType::Breakout => o.width_percentage_scaled >= width_percentage_scaled,
    }
}

/// The strict matching preference between two candidate keys: a StayIn
/// taker prefers the tightest liquidity, a Breakout taker the widest; ties
/// break FIFO by timestamp, then by sequence number. A deterministic total
/// order, not first-found.
pub open spec fn spec_prefers(requested: OrderType, a: OrderId, b: OrderId) -> bool {
    match requested {
        OrderType::StayIn => a.lt(b),
        OrderType::Breakout => a.width_percentage_scaled > b.width_percentage_scaled
            || (a.width_percentage_scaled == b.width_percentage_scaled && a.timestamp
                < b.timestamp)
            || (a.width_percentage_scaled == b.width_percentage_scaled && a.timestamp
                == b.timestamp && a.sequence_number < b.sequence_number),
    }
}

/// The order at `b` is a candidate and no candidate beats it.
pub open spec fn is_best_candidate(
    s: Seq<Order>,
    requested: OrderType,
    width_percentage_scaled: u64,
    amount: u64,
    b: int,
) -> bool {
    &&& 0 <= b < s.len()
    &&& spec_match_candidate(s[b], requested, width_percentage_scaled, amount)
    &&& forall|x: int|
        0 <= x < s.len() && spec_match_candidate(
            #[trigger] s[x],
            requested,
            width_percentage_scaled,
            amount,
        ) ==> x == b || spec_prefers(requested, s[b].id, s[x].id)
}

/// Matching determinism: over a book with distinct keys, at most one index
/// is the best candidate, whatever order the book is stored or walked in.
pub proof fn lemma_match_deterministic(
    s: Seq<Order>,
    requested: OrderType,
    width_percentage_scaled: u64,
    amount: u64,
    b1: int,
    b2: int,
)
    requires
        sorted_by_id(s),
        is_best_candidate(s, requested, width_percentage_scaled, amount, b1),
        is_best_candidate(s, requested, width_percentage_scaled, amount, b2),
    ensures
        b1 == b2,
{
    if b1 != b2 {
        assert(spec_prefers(requested, s[b1].id, s[b2].id));
        assert(spec_prefers(requested, s[b2].id, s[b1].id));
    }
}

/// Decide the strict matching preference.
fn prefers(requested: OrderType, a: &OrderId, b: &OrderId) -> (r: bool)
    ensures
        r == spec_prefers(requested, *a, *b),
{
    match requested {
        OrderType::StayIn => a.is_before(b),
        OrderType::Breakout => {
            if a.width_percentage_scaled != b.width_percentage_scaled {
                a.width_percentage_scaled > b.width_percentage_scaled
            } else if a.timestamp != b.timestamp {
                a.timestamp < b.timestamp
            } else {
                a.sequence_number < b.sequence_number
            }
        },
    }
}

/// Scan a book for the best candidate under the matching preference.
fn select_best_candidate(
    side: &Vec<Order>,
    requested: OrderType,
    width_percentage_scaled: u64,
    amount: u64,
) -> (r: Option<usize>)
    requires
        sorted_by_id(side@),
    ensures
        match r {
            Some(b) => is_best_candidate(
                side@,
                requested,
                width_percentage_scaled,
                amount,
                b as int,
            ),
            None => forall|x: int|
                0 <= x < side@.len() ==> !spec_match_candidate(
                    #[trigger] side@[x],
                    requested,
                    width_percentage_scaled,
                    amount,
                ),
        },
{
    let n = side.len();
    let mut best: Option<usize> = None;
    let mut j: usize = 0;
    while j < n
        invariant
            j <= n,
            n == side@.len(),
            sorted_by_id(side@),
            match best {
                Some(b) => b < j && spec_match_candidate(
                    side@[b as int],
                    requested,
                    width_percentage_scaled,
                    amount,
                ) && forall|x: int|
                    0 <= x < j && spec_match_candidate(
                        #[trigger] side@[x],
                        requested,
                        width_percentage_scaled,
                        amount,
                    ) ==> x == b as int || spec_prefers(requested, side@[b as int].id, side@[x].id),
                None => forall|x: int|
                    0 <= x < j ==> !spec_match_candidate(
                        #[trigger] side@[x],
                        requested,
                        width_percentage_scaled,
                        amount,
                    ),
            },
        decreases n - j,
    {
        let o = &side[j];
        let width_ok = match requested {
            OrderType::StayIn => o.width_percentage_scaled <= width_percentage_scaled,
            OrderType::Breakout => o.width_percentage_scaled >= width_percentage_scaled,
        };
        let pending = o.status == OrderStatus::Pending;
        if width_ok && pending && o.amount >= amount {
            match best {
                None => {
                    best = Some(j);
                },
                Some(b) => {
                    if prefers(requested, &o.id, &side[b].id) {
                        best = Some(j);
                    } else {
                        proof {
                            let a_id = side@[j as int].id;
                            let b_id = side@[b as int].id;
                            assert(b_id.lt(a_id));
                            assert(spec_prefers(requested, b_id, a_id));
                        }
                    }
                },
            }
        }
        j += 1;
    }
    best
}

/// The display aggregation of a book, defined order by order: walking the
/// book in its sorted order, each order either extends the entry of its
/// width group or opens a new one. On a sorted book this yields one entry
/// per distinct width, in increasing width order, totalling that width's
/// amounts.
pub open spec fn spec_aggregate(s: Seq<Order>) -> Seq<(u64, u64)>
    decreases s.len(),
{
    if s.len() == 0 {
        Seq::<(u64, u64)>::empty()
    } else {
        let rest = spec_aggregate(s.drop_last());
        let o = s.last();
        if rest.len() > 0 && rest.last().0 == o.width_percentage_scaled {
            rest.update(
                rest.len() - 1,
                (o.width_percentage_scaled, (rest.last().1 + o.amount) as u64),
            )
        } else {
            rest.push((o.width_percentage_scaled, o.amount))
        }
    }
}

/// What a successful match reports back to the caller.
#[derive(Debug, Clone, Copy)]
pub struct MatchResult {
    /// The taker's newly locked stake.
    pub trader_amount: u64,
    /// How much of the funder's resting order was consumed.
    pub funder_amount: u64,
    /// The matched (funder's) width, scaled.
    pub width_percentage_scaled: u64,
    /// The taker.
    pub trader: Pubkey,
    /// The liquidity provider whose order was hit.
    pub funder: Pubkey,
    /// The reference price the band was resolved from.
    pub base_price: u64,
    /// When the resulting position's window lapses.
    pub expiration: u64,
}

/// The per-asset order book, position store, and trader ledger.
#[derive(Debug)]
pub struct PassageOrderbook {
    /// Resting StayIn liquidity, ordered by `OrderId`.
    pub stay_in_orders: Vec<Order>,
    /// Resting Breakout liquidity, ordered by `OrderId`.
    pub breakout_orders: Vec<Order>,
    /// Every position ever matched on this book, including closed ones.
    pub positions: Vec<PositionState>,
    /// Ledger entries of the registered traders, one per trader.
    pub traders: Vec<TraderState>,
    /// Current reference price, written only by the oracle-feeding call.
    pub base_price: u64,
    /// Next unassigned order sequence number; strictly increasing.
    pub next_sequence_number: u64,
    /// The asset this book trades.
    pub asset_type: AssetType,
    /// Smallest width a placed or matched order may use, scaled.
    pub min_percentage_width: u64,
    /// Largest width a placed or matched order may use, scaled.
    pub max_percentage_width: u64,
}

impl PassageOrderbook {
    /// Whether `pk` has a ledger entry.
    pub open spec fn trader_registered(self, pk: Pubkey) -> bool {
        exists|i: int|
            0 <= i < self.traders@.len() && (#[trigger] self.traders@[i]).trader == pk
    }

    /// The index of `pk`'s ledger entry (meaningful when registered).
    pub open spec fn trader_index(self, pk: Pubkey) -> int {
        choose|i: int| 0 <= i < self.traders@.len() && (#[trigger] self.traders@[i]).trader == pk
    }

    /// `pk`'s ledger entry (meaningful when registered).
    pub open spec fn trader_entry(self, pk: Pubkey) -> TraderState {
        self.traders@[self.trader_index(pk)]
    }

    /// `pk`'s free funds; 0 when unregistered.
    pub open spec fn free_of(self, pk: Pubkey) -> int {
        if self.trader_registered(pk) {
            self.trader_entry(pk).free_funds as int
        } else {
            0
        }
    }

    /// `pk`'s locked funds; 0 when unregistered.
    pub open spec fn locked_of(self, pk: Pubkey) -> int {
        if self.trader_registered(pk) {
            self.trader_entry(pk).locked_funds as int
        } else {
            0
        }
    }

    /// Everything the books and positions hold against `pk`: the amounts of
    /// their resting orders plus their exposure in unclaimed positions.
    pub open spec fn exposure(self, pk: Pubkey) -> int {
        sum_by(self.stay_in_orders@, order_measure(pk))
        + sum_by(self.breakout_orders@, order_measure(pk))
        + sum_by(self.positions@, position_measure(pk))
    }

    /// The venue's total funds, free and locked, over all traders. Only
    /// registration (an external deposit) changes it.
    pub open spec fn total_funds(self) -> int {
        sum_by(self.traders@, trader_measure())
    }

    /// Well-formedness of one book side: orders are internally consistent,
    /// still pending (a matched or cancelled order leaves its book), carry
    /// fresh sequence numbers, belong to registered traders, and are
    /// strictly sorted by their composite key.
    pub open spec fn side_wf(self, s: Seq<Order>) -> bool {
        &&& forall|i: int| 0 <= i < s.len() ==> (#[trigger] s[i]).wf()
        &&& forall|i: int| 0 <= i < s.len() ==> (#[trigger] s[i]).status == OrderStatus::Pending
        &&& forall|i: int|
            0 <= i < s.len() ==> (#[trigger] s[i]).id.sequence_number < self.next_sequence_number
        &&& forall|i: int| 0 <= i < s.len() ==> self.trader_registered((#[trigger] s[i]).trader)
        &&& forall|i: int, j: int|
            0 <= i < j < s.len() ==> (#[trigger] s[i]).id.lt((#[trigger] s[j]).id)
    }

    /// Well-formedness of one stored position.
    pub open spec fn position_wf(self, p: PositionState) -> bool {
        &&& p.wf()
        &&& p.order_id < self.next_sequence_number
        &&& self.trader_registered(p.user)
        &&& self.trader_registered(p.funder)
    }

    /// The aggregate invariant. Besides per-record consistency it states
    /// the lock invariant: every trader's locked funds equal their exposure
    /// in the books and the unclaimed positions.
    pub open spec fn wf(self) -> bool {
        &&& self.side_wf(self.stay_in_orders@)
        &&& self.side_wf(self.breakout_orders@)
        &&& forall|i: int, j: int|
            0 <= i < self.stay_in_orders@.len() && 0 <= j < self.breakout_orders@.len()
                ==> (#[trigger] self.stay_in_orders@[i]).id.sequence_number
                    != (#[trigger] self.breakout_orders@[j]).id.sequence_number
        &&& forall|i: int|
            0 <= i < self.positions@.len() ==> self.position_wf(#[trigger] self.positions@[i])
        &&& forall|i: int, j: int|
            0 <= i < j < self.positions@.len()
                ==> (#[trigger] self.positions@[i]).order_id
                    != (#[trigger] self.positions@[j]).order_id
        &&& forall|i: int, j: int|
            0 <= i < j < self.traders@.len()
                ==> (#[trigger] self.traders@[i]).trader != (#[trigger] self.traders@[j]).trader
        &&& forall|i: int| 0 <= i < self.traders@.len() ==> (#[trigger] self.traders@[i]).wf()
        &&& forall|i: int|
            0 <= i < self.traders@.len()
                ==> (#[trigger] self.traders@[i]).locked_funds
                    == self.exposure(self.traders@[i].trader)
        &&& self.base_price <= u64::MAX / 2
        &&& self.max_percentage_width <= MAX_WIDTH_SCALED
        &&& self.next_sequence_number >= 1
    }

    /// An empty book for `asset_type` at the given reference price and
    /// width band.
    pub fn new(
        asset_type: AssetType,
        base_price: u64,
        min_percentage_width: u64,
        max_percentage_width: u64,
    ) -> (r: PassageOrderbook)
        requires
            base_price <= u64::MAX / 2,
            max_percentage_width <= MAX_WIDTH_SCALED,
        ensures
            r.wf(),
            r.stay_in_orders@ =~= Seq::<Order>::empty(),
            r.breakout_orders@ =~= Seq::<Order>::empty(),
            r.positions@ =~= Seq::<PositionState>::empty(),
            r.traders@ =~= Seq::<TraderState>::empty(),
            r.base_price == base_price,
            r.next_sequence_number == 1,
            r.asset_type == asset_type,
            r.min_percentage_width == min_percentage_width,
            r.max_percentage_width == max_percentage_width,
            r.total_funds() == 0,
    {
        PassageOrderbook {
            stay_in_orders: Vec::new(),
            breakout_orders: Vec::new(),
            positions: Vec::new(),
            traders: Vec::new(),
            base_price,
            next_sequence_number: 1,
            asset_type,
            min_percentage_width,
            max_percentage_width,
        }
    }

    /// Find `trader`'s ledger entry.
    fn find_trader_index(&self, trader: &Pubkey) -> (r: Option<usize>)
        ensures
            match r {
                Some(i) => i < self.traders@.len() && self.traders@[i as int].trader == *trader,
                None => !self.trader_registered(*trader),
            },
    {
        let n = self.traders.len();
        let mut i: usize = 0;
        while i < n
            invariant
                i <= n,
                n == self.traders@.len(),
                forall|j: int| 0 <= j < i ==> (#[trigger] self.traders@[j]).trader != *trader,
            decreases n - i,
        {
            if self.traders[i].trader == *trader {
                return Some(i);
            }
            i += 1;
        }
        None
    }

    /// Register `trader`, or top up an existing registration: deposits
    /// `funds` into the trader's free balance. This is the only operation
    /// that changes the venue's total funds.
    pub fn register_trader(&mut self, trader: Pubkey, funds: u64)
        requires
            old(self).wf(),
            old(self).free_of(trader) + old(self).locked_of(trader) + funds <= u64::MAX,
        ensures
            final(self).wf(),
            final(self).trader_registered(trader),
            final(self).free_of(trader) == old(self).free_of(trader) + funds,
            final(self).locked_of(trader) == old(self).locked_of(trader),
            forall|pk: Pubkey|
                pk != trader ==> final(self).free_of(pk) == old(self).free_of(pk)
                    && final(self).locked_of(pk) == old(self).locked_of(pk),
            final(self).total_funds() == old(self).total_funds() + funds,
            old(self).trader_registered(trader) ==> forall|pk: Pubkey|
                final(self).orders_of(pk) == old(self).orders_of(pk),
            !old(self).trader_registered(trader) ==> final(self).orders_of(trader)
                == Seq::<OrderId>::empty() && (forall|pk: Pubkey|
                pk != trader ==> final(self).orders_of(pk) == old(self).orders_of(pk)),
            final(self).stay_in_orders == old(self).stay_in_orders,
            final(self).breakout_orders == old(self).breakout_orders,
            final(self).positions == old(self).positions,
            final(self).base_price == old(self).base_price,
            final(self).next_sequence_number == old(self).next_sequence_number,
            final(self).asset_type == old(self).asset_type,
            final(self).min_percentage_width == old(self).min_percentage_width,
            final(self).max_percentage_width == old(self).max_percentage_width,
    {
        let found = self.find_trader_index(&trader);
        match found {
            Some(i) => {
                proof {
                    self.lemma_trader_entry_at(i as int);
                }
                let entry = &mut self.traders[i];
                entry.free_funds = entry.free_funds + funds;
                proof {
                    self.lemma_register_update(*old(self), i as int, trader, funds);
                }
            },
            None => {
                let entry = TraderState::new(trader, funds);
                self.traders.push(entry);
                proof {
                    self.lemma_register_push(*old(self), trader, funds);
                }
            },
        }
    }

    /// A ledger entry's index determines the spec-level lookup: entry `i`
    /// is the entry of its own trader key.
    proof fn lemma_trader_entry_at(self, i: int)
        requires
            0 <= i < self.traders@.len(),
            forall|a: int, b: int|
                0 <= a < b < self.traders@.len()
                    ==> (#[trigger] self.traders@[a]).trader != (#[trigger] self.traders@[b]).trader,
        ensures
            self.trader_registered(self.traders@[i].trader),
            self.trader_index(self.traders@[i].trader) == i,
            self.trader_entry(self.traders@[i].trader) == self.traders@[i],
    {
        let pk = self.traders@[i].trader;
        assert(self.trader_registered(pk));
        let j = self.trader_index(pk);
        if j != i {
            if j < i {
                assert(self.traders@[j].trader != self.traders@[i].trader);
            } else {
                assert(self.traders@[i].trader != self.traders@[j].trader);
            }
        }
    }

    /// Relate the book after a single ledger-entry update to the book
    /// before it: registration bookkeeping for the top-up branch.
    proof fn lemma_register_update(self, prev: PassageOrderbook, i: int, trader: Pubkey, funds: u64)
        requires
            prev.wf(),
            0 <= i < prev.traders@.len(),
            prev.traders@[i].trader == trader,
            prev.traders@[i].free_funds + prev.traders@[i].locked_funds + funds <= u64::MAX,
            self == (PassageOrderbook {
                traders: self.traders,
                ..prev
            }),
            self.traders@ == prev.traders@.update(i, TraderState {
                free_funds: (prev.traders@[i].free_funds + funds) as u64,
                ..prev.traders@[i]
            }),
        ensures
            self.wf(),
            self.trader_registered(trader),
            self.free_of(trader) == prev.free_of(trader) + funds,
            self.locked_of(trader) == prev.locked_of(trader),
            forall|pk: Pubkey|
                pk != trader ==> self.free_of(pk) == prev.free_of(pk)
                    && self.locked_of(pk) == prev.locked_of(pk),
            forall|pk: Pubkey| self.orders_of(pk) == prev.orders_of(pk),
            self.total_funds() == prev.total_funds() + funds,
    {
        let nt = TraderState {
            free_funds: (prev.traders@[i].free_funds + funds) as u64,
            ..prev.traders@[i]
        };
        // Registration status of every key is unchanged.
        assert forall|pk: Pubkey| self.trader_registered(pk) <==> prev.trader_registered(pk) by {
            if prev.trader_registered(pk) {
                let w = prev.trader_index(pk);
                assert(self.traders@[w].trader == pk);
            }
            if self.trader_registered(pk) {
                let w = choose|k: int|
                    0 <= k < self.traders@.len() && (#[trigger] self.traders@[k]).trader == pk;
                assert(prev.traders@[w].trader == pk);
            }
        }
        // Exposures do not depend on the ledger entries.
        assert forall|pk: Pubkey| self.exposure(pk) == prev.exposure(pk) by {}
        prev.lemma_trader_entry_at(i);
        self.lemma_trader_entry_at(i);
        lemma_sum_by_update(prev.traders@, i, trader_measure(), nt);
        assert forall|pk: Pubkey| pk != trader implies self.free_of(pk) == prev.free_of(pk)
            && self.locked_of(pk) == prev.locked_of(pk) by {
            if prev.trader_registered(pk) {
                let w = prev.trader_index(pk);
                assert(self.traders@[w].trader == pk);
                prev.lemma_trader_entry_at(w);
                self.lemma_trader_entry_at(w);
            }
        }
        // A top-up touches no order set.
        assert forall|pk: Pubkey| self.orders_of(pk) == prev.orders_of(pk) by {
            if prev.trader_registered(pk) {
                let w = prev.trader_index(pk);
                assert(self.traders@[w].trader == pk);
                prev.lemma_trader_entry_at(w);
                self.lemma_trader_entry_at(w);
                assert(self.traders@[w].orders == prev.traders@[w].orders);
            }
        }
        assert forall|k: int| 0 <= k < self.traders@.len()
            implies (#[trigger] self.traders@[k]).locked_funds
                == self.exposure(self.traders@[k].trader) by {
            assert(self.traders@[k].trader == prev.traders@[k].trader);
            assert(self.traders@[k].locked_funds == prev.traders@[k].locked_funds);
        }
    }

    /// Registration bookkeeping for the fresh-entry branch.
    proof fn lemma_register_push(self, prev: PassageOrderbook, trader: Pubkey, funds: u64)
        requires
            prev.wf(),
            !prev.trader_registered(trader),
            self == (PassageOrderbook {
                traders: self.traders,
                ..prev
            }),
            self.traders@ == prev.traders@.push(self.traders@.last()),
            self.traders@.last().trader == trader,
            self.traders@.last().free_funds == funds,
            self.traders@.last().locked_funds == 0,
            self.traders@.last().orders@ == Seq::<OrderId>::empty(),
        ensures
            self.wf(),
            self.trader_registered(trader),
            self.free_of(trader) == prev.free_of(trader) + funds,
            self.locked_of(trader) == prev.locked_of(trader),
            forall|pk: Pubkey|
                pk != trader ==> self.free_of(pk) == prev.free_of(pk)
                    && self.locked_of(pk) == prev.locked_of(pk),
            self.orders_of(trader) == Seq::<OrderId>::empty(),
            forall|pk: Pubkey| pk != trader ==> self.orders_of(pk) == prev.orders_of(pk),
            self.total_funds() == prev.total_funds() + funds,
    {
        let n = prev.traders@.len() as int;
        let nt = self.traders@[n];
        assert(nt.trader == trader);
        // Every previously registered key stays registered, and `trader` is new.
        assert forall|pk: Pubkey| prev.trader_registered(pk) implies self.trader_registered(pk) by {
            let w = prev.trader_index(pk);
            assert(self.traders@[w].trader == pk);
        }
        assert(self.trader_registered(trader)) by {
            assert(self.traders@[n].trader == trader);
        }
        assert forall|pk: Pubkey| self.trader_registered(pk) && pk != trader
            implies prev.trader_registered(pk) by {
            let w = choose|k: int|
                0 <= k < self.traders@.len() && (#[trigger] self.traders@[k]).trader == pk;
            assert(w < n);
            assert(prev.traders@[w].trader == pk);
        }
        // Exposures do not depend on the ledger entries.
        assert forall|pk: Pubkey| self.exposure(pk) == prev.exposure(pk) by {}
        lemma_sum_by_push(prev.traders@, trader_measure(), nt);
        self.lemma_trader_entry_at(n);
        assert(self.free_of(trader) == funds);
        assert(prev.free_of(trader) == 0);
        assert forall|pk: Pubkey| pk != trader implies self.free_of(pk) == prev.free_of(pk)
            && self.locked_of(pk) == prev.locked_of(pk) by {
            if prev.trader_registered(pk) {
                let w = prev.trader_index(pk);
                assert(self.traders@[w].trader == pk);
                prev.lemma_trader_entry_at(w);
                self.lemma_trader_entry_at(w);
            }
        }
        // The fresh entry starts with an empty order set; nobody else's
        // set is touched.
        assert(self.orders_of(trader) == Seq::<OrderId>::empty());
        assert forall|pk: Pubkey| pk != trader implies self.orders_of(pk)
            == prev.orders_of(pk) by {
            if prev.trader_registered(pk) {
                let w = prev.trader_index(pk);
                assert(self.traders@[w].trader == pk);
                prev.lemma_trader_entry_at(w);
                self.lemma_trader_entry_at(w);
                assert(self.traders@[w].orders == prev.traders@[w].orders);
            }
        }
        // The new trader owns nothing in the books: their exposure is 0.
        assert(self.exposure(trader) == 0) by {
            prev.lemma_unregistered_exposure_zero(trader);
        }
        assert forall|k: int| 0 <= k < self.traders@.len()
            implies (#[trigger] self.traders@[k]).locked_funds
                == self.exposure(self.traders@[k].trader) by {
            if k < n {
                assert(self.traders@[k] == prev.traders@[k]);
            }
        }
    }

    /// A key without a ledger entry owns nothing: every order and position
    /// belongs to a registered trader, so an unregistered key's exposure is
    /// zero.
    proof fn lemma_unregistered_exposure_zero(self, pk: Pubkey)
        requires
            self.wf(),
            !self.trader_registered(pk),
        ensures
            self.exposure(pk) == 0,
    {
        let fo = order_measure(pk);
        let fp = position_measure(pk);
        assert forall|i: int| 0 <= i < self.stay_in_orders@.len()
            implies #[trigger] fo(self.stay_in_orders@[i]) == 0 by {
            assert(self.trader_registered(self.stay_in_orders@[i].trader));
        }
        assert forall|i: int| 0 <= i < self.breakout_orders@.len()
            implies #[trigger] fo(self.breakout_orders@[i]) == 0 by {
            assert(self.trader_registered(self.breakout_orders@[i].trader));
        }
        assert forall|i: int| 0 <= i < self.positions@.len()
            implies #[trigger] fp(self.positions@[i]) == 0 by {
            assert(self.position_wf(self.positions@[i]));
        }
        crate::summation::lemma_sum_by_zero(self.stay_in_orders@, fo);
        crate::summation::lemma_sum_by_zero(self.breakout_orders@, fo);
        crate::summation::lemma_sum_by_zero(self.positions@, fp);
    }

    /// Ids of the orders `pk` owns, as recorded in their ledger entry;
    /// empty when unregistered.
    pub open spec fn orders_of(self, pk: Pubkey) -> Seq<OrderId> {
        if self.trader_registered(pk) {
            self.trader_entry(pk).orders@
        } else {
            Seq::<OrderId>::empty()
        }
    }

    /// Replacing one ledger entry with one for the same trader keeps every
    /// key's registration, and every other trader's entry.
    proof fn lemma_ledger_update_same_key(self, prev: PassageOrderbook, i: int)
        requires
            0 <= i < prev.traders@.len(),
            forall|a: int, b: int|
                0 <= a < b < prev.traders@.len()
                    ==> (#[trigger] prev.traders@[a]).trader
                        != (#[trigger] prev.traders@[b]).trader,
            self.traders@ == prev.traders@.update(i, self.traders@[i]),
            self.traders@[i].trader == prev.traders@[i].trader,
        ensures
            forall|pk: Pubkey| self.trader_registered(pk) <==> prev.trader_registered(pk),
            forall|a: int, b: int|
                0 <= a < b < self.traders@.len()
                    ==> (#[trigger] self.traders@[a]).trader
                        != (#[trigger] self.traders@[b]).trader,
            self.trader_index(prev.traders@[i].trader) == i,
            forall|pk: Pubkey|
                pk != prev.traders@[i].trader && prev.trader_registered(pk)
                    ==> self.trader_entry(pk) == prev.trader_entry(pk)
                        && self.trader_index(pk) == prev.trader_index(pk),
    {
        assert forall|pk: Pubkey|
            self.trader_registered(pk) <==> prev.trader_registered(pk) by {
            if prev.trader_registered(pk) {
                let w = prev.trader_index(pk);
                if w == i && pk == prev.traders@[i].trader {
                    assert(self.traders@[i].trader == pk);
                } else {
                    assert(self.traders@[w].trader == pk);
                }
            }
            if self.trader_registered(pk) {
                let w = choose|k: int|
                    0 <= k < self.traders@.len() && (#[trigger] self.traders@[k]).trader == pk;
                assert(prev.traders@[w].trader == pk || w == i);
                if w == i {
                    assert(prev.traders@[i].trader == pk);
                }
            }
        }
        self.lemma_trader_entry_at(i);
        assert forall|pk: Pubkey|
            pk != prev.traders@[i].trader && prev.trader_registered(pk)
            implies self.trader_entry(pk) == prev.trader_entry(pk)
                && self.trader_index(pk) == prev.trader_index(pk) by {
            let w = prev.trader_index(pk);
            prev.lemma_trader_entry_at(w);
            assert(w != i);
            assert(self.traders@[w].trader == pk);
            self.lemma_trader_entry_at(w);
        }
    }

    /// The record the book writes for a placement accepted now.
    pub open spec fn spec_placed_order(
        self,
        trader: Pubkey,
        order_type: OrderType,
        width_percentage_scaled: u64,
        amount: u64,
        now: u64,
    ) -> Order {
        Order {
            id: OrderId {
                width_percentage_scaled,
                timestamp: now,
                sequence_number: self.next_sequence_number,
            },
            order_type,
            asset_type: self.asset_type,
            width_percentage_scaled,
            amount,
            trader,
            base_price: self.base_price,
            timestamp: now,
            status: OrderStatus::Pending,
            expiration: None,
        }
    }

    /// Assign the next composite order key: the caller's width, the
    /// injected clock reading, and a fresh sequence number.
    pub fn generate_order_id(&mut self, width_percentage_scaled: u64, now: u64) -> (r: OrderId)
        requires
            old(self).next_sequence_number < u64::MAX,
        ensures
            r == (OrderId {
                width_percentage_scaled,
                timestamp: now,
                sequence_number: old(self).next_sequence_number,
            }),
            *final(self) == (PassageOrderbook {
                next_sequence_number: (old(self).next_sequence_number + 1) as u64,
                ..*old(self)
            }),
    {
        let sequence_number = self.next_sequence_number;
        self.next_sequence_number += 1;
        OrderId { width_percentage_scaled, timestamp: now, sequence_number }
    }

    /// Place a resting liquidity order: validate the width, lock the
    /// funder's stake, and file the order in its side's book under a fresh
    /// key. All-or-nothing: on any error the book is unchanged.
    pub fn place_liquidity_order(
        &mut self,
        trader: Pubkey,
        order_type: OrderType,
        width_percentage_scaled: u64,
        amount: u64,
        now: u64,
    ) -> (result: Result<OrderId, ErrorCode>)
        requires
            old(self).wf(),
            old(self).next_sequence_number < u64::MAX,
            amount > 0,
        ensures
            final(self).wf(),
            !(old(self).min_percentage_width <= width_percentage_scaled
                <= old(self).max_percentage_width) ==> result
                == Err::<OrderId, ErrorCode>(ErrorCode::InvalidWidthPercentage)
                && *final(self) == *old(self),
            old(self).min_percentage_width <= width_percentage_scaled
                <= old(self).max_percentage_width && !old(self).trader_registered(trader)
                ==> result == Err::<OrderId, ErrorCode>(ErrorCode::TraderNotRegistered)
                    && *final(self) == *old(self),
            old(self).min_percentage_width <= width_percentage_scaled
                <= old(self).max_percentage_width && old(self).trader_registered(trader)
                && old(self).free_of(trader) < amount ==> result
                == Err::<OrderId, ErrorCode>(ErrorCode::InsufficientFunds)
                && *final(self) == *old(self),
            old(self).min_percentage_width <= width_percentage_scaled
                <= old(self).max_percentage_width && old(self).trader_registered(trader)
                && old(self).free_of(trader) >= amount ==> {
                let placed = old(self).spec_placed_order(
                    trader,
                    order_type,
                    width_percentage_scaled,
                    amount,
                    now,
                );
                &&& result == Ok::<OrderId, ErrorCode>(placed.id)
                &&& final(self).next_sequence_number == old(self).next_sequence_number + 1
                &&& (order_type == OrderType::StayIn ==> (exists|k: int|
                    0 <= k <= old(self).stay_in_orders@.len()
                    && final(self).stay_in_orders@
                        == old(self).stay_in_orders@.insert(k, placed))
                    && final(self).breakout_orders == old(self).breakout_orders)
                &&& (order_type == OrderType::Breakout ==> (exists|k: int|
                    0 <= k <= old(self).breakout_orders@.len()
                    && final(self).breakout_orders@
                        == old(self).breakout_orders@.insert(k, placed))
                    && final(self).stay_in_orders == old(self).stay_in_orders)
                &&& final(self).positions == old(self).positions
                &&& final(self).free_of(trader) == old(self).free_of(trader) - amount
                &&& final(self).locked_of(trader) == old(self).locked_of(trader) + amount
                &&& final(self).orders_of(trader) == old(self).orders_of(trader).push(placed.id)
                &&& forall|pk: Pubkey|
                    pk != trader ==> final(self).free_of(pk) == old(self).free_of(pk)
                        && final(self).locked_of(pk) == old(self).locked_of(pk)
                        && final(self).orders_of(pk) == old(self).orders_of(pk)
                &&& final(self).total_funds() == old(self).total_funds()
                &&& final(self).base_price == old(self).base_price
                &&& final(self).asset_type == old(self).asset_type
                &&& final(self).min_percentage_width == old(self).min_percentage_width
                &&& final(self).max_percentage_width == old(self).max_percentage_width
            },
    {
        if width_percentage_scaled < self.min_percentage_width
            || width_percentage_scaled > self.max_percentage_width {
            return Err(ErrorCode::InvalidWidthPercentage);
        }
        let found = self.find_trader_index(&trader);
        let i = match found {
            None => {
                return Err(ErrorCode::TraderNotRegistered);
            },
            Some(i) => i,
        };
        proof {
            self.lemma_trader_entry_at(i as int);
        }
        if self.traders[i].free_funds < amount {
            return Err(ErrorCode::InsufficientFunds);
        }
        let ghost prev = *self;
        let order_id = self.generate_order_id(width_percentage_scaled, now);
        let order = Order {
            id: order_id,
            order_type,
            asset_type: self.asset_type,
            width_percentage_scaled,
            amount,
            trader,
            base_price: self.base_price,
            timestamp: now,
            status: OrderStatus::Pending,
            expiration: None,
        };
        let entry = &mut self.traders[i];
        let locked = entry.lock_funds(amount);
        entry.add_order(order_id);
        proof {
            assert(locked);
        }
        let ghost mid = *self;
        let k: usize;
        match order_type {
            OrderType::StayIn => {
                proof {
                    assert forall|j: int| 0 <= j < self.stay_in_orders@.len()
                        implies (#[trigger] self.stay_in_orders@[j]).id.sequence_number
                            != order.id.sequence_number by {
                        assert(prev.stay_in_orders@[j].id.sequence_number
                            < prev.next_sequence_number);
                    }
                }
                k = insert_sorted(&mut self.stay_in_orders, order);
            },
            OrderType::Breakout => {
                proof {
                    assert forall|j: int| 0 <= j < self.breakout_orders@.len()
                        implies (#[trigger] self.breakout_orders@[j]).id.sequence_number
                            != order.id.sequence_number by {
                        assert(prev.breakout_orders@[j].id.sequence_number
                            < prev.next_sequence_number);
                    }
                }
                k = insert_sorted(&mut self.breakout_orders, order);
            },
        }
        proof {
            self.lemma_place_finish(prev, mid, i as int, trader, order, k as int, order_type);
        }
        Ok(order_id)
    }

    /// Bookkeeping for a completed placement: the ledger moved `amount`
    /// from free to locked for the funder, and one order for the funder
    /// entered one side; everything else is untouched, so the lock
    /// invariant and the totals carry over.
    proof fn lemma_place_finish(
        self,
        prev: PassageOrderbook,
        mid: PassageOrderbook,
        i: int,
        trader: Pubkey,
        order: Order,
        k: int,
        order_type: OrderType,
    )
        requires
            prev.wf(),
            prev.next_sequence_number < u64::MAX,
            0 <= i < prev.traders@.len(),
            prev.traders@[i].trader == trader,
            prev.traders@[i].free_funds >= order.amount,
            order.trader == trader,
            order.amount > 0,
            order.status == OrderStatus::Pending,
            order.width_percentage_scaled <= prev.max_percentage_width,
            order.base_price == prev.base_price,
            order.id.width_percentage_scaled == order.width_percentage_scaled,
            order.id.timestamp == order.timestamp,
            order.id.sequence_number == prev.next_sequence_number,
            mid == (PassageOrderbook {
                next_sequence_number: mid.next_sequence_number,
                traders: mid.traders,
                ..prev
            }),
            mid.next_sequence_number == prev.next_sequence_number + 1,
            mid.traders@ == prev.traders@.update(i, mid.traders@[i]),
            mid.traders@[i] == (TraderState {
                free_funds: (prev.traders@[i].free_funds - order.amount) as u64,
                locked_funds: (prev.traders@[i].locked_funds + order.amount) as u64,
                orders: mid.traders@[i].orders,
                trader,
            }),
            mid.traders@[i].orders@ == prev.traders@[i].orders@.push(order.id),
            order_type == OrderType::StayIn ==> self == (PassageOrderbook {
                stay_in_orders: self.stay_in_orders,
                ..mid
            }) && 0 <= k <= mid.stay_in_orders@.len()
                && self.stay_in_orders@ == mid.stay_in_orders@.insert(k, order),
            order_type == OrderType::Breakout ==> self == (PassageOrderbook {
                breakout_orders: self.breakout_orders,
                ..mid
            }) && 0 <= k <= mid.breakout_orders@.len()
                && self.breakout_orders@ == mid.breakout_orders@.insert(k, order),
            sorted_by_id(self.stay_in_orders@),
            sorted_by_id(self.breakout_orders@),
        ensures
            self.wf(),
            self.free_of(trader) == prev.free_of(trader) - order.amount,
            self.locked_of(trader) == prev.locked_of(trader) + order.amount,
            self.orders_of(trader) == prev.orders_of(trader).push(order.id),
            forall|pk: Pubkey|
                pk != trader ==> self.free_of(pk) == prev.free_of(pk)
                    && self.locked_of(pk) == prev.locked_of(pk)
                    && self.orders_of(pk) == prev.orders_of(pk),
            self.total_funds() == prev.total_funds(),
            forall|pk: Pubkey| self.trader_registered(pk) <==> prev.trader_registered(pk),
    {
        prev.lemma_trader_entry_at(i);
        mid.lemma_ledger_update_same_key(prev, i);
        lemma_sum_by_update(prev.traders@, i, trader_measure(), mid.traders@[i]);
        let fo = order_measure(trader);
        // Ledger projections.
        assert(self.traders@ == mid.traders@);
        assert forall|pk: Pubkey| self.trader_registered(pk) <==> mid.trader_registered(pk) by {
            if mid.trader_registered(pk) {
                let w = mid.trader_index(pk);
                assert(self.traders@[w].trader == pk);
            }
            if self.trader_registered(pk) {
                let w = choose|c: int|
                    0 <= c < self.traders@.len() && (#[trigger] self.traders@[c]).trader == pk;
                assert(mid.traders@[w].trader == pk);
            }
        }
        assert forall|pk: Pubkey| self.trader_index(pk) == mid.trader_index(pk)
            && (self.trader_registered(pk) ==> self.trader_entry(pk) == mid.trader_entry(pk)) by {}
        // Exposure deltas: the inserted order adds its amount for the
        // funder and nothing for anyone else.
        assert forall|pk: Pubkey| self.exposure(pk) == mid.exposure(pk)
            + (if pk == trader { order.amount as int } else { 0 }) by {
            let f = order_measure(pk);
            if order_type == OrderType::StayIn {
                lemma_sum_by_insert(mid.stay_in_orders@, k, f, order);
            } else {
                lemma_sum_by_insert(mid.breakout_orders@, k, f, order);
            }
        }
        assert forall|pk: Pubkey| mid.exposure(pk) == prev.exposure(pk) by {}
        // The lock invariant for every ledger entry.
        assert forall|c: int| 0 <= c < self.traders@.len()
            implies (#[trigger] self.traders@[c]).locked_funds
                == self.exposure(self.traders@[c].trader) by {
            let pk = self.traders@[c].trader;
            if c == i {
                assert(pk == trader);
                assert(prev.traders@[i].locked_funds == prev.exposure(trader));
            } else {
                assert(self.traders@[c] == prev.traders@[c]);
                assert(prev.traders@[c].locked_funds == prev.exposure(pk));
                assert(pk != trader) by {
                    if pk == trader {
                        if c < i {
                            assert(prev.traders@[c].trader != prev.traders@[i].trader);
                        } else {
                            assert(prev.traders@[i].trader != prev.traders@[c].trader);
                        }
                    }
                }
            }
        }
        // Side well-formedness: fresh sequence numbers and registered owners.
        let side = if order_type == OrderType::StayIn {
            self.stay_in_orders@
        } else {
            self.breakout_orders@
        };
        let prev_side = if order_type == OrderType::StayIn {
            prev.stay_in_orders@
        } else {
            prev.breakout_orders@
        };
        prev_side.insert_ensures(k, order);
        assert forall|j: int| 0 <= j < side.len() implies (#[trigger] side[j]).wf()
            && side[j].status == OrderStatus::Pending
            && side[j].id.sequence_number < self.next_sequence_number
            && self.trader_registered(side[j].trader) by {
            if j < k {
                assert(side[j] == prev_side[j]);
            } else if j == k {
                assert(side[j] == order);
            } else {
                assert(side[j] == prev_side[j - 1]);
            }
        }
        let other = if order_type == OrderType::StayIn {
            self.breakout_orders@
        } else {
            self.stay_in_orders@
        };
        assert forall|j: int| 0 <= j < other.len() implies (#[trigger] other[j]).wf()
            && other[j].status == OrderStatus::Pending
            && other[j].id.sequence_number < self.next_sequence_number
            && self.trader_registered(other[j].trader) by {}
        assert(self.side_wf(self.stay_in_orders@));
        assert(self.side_wf(self.breakout_orders@));
        // Sequence numbers stay distinct across the two books: the new
        // order's is fresh, and resting ones were distinct already.
        assert forall|a: int, b: int| 0 <= a < self.stay_in_orders@.len() && 0 <= b
            < self.breakout_orders@.len() implies (#[trigger] self.stay_in_orders@[
            a]).id.sequence_number != (#[trigger] self.breakout_orders@[b]).id.sequence_number by {
            if order_type == OrderType::StayIn {
                assert(self.breakout_orders@[b] == prev.breakout_orders@[b]);
                if a == k {
                    assert(self.stay_in_orders@[a] == order);
                    assert(prev.breakout_orders@[b].id.sequence_number
                        < prev.next_sequence_number);
                } else {
                    let a0 = if a < k {
                        a
                    } else {
                        a - 1
                    };
                    assert(self.stay_in_orders@[a] == prev.stay_in_orders@[a0]);
                }
            } else {
                assert(self.stay_in_orders@[a] == prev.stay_in_orders@[a]);
                if b == k {
                    assert(self.breakout_orders@[b] == order);
                    assert(prev.stay_in_orders@[a].id.sequence_number
                        < prev.next_sequence_number);
                } else {
                    let b0 = if b < k {
                        b
                    } else {
                        b - 1
                    };
                    assert(self.breakout_orders@[b] == prev.breakout_orders@[b0]);
                }
            }
        }
        assert forall|j: int| 0 <= j < self.positions@.len()
            implies self.position_wf(#[trigger] self.positions@[j]) by {
            assert(prev.position_wf(prev.positions@[j]));
        }
    }

    /// The direction of the position a taker's request opens.
    pub open spec fn spec_position_type(requested: OrderType) -> PositionType {
        match requested {
            OrderType::StayIn => PositionType::StayIn,
            OrderType::Breakout => PositionType::Breakout,
        }
    }

    /// The position a match accepted now opens: the band comes from the
    /// funder's reference price at order placement and the matched
    /// (funder's) width; the window starts at the injected clock reading.
    pub open spec fn spec_opened_position(
        self,
        taker: Pubkey,
        requested: OrderType,
        o: Order,
        amount: u64,
        now: u64,
    ) -> PositionState {
        PositionState {
            user: taker,
            funder: o.trader,
            position_type: Self::spec_position_type(requested),
            lower_bound: crate::payout::spec_lower_bound(
                o.base_price as int,
                o.width_percentage_scaled as int,
            ) as u64,
            upper_bound: crate::payout::spec_upper_bound(
                o.base_price as int,
                o.width_percentage_scaled as int,
            ) as u64,
            start_time: now as i64,
            order_id: self.next_sequence_number,
            status: PositionStatus::Active,
            amount,
            settlement_data: None,
        }
    }

    /// The book side a request of `requested` type searches: the opposite
    /// side, because a StayIn bettor's risk is covered exactly by Breakout
    /// liquidity and vice versa.
    pub open spec fn spec_searched_side(self, requested: OrderType) -> Seq<Order> {
        match requested {
            OrderType::StayIn => self.breakout_orders@,
            OrderType::Breakout => self.stay_in_orders@,
        }
    }

    /// What a successful match reports: both sides stake the same amount,
    /// and the band data comes from the matched order.
    pub open spec fn spec_match_result(
        self,
        taker: Pubkey,
        requested: OrderType,
        b: int,
        amount: u64,
        now: u64,
    ) -> MatchResult {
        let o = self.spec_searched_side(requested)[b];
        MatchResult {
            trader_amount: amount,
            funder_amount: amount,
            width_percentage_scaled: o.width_percentage_scaled,
            trader: taker,
            funder: o.trader,
            base_price: o.base_price,
            expiration: (now + POSITION_DURATION_SECONDS) as u64,
        }
    }

    /// How a successful match against the candidate at `b` moves the state:
    /// the taker's stake goes from free to locked, the candidate shrinks by
    /// the matched amount (leaving the book and its owner's order set when
    /// fully filled), the opened position is appended, and nothing else —
    /// in particular no balance of any other trader, and not the total —
    /// changes.
    pub open spec fn spec_match_success(
        self,
        prev: PassageOrderbook,
        taker: Pubkey,
        requested: OrderType,
        b: int,
        amount: u64,
        now: u64,
    ) -> bool {
        let side0 = prev.spec_searched_side(requested);
        let o = side0[b];
        let p = prev.spec_opened_position(taker, requested, o, amount, now);
        &&& self.positions@ == prev.positions@.push(p)
        &&& (o.amount == amount ==> self.spec_searched_side(requested) == side0.remove(b)
            && self.orders_of(o.trader) == crate::trader::remove_id(
            prev.orders_of(o.trader),
            o.id,
        ))
        &&& (o.amount > amount ==> self.spec_searched_side(requested) == side0.update(
            b,
            Order { amount: (o.amount - amount) as u64, ..o },
        ))
        &&& (requested == OrderType::StayIn ==> self.stay_in_orders == prev.stay_in_orders)
        &&& (requested == OrderType::Breakout ==> self.breakout_orders == prev.breakout_orders)
        &&& self.next_sequence_number == prev.next_sequence_number + 1
        &&& self.free_of(taker) == prev.free_of(taker) - amount
        &&& self.locked_of(taker) == prev.locked_of(taker) + amount
        &&& (forall|pk: Pubkey|
            pk != taker ==> self.free_of(pk) == prev.free_of(pk) && self.locked_of(pk)
                == prev.locked_of(pk))
        &&& (forall|pk: Pubkey| pk != o.trader ==> self.orders_of(pk) == prev.orders_of(pk))
        &&& (o.amount > amount ==> forall|pk: Pubkey| self.orders_of(pk) == prev.orders_of(pk))
        &&& self.total_funds() == prev.total_funds()
        &&& self.base_price == prev.base_price
        &&& self.asset_type == prev.asset_type
        &&& self.min_percentage_width == prev.min_percentage_width
        &&& self.max_percentage_width == prev.max_percentage_width
    }

    /// Match a taker's request against the best compatible liquidity on
    /// the opposite side: lock the taker's stake, reduce (or retire) the
    /// chosen order, and open the position. All-or-nothing on error.
    pub fn match_position_order(
        &mut self,
        trader: Pubkey,
        order_type: OrderType,
        width_percentage_scaled: u64,
        amount: u64,
        now: u64,
    ) -> (result: Result<MatchResult, ErrorCode>)
        requires
            old(self).wf(),
            old(self).next_sequence_number < u64::MAX,
            amount > 0,
            amount * 2 <= u64::MAX,
            now + POSITION_DURATION_SECONDS <= i64::MAX,
        ensures
            final(self).wf(),
            !(old(self).min_percentage_width <= width_percentage_scaled
                <= old(self).max_percentage_width) ==> result == Err::<MatchResult, ErrorCode>(
                ErrorCode::InvalidWidthPercentage,
            ) && *final(self) == *old(self),
            old(self).min_percentage_width <= width_percentage_scaled
                <= old(self).max_percentage_width && !old(self).trader_registered(trader)
                ==> result == Err::<MatchResult, ErrorCode>(ErrorCode::TraderNotRegistered)
                    && *final(self) == *old(self),
            old(self).min_percentage_width <= width_percentage_scaled
                <= old(self).max_percentage_width && old(self).trader_registered(trader)
                && old(self).free_of(trader) < amount ==> result == Err::<MatchResult, ErrorCode>(
                ErrorCode::InsufficientFunds,
            ) && *final(self) == *old(self),
            old(self).min_percentage_width <= width_percentage_scaled
                <= old(self).max_percentage_width && old(self).trader_registered(trader)
                && old(self).free_of(trader) >= amount && (forall|x: int|
                0 <= x < old(self).spec_searched_side(order_type).len()
                    ==> !spec_match_candidate(
                    #[trigger] old(self).spec_searched_side(order_type)[x],
                    order_type,
                    width_percentage_scaled,
                    amount,
                )) ==> result == Err::<MatchResult, ErrorCode>(ErrorCode::NoMatchingOrders)
                && *final(self) == *old(self),
            old(self).min_percentage_width <= width_percentage_scaled
                <= old(self).max_percentage_width && old(self).trader_registered(trader)
                && old(self).free_of(trader) >= amount && (exists|x: int|
                0 <= x < old(self).spec_searched_side(order_type).len()
                    && spec_match_candidate(
                    #[trigger] old(self).spec_searched_side(order_type)[x],
                    order_type,
                    width_percentage_scaled,
                    amount,
                )) ==> {
                let side0 = old(self).spec_searched_side(order_type);
                exists|b: int|
                    {
                        &&& #[trigger] is_best_candidate(
                            side0,
                            order_type,
                            width_percentage_scaled,
                            amount,
                            b,
                        )
                        &&& final(self).spec_match_success(
                            *old(self),
                            trader,
                            order_type,
                            b,
                            amount,
                            now,
                        )
                        &&& result == Ok::<MatchResult, ErrorCode>(old(self).spec_match_result(
                            trader,
                            order_type,
                            b,
                            amount,
                            now,
                        ))
                    }
            },
    {
        if width_percentage_scaled < self.min_percentage_width
            || width_percentage_scaled > self.max_percentage_width {
            return Err(ErrorCode::InvalidWidthPercentage);
        }
        let found = self.find_trader_index(&trader);
        let i = match found {
            None => {
                return Err(ErrorCode::TraderNotRegistered);
            },
            Some(i) => i,
        };
        proof {
            self.lemma_trader_entry_at(i as int);
        }
        if self.traders[i].free_funds < amount {
            return Err(ErrorCode::InsufficientFunds);
        }
        let best = match order_type {
            OrderType::StayIn => select_best_candidate(
                &self.breakout_orders,
                order_type,
                width_percentage_scaled,
                amount,
            ),
            OrderType::Breakout => select_best_candidate(
                &self.stay_in_orders,
                order_type,
                width_percentage_scaled,
                amount,
            ),
        };
        let b = match best {
            None => {
                return Err(ErrorCode::NoMatchingOrders);
            },
            Some(b) => b,
        };
        let ghost prev = *self;
        let o = match order_type {
            OrderType::StayIn => self.breakout_orders[b],
            OrderType::Breakout => self.stay_in_orders[b],
        };
        proof {
            assert(self.spec_searched_side(order_type)[b as int] == o);
            assert(self.trader_registered(o.trader));
        }
        let funder = o.trader;
        let f = match self.find_trader_index(&funder) {
            None => {
                proof {
                    assert(false);
                }
                return Err(ErrorCode::TraderNotRegistered);
            },
            Some(f) => f,
        };
        proof {
            self.lemma_trader_entry_at(f as int);
        }
        let order_id = self.generate_order_id(width_percentage_scaled, now);
        let bounds = crate::payout::price_bounds(o.base_price, o.width_percentage_scaled);
        let position = PositionState {
            user: trader,
            funder,
            position_type: match order_type {
                OrderType::StayIn => PositionType::StayIn,
                OrderType::Breakout => PositionType::Breakout,
            },
            lower_bound: bounds.0,
            upper_bound: bounds.1,
            start_time: now as i64,
            order_id: order_id.sequence_number,
            status: PositionStatus::Active,
            amount,
            settlement_data: None,
        };
        let full_fill = o.amount == amount;
        if full_fill {
            match order_type {
                OrderType::StayIn => {
                    self.breakout_orders.remove(b);
                },
                OrderType::Breakout => {
                    self.stay_in_orders.remove(b);
                },
            }
        } else {
            match order_type {
                OrderType::StayIn => {
                    let slot = &mut self.breakout_orders[b];
                    slot.amount = slot.amount - amount;
                },
                OrderType::Breakout => {
                    let slot = &mut self.stay_in_orders[b];
                    slot.amount = slot.amount - amount;
                },
            }
        }
        let ghost after_book = *self;
        let entry = &mut self.traders[i];
        let locked = entry.lock_funds(amount);
        proof {
            assert(locked);
        }
        let ghost after_lock = *self;
        if full_fill {
            let fentry = &mut self.traders[f];
            fentry.remove_order(o.id);
        }
        let ghost after_funder = *self;
        self.positions.push(position);
        let result = MatchResult {
            trader_amount: amount,
            funder_amount: amount,
            width_percentage_scaled: o.width_percentage_scaled,
            trader,
            funder,
            base_price: o.base_price,
            expiration: now + POSITION_DURATION_SECONDS,
        };
        proof {
            assert(position == prev.spec_opened_position(trader, order_type, o, amount, now));
            self.lemma_match_finish(
                prev,
                after_book,
                after_lock,
                after_funder,
                trader,
                order_type,
                b as int,
                i as int,
                f as int,
                amount,
                now,
                full_fill,
            );
        }
        Ok(result)
    }

    /// Bookkeeping for a completed match, stepping through the snapshots
    /// the operation leaves behind: after the id was assigned and the
    /// candidate reduced or removed (`after_book`), after the taker's
    /// stake was locked (`after_lock`), after the funder's order set was
    /// trimmed on a full fill (`after_funder`), and after the position was
    /// appended (`self`). The zero-sum pairing makes every trader's locked
    /// funds match their exposure again, and keeps the total unchanged.
    #[verifier::rlimit(60)]
    proof fn lemma_match_finish(
        self,
        prev: PassageOrderbook,
        after_book: PassageOrderbook,
        after_lock: PassageOrderbook,
        after_funder: PassageOrderbook,
        taker: Pubkey,
        requested: OrderType,
        b: int,
        i: int,
        f: int,
        amount: u64,
        now: u64,
        full_fill: bool,
    )
        requires
            prev.wf(),
            amount > 0,
            amount * 2 <= u64::MAX,
            prev.next_sequence_number < u64::MAX,
            now + POSITION_DURATION_SECONDS <= i64::MAX,
            0 <= b < prev.spec_searched_side(requested).len(),
            prev.spec_searched_side(requested)[b].amount >= amount,
            full_fill <==> prev.spec_searched_side(requested)[b].amount == amount,
            0 <= i < prev.traders@.len(),
            prev.traders@[i].trader == taker,
            prev.traders@[i].free_funds >= amount,
            0 <= f < prev.traders@.len(),
            prev.traders@[f].trader == prev.spec_searched_side(requested)[b].trader,
            // After the id assignment and the book change:
            after_book.traders == prev.traders,
            after_book.positions == prev.positions,
            after_book.base_price == prev.base_price,
            after_book.asset_type == prev.asset_type,
            after_book.min_percentage_width == prev.min_percentage_width,
            after_book.max_percentage_width == prev.max_percentage_width,
            after_book.next_sequence_number == prev.next_sequence_number + 1,
            requested == OrderType::StayIn ==> after_book.stay_in_orders == prev.stay_in_orders,
            requested == OrderType::Breakout ==> after_book.breakout_orders
                == prev.breakout_orders,
            full_fill ==> after_book.spec_searched_side(requested)
                == prev.spec_searched_side(requested).remove(b),
            !full_fill ==> after_book.spec_searched_side(requested)
                == prev.spec_searched_side(requested).update(
                b,
                Order {
                    amount: (prev.spec_searched_side(requested)[b].amount - amount) as u64,
                    ..prev.spec_searched_side(requested)[b]
                },
            ),
            // After the taker's stake was locked:
            after_lock == (PassageOrderbook { traders: after_lock.traders, ..after_book }),
            after_lock.traders@ == after_book.traders@.update(i, after_lock.traders@[i]),
            after_lock.traders@[i] == (TraderState {
                free_funds: (prev.traders@[i].free_funds - amount) as u64,
                locked_funds: (prev.traders@[i].locked_funds + amount) as u64,
                orders: after_lock.traders@[i].orders,
                trader: taker,
            }),
            after_lock.traders@[i].orders == prev.traders@[i].orders,
            // After the funder's order set was trimmed (full fill only):
            !full_fill ==> after_funder == after_lock,
            full_fill ==> after_funder == (PassageOrderbook {
                traders: after_funder.traders,
                ..after_lock
            }),
            full_fill ==> after_funder.traders@ == after_lock.traders@.update(
                f,
                after_funder.traders@[f],
            ),
            full_fill ==> after_funder.traders@[f] == (TraderState {
                orders: after_funder.traders@[f].orders,
                ..after_lock.traders@[f]
            }),
            full_fill ==> after_funder.traders@[f].orders@ == crate::trader::remove_id(
                after_lock.traders@[f].orders@,
                prev.spec_searched_side(requested)[b].id,
            ),
            // After the position was appended:
            self == (PassageOrderbook { positions: self.positions, ..after_funder }),
            self.positions@ == after_funder.positions@.push(
                prev.spec_opened_position(
                    taker,
                    requested,
                    prev.spec_searched_side(requested)[b],
                    amount,
                    now,
                ),
            ),
            prev.spec_opened_position(
                taker,
                requested,
                prev.spec_searched_side(requested)[b],
                amount,
                now,
            ).lower_bound <= prev.spec_opened_position(
                taker,
                requested,
                prev.spec_searched_side(requested)[b],
                amount,
                now,
            ).upper_bound,
        ensures
            self.wf(),
            self.spec_match_success(prev, taker, requested, b, amount, now),
            forall|pk: Pubkey| self.trader_registered(pk) <==> prev.trader_registered(pk),
    {
        let side0 = prev.spec_searched_side(requested);
        let o = side0[b];
        let funder = o.trader;
        let p = prev.spec_opened_position(taker, requested, o, amount, now);
        let reduced = Order { amount: (o.amount - amount) as u64, ..o };
        // Step 1: ledger projections across the one or two entry updates.
        prev.lemma_trader_entry_at(i);
        prev.lemma_trader_entry_at(f);
        after_lock.lemma_ledger_update_same_key(prev, i);
        after_lock.lemma_trader_entry_at(i);
        after_lock.lemma_trader_entry_at(f);
        if full_fill {
            after_funder.lemma_ledger_update_same_key(after_lock, f);
            after_funder.lemma_trader_entry_at(f);
            after_funder.lemma_trader_entry_at(i);
            assert(after_funder.traders@[i].free_funds == after_lock.traders@[i].free_funds);
        }
        assert(self.traders@ == after_funder.traders@);
        assert forall|pk: Pubkey| self.trader_registered(pk)
            <==> after_funder.trader_registered(pk) by {
            if after_funder.trader_registered(pk) {
                let w = after_funder.trader_index(pk);
                assert(self.traders@[w].trader == pk);
            }
            if self.trader_registered(pk) {
                let w = choose|c: int|
                    0 <= c < self.traders@.len() && (#[trigger] self.traders@[c]).trader == pk;
                assert(after_funder.traders@[w].trader == pk);
            }
        }
        assert forall|pk: Pubkey| #![auto] self.trader_index(pk) == after_funder.trader_index(pk)
            && (self.trader_registered(pk) ==> self.trader_entry(pk)
                == after_funder.trader_entry(pk)) by {}
        // Totals: the taker's entry keeps its sum; the funder's entry keeps
        // its funds entirely.
        lemma_sum_by_update(prev.traders@, i, trader_measure(), after_lock.traders@[i]);
        if full_fill {
            lemma_sum_by_update(
                after_lock.traders@,
                f,
                trader_measure(),
                after_funder.traders@[f],
            );
        }
        assert(self.total_funds() == prev.total_funds());
        // Step 2: exposure deltas. The searched side loses `amount` for the
        // funder; the new position adds `amount` for the taker and for the
        // funder each.
        assert(p.status == PositionStatus::Active);
        assert forall|pk: Pubkey| self.exposure(pk) == prev.exposure(pk)
            + (if pk == taker { amount as int } else { 0 }) by {
            let fo = order_measure(pk);
            let fp = position_measure(pk);
            if full_fill {
                lemma_sum_by_remove(side0, b, fo);
            } else {
                lemma_sum_by_update(side0, b, fo, reduced);
            }
            lemma_sum_by_push(after_funder.positions@, fp, p);
            assert(fp(p) == (if p.user == pk { amount as int } else { 0 }) + (if p.funder == pk {
                amount as int
            } else {
                0
            }));
            if requested == OrderType::StayIn {
                assert(self.stay_in_orders@ == prev.stay_in_orders@);
            } else {
                assert(self.breakout_orders@ == prev.breakout_orders@);
            }
        }
        // Step 3: the lock invariant at every ledger entry.
        assert forall|c: int| 0 <= c < self.traders@.len()
            implies (#[trigger] self.traders@[c]).locked_funds
                == self.exposure(self.traders@[c].trader) by {
            let pk = self.traders@[c].trader;
            assert(pk == prev.traders@[c].trader);
            assert(prev.traders@[c].locked_funds == prev.exposure(pk));
            if c == i {
                assert(pk == taker);
                assert(self.traders@[i].locked_funds == prev.traders@[i].locked_funds + amount);
            } else {
                assert(pk != taker) by {
                    if c < i {
                        assert(prev.traders@[c].trader != prev.traders@[i].trader);
                    } else {
                        assert(prev.traders@[i].trader != prev.traders@[c].trader);
                    }
                }
                assert(self.traders@[c].locked_funds == prev.traders@[c].locked_funds);
            }
        }
        // Step 4: side well-formedness.
        let side1 = self.spec_searched_side(requested);
        if full_fill {
            lemma_sorted_remove(side0, b);
            side0.remove_ensures(b);
            assert forall|x: int| 0 <= x < side1.len() implies (#[trigger] side1[x]).wf()
                && side1[x].id.sequence_number < self.next_sequence_number
                && self.trader_registered(side1[x].trader) by {
                let x0 = if x < b { x } else { x + 1 };
                assert(side1[x] == side0[x0]);
                assert(prev.trader_registered(side0[x0].trader));
            }
        } else {
            assert forall|x: int| 0 <= x < side1.len() implies (#[trigger] side1[x]).wf()
                && side1[x].id.sequence_number < self.next_sequence_number
                && self.trader_registered(side1[x].trader) by {
                if x != b {
                    assert(side1[x] == side0[x]);
                }
                assert(prev.trader_registered(side0[x].trader));
            }
            assert(sorted_by_id(side1)) by {
                assert forall|x: int, y: int| 0 <= x < y < side1.len() implies
                    (#[trigger] side1[x]).id.lt((#[trigger] side1[y]).id) by {
                    assert(side1[x].id == side0[x].id && side1[y].id == side0[y].id);
                }
            }
        }
        let other = match requested {
            OrderType::StayIn => self.stay_in_orders@,
            OrderType::Breakout => self.breakout_orders@,
        };
        assert forall|x: int| 0 <= x < other.len() implies (#[trigger] other[x]).wf()
            && other[x].id.sequence_number < self.next_sequence_number
            && self.trader_registered(other[x].trader) by {
            if requested == OrderType::StayIn {
                assert(prev.trader_registered(prev.stay_in_orders@[x].trader));
            } else {
                assert(prev.trader_registered(prev.breakout_orders@[x].trader));
            }
        }
        assert(self.side_wf(self.stay_in_orders@));
        assert(self.side_wf(self.breakout_orders@));
        // Step 5: position well-formedness, including the new record.
        assert(p.wf()) by {
            assert(0 <= p.start_time);
            assert(p.start_time + POSITION_DURATION_SECONDS <= i64::MAX);
        }
        assert forall|x: int| 0 <= x < self.positions@.len()
            implies self.position_wf(#[trigger] self.positions@[x]) by {
            if x < prev.positions@.len() {
                assert(self.positions@[x] == prev.positions@[x]);
                assert(prev.position_wf(prev.positions@[x]));
            } else {
                assert(self.positions@[x] == p);
            }
        }
        assert forall|x: int, y: int| 0 <= x < y < self.positions@.len()
            implies (#[trigger] self.positions@[x]).order_id
                != (#[trigger] self.positions@[y]).order_id by {
            if y < prev.positions@.len() {
                assert(self.positions@[x] == prev.positions@[x]);
                assert(self.positions@[y] == prev.positions@[y]);
            } else {
                assert(self.positions@[y] == p);
                assert(self.positions@[x] == prev.positions@[x]);
                assert(prev.position_wf(prev.positions@[x]));
            }
        }
        // Step 6: the success record, projection by projection.
        assert(self.free_of(taker) == prev.free_of(taker) - amount);
        assert(self.locked_of(taker) == prev.locked_of(taker) + amount);
        assert forall|pk: Pubkey| pk != taker implies self.free_of(pk) == prev.free_of(pk)
            && self.locked_of(pk) == prev.locked_of(pk) by {
            if prev.trader_registered(pk) {
                let w = prev.trader_index(pk);
                prev.lemma_trader_entry_at(w);
                assert(self.traders@[w].trader == pk);
                self.lemma_trader_entry_at(w);
                assert(w != i);
                if full_fill && w == f {
                    assert(self.traders@[w].free_funds == prev.traders@[w].free_funds);
                }
            }
        }
        if full_fill {
            assert(self.orders_of(funder) == crate::trader::remove_id(
                prev.orders_of(funder),
                o.id,
            )) by {
                self.lemma_trader_entry_at(f);
                if f != i {
                    assert(after_lock.traders@[f].orders == prev.traders@[f].orders);
                }
            }
        }
        assert forall|pk: Pubkey| pk != funder implies self.orders_of(pk)
            == prev.orders_of(pk) by {
            if prev.trader_registered(pk) {
                let w = prev.trader_index(pk);
                prev.lemma_trader_entry_at(w);
                assert(self.traders@[w].trader == pk);
                self.lemma_trader_entry_at(w);
                assert(w != f);
                if w == i {
                    assert(self.traders@[i].orders == prev.traders@[i].orders);
                }
            }
        }
        if !full_fill {
            assert forall|pk: Pubkey| self.orders_of(pk) == prev.orders_of(pk) by {
                if prev.trader_registered(pk) {
                    let w = prev.trader_index(pk);
                    prev.lemma_trader_entry_at(w);
                    assert(self.traders@[w].trader == pk);
                    self.lemma_trader_entry_at(w);
                }
            }
        }
    }

    /// Cancel a resting order: only its owner may cancel, the order leaves
    /// its book, and the funds it held are unlocked. Unconditional and
    /// synchronous once ownership is verified; all-or-nothing on error.
    pub fn cancel_order(&mut self, trader: Pubkey, order_id: OrderId) -> (result: Result<
        (),
        ErrorCode,
    >)
        requires
            old(self).wf(),
        ensures
            final(self).wf(),
            !old(self).trader_registered(trader) ==> result == Err::<(), ErrorCode>(
                ErrorCode::TraderNotRegistered,
            ) && *final(self) == *old(self),
            old(self).trader_registered(trader) && !contains_order(
                old(self).stay_in_orders@,
                order_id,
            ) && !contains_order(old(self).breakout_orders@, order_id) ==> result == Err::<
                (),
                ErrorCode,
            >(ErrorCode::OrderNotFound) && *final(self) == *old(self),
            old(self).trader_registered(trader) && contains_order(
                old(self).stay_in_orders@,
                order_id,
            ) ==> {
                let j = order_index_of(old(self).stay_in_orders@, order_id);
                let removed = old(self).stay_in_orders@[j];
                if removed.trader != trader {
                    result == Err::<(), ErrorCode>(ErrorCode::NotAuthorized) && *final(self)
                        == *old(self)
                } else {
                    &&& result == Ok::<(), ErrorCode>(())
                    &&& final(self).stay_in_orders@ == old(self).stay_in_orders@.remove(j)
                    &&& final(self).breakout_orders == old(self).breakout_orders
                    &&& final(self).spec_cancel_ledger_effect(*old(self), trader, removed)
                }
            },
            old(self).trader_registered(trader) && !contains_order(
                old(self).stay_in_orders@,
                order_id,
            ) && contains_order(old(self).breakout_orders@, order_id) ==> {
                let j = order_index_of(old(self).breakout_orders@, order_id);
                let removed = old(self).breakout_orders@[j];
                if removed.trader != trader {
                    result == Err::<(), ErrorCode>(ErrorCode::NotAuthorized) && *final(self)
                        == *old(self)
                } else {
                    &&& result == Ok::<(), ErrorCode>(())
                    &&& final(self).breakout_orders@ == old(self).breakout_orders@.remove(j)
                    &&& final(self).stay_in_orders == old(self).stay_in_orders
                    &&& final(self).spec_cancel_ledger_effect(*old(self), trader, removed)
                }
            },
    {
        let found = self.find_trader_index(&trader);
        let i = match found {
            None => {
                return Err(ErrorCode::TraderNotRegistered);
            },
            Some(i) => i,
        };
        proof {
            self.lemma_trader_entry_at(i as int);
        }
        let ghost prev = *self;
        let in_stay = find_order(&self.stay_in_orders, &order_id);
        if let Some(j) = in_stay {
            proof {
                lemma_order_index_unique(self.stay_in_orders@, j as int);
            }
            if !(self.stay_in_orders[j].trader == trader) {
                return Err(ErrorCode::NotAuthorized);
            }
            proof {
                self.lemma_order_amount_covered(i as int, j as int, true);
            }
            let removed = self.stay_in_orders.remove(j);
            let ghost mid = *self;
            let entry = &mut self.traders[i];
            entry.unlock_funds(removed.amount);
            entry.remove_order(order_id);
            proof {
                self.lemma_cancel_finish(prev, mid, i as int, j as int, trader, removed, true);
            }
            return Ok(());
        }
        let in_breakout = find_order(&self.breakout_orders, &order_id);
        if let Some(j) = in_breakout {
            proof {
                lemma_order_index_unique(self.breakout_orders@, j as int);
            }
            if !(self.breakout_orders[j].trader == trader) {
                return Err(ErrorCode::NotAuthorized);
            }
            proof {
                self.lemma_order_amount_covered(i as int, j as int, false);
            }
            let removed = self.breakout_orders.remove(j);
            let ghost mid = *self;
            let entry = &mut self.traders[i];
            entry.unlock_funds(removed.amount);
            entry.remove_order(order_id);
            proof {
                self.lemma_cancel_finish(prev, mid, i as int, j as int, trader, removed, false);
            }
            return Ok(());
        }
        Err(ErrorCode::OrderNotFound)
    }

    /// How a cancellation (or an expiry sweep step) moves the ledger: the
    /// removed order's amount returns from locked to free for its owner,
    /// the owner's order set drops the key, and nobody else moves.
    pub open spec fn spec_cancel_ledger_effect(
        self,
        prev: PassageOrderbook,
        trader: Pubkey,
        removed: Order,
    ) -> bool {
        &&& self.positions == prev.positions
        &&& self.free_of(trader) == prev.free_of(trader) + removed.amount
        &&& self.locked_of(trader) == prev.locked_of(trader) - removed.amount
        &&& self.orders_of(trader) == crate::trader::remove_id(prev.orders_of(trader), removed.id)
        &&& (forall|pk: Pubkey|
            pk != trader ==> self.free_of(pk) == prev.free_of(pk) && self.locked_of(pk)
                == prev.locked_of(pk) && self.orders_of(pk) == prev.orders_of(pk))
        &&& self.total_funds() == prev.total_funds()
        &&& self.base_price == prev.base_price
        &&& self.next_sequence_number == prev.next_sequence_number
        &&& self.asset_type == prev.asset_type
        &&& self.min_percentage_width == prev.min_percentage_width
        &&& self.max_percentage_width == prev.max_percentage_width
    }

    /// A resting order's amount never exceeds its owner's locked funds:
    /// it is one non-negative summand of the exposure the locked funds
    /// equal.
    proof fn lemma_order_amount_covered(self, i: int, j: int, is_stay_in: bool)
        requires
            self.wf(),
            0 <= i < self.traders@.len(),
            is_stay_in ==> 0 <= j < self.stay_in_orders@.len()
                && self.stay_in_orders@[j].trader == self.traders@[i].trader,
            !is_stay_in ==> 0 <= j < self.breakout_orders@.len()
                && self.breakout_orders@[j].trader == self.traders@[i].trader,
        ensures
            is_stay_in ==> self.stay_in_orders@[j].amount <= self.traders@[i].locked_funds,
            !is_stay_in ==> self.breakout_orders@[j].amount <= self.traders@[i].locked_funds,
    {
        let pk = self.traders@[i].trader;
        let fo = order_measure(pk);
        let fp = position_measure(pk);
        assert(self.traders@[i].locked_funds == self.exposure(pk));
        assert(forall|x: int| 0 <= x < self.stay_in_orders@.len()
            ==> #[trigger] fo(self.stay_in_orders@[x]) >= 0);
        assert(forall|x: int| 0 <= x < self.breakout_orders@.len()
            ==> #[trigger] fo(self.breakout_orders@[x]) >= 0);
        assert(forall|x: int| 0 <= x < self.positions@.len()
            ==> #[trigger] fp(self.positions@[x]) >= 0);
        lemma_sum_by_nonneg(self.stay_in_orders@, fo);
        lemma_sum_by_nonneg(self.breakout_orders@, fo);
        lemma_sum_by_nonneg(self.positions@, fp);
        if is_stay_in {
            lemma_sum_by_element_bound(self.stay_in_orders@, j, fo);
        } else {
            lemma_sum_by_element_bound(self.breakout_orders@, j, fo);
        }
    }

    /// Bookkeeping for a completed cancellation: one order left one book
    /// and its amount moved from locked to free for its owner.
    proof fn lemma_cancel_finish(
        self,
        prev: PassageOrderbook,
        mid: PassageOrderbook,
        i: int,
        j: int,
        trader: Pubkey,
        removed: Order,
        is_stay_in: bool,
    )
        requires
            prev.wf(),
            0 <= i < prev.traders@.len(),
            prev.traders@[i].trader == trader,
            removed.trader == trader,
            removed.amount <= prev.traders@[i].locked_funds,
            is_stay_in ==> 0 <= j < prev.stay_in_orders@.len() && prev.stay_in_orders@[j]
                == removed && mid == (PassageOrderbook {
                stay_in_orders: mid.stay_in_orders,
                ..prev
            }) && mid.stay_in_orders@ == prev.stay_in_orders@.remove(j),
            !is_stay_in ==> 0 <= j < prev.breakout_orders@.len() && prev.breakout_orders@[j]
                == removed && mid == (PassageOrderbook {
                breakout_orders: mid.breakout_orders,
                ..prev
            }) && mid.breakout_orders@ == prev.breakout_orders@.remove(j),
            self == (PassageOrderbook { traders: self.traders, ..mid }),
            self.traders@ == mid.traders@.update(i, self.traders@[i]),
            self.traders@[i] == (TraderState {
                free_funds: (prev.traders@[i].free_funds + removed.amount) as u64,
                locked_funds: (prev.traders@[i].locked_funds - removed.amount) as u64,
                orders: self.traders@[i].orders,
                trader,
            }),
            self.traders@[i].orders@ == crate::trader::remove_id(
                prev.traders@[i].orders@,
                removed.id,
            ),
        ensures
            self.wf(),
            self.spec_cancel_ledger_effect(prev, trader, removed),
            forall|pk: Pubkey| self.trader_registered(pk) <==> prev.trader_registered(pk),
    {
        prev.lemma_trader_entry_at(i);
        self.lemma_ledger_update_same_key(prev, i);
        lemma_sum_by_update(prev.traders@, i, trader_measure(), self.traders@[i]);
        // Exposure deltas: the removed order subtracts its amount for the
        // owner and nothing for anyone else.
        assert forall|pk: Pubkey| self.exposure(pk) == prev.exposure(pk)
            - (if pk == trader { removed.amount as int } else { 0 }) by {
            let f = order_measure(pk);
            if is_stay_in {
                lemma_sum_by_remove(prev.stay_in_orders@, j, f);
            } else {
                lemma_sum_by_remove(prev.breakout_orders@, j, f);
            }
        }
        self.lemma_trader_entry_at(i);
        // The lock invariant for every ledger entry.
        assert forall|c: int| 0 <= c < self.traders@.len()
            implies (#[trigger] self.traders@[c]).locked_funds
                == self.exposure(self.traders@[c].trader) by {
            let pk = self.traders@[c].trader;
            if c == i {
                assert(prev.traders@[i].locked_funds == prev.exposure(trader));
            } else {
                assert(self.traders@[c] == prev.traders@[c]);
                assert(prev.traders@[c].locked_funds == prev.exposure(pk));
                assert(pk != trader) by {
                    if pk == trader {
                        if c < i {
                            assert(prev.traders@[c].trader != prev.traders@[i].trader);
                        } else {
                            assert(prev.traders@[i].trader != prev.traders@[c].trader);
                        }
                    }
                }
            }
        }
        // Side well-formedness after removal.
        if is_stay_in {
            lemma_sorted_remove(prev.stay_in_orders@, j);
            prev.stay_in_orders@.remove_ensures(j);
            assert forall|x: int| 0 <= x < self.stay_in_orders@.len()
                implies (#[trigger] self.stay_in_orders@[x]).wf()
                    && self.stay_in_orders@[x].id.sequence_number < self.next_sequence_number
                    && self.trader_registered(self.stay_in_orders@[x].trader) by {
                let x0 = if x < j { x } else { x + 1 };
                assert(self.stay_in_orders@[x] == prev.stay_in_orders@[x0]);
            }
            assert forall|x: int| 0 <= x < self.breakout_orders@.len()
                implies (#[trigger] self.breakout_orders@[x]).wf()
                    && self.breakout_orders@[x].id.sequence_number < self.next_sequence_number
                    && self.trader_registered(self.breakout_orders@[x].trader) by {}
        } else {
            lemma_sorted_remove(prev.breakout_orders@, j);
            prev.breakout_orders@.remove_ensures(j);
            assert forall|x: int| 0 <= x < self.breakout_orders@.len()
                implies (#[trigger] self.breakout_orders@[x]).wf()
                    && self.breakout_orders@[x].id.sequence_number < self.next_sequence_number
                    && self.trader_registered(self.breakout_orders@[x].trader) by {
                let x0 = if x < j { x } else { x + 1 };
                assert(self.breakout_orders@[x] == prev.breakout_orders@[x0]);
            }
            assert forall|x: int| 0 <= x < self.stay_in_orders@.len()
                implies (#[trigger] self.stay_in_orders@[x]).wf()
                    && self.stay_in_orders@[x].id.sequence_number < self.next_sequence_number
                    && self.trader_registered(self.stay_in_orders@[x].trader) by {}
        }
        assert(self.side_wf(self.stay_in_orders@));
        assert(self.side_wf(self.breakout_orders@));
        assert forall|x: int| 0 <= x < self.positions@.len()
            implies self.position_wf(#[trigger] self.positions@[x]) by {
            assert(prev.position_wf(prev.positions@[x]));
        }
    }

    /// One side of the books, selected by flag.
    pub open spec fn spec_side(self, is_stay_in: bool) -> Seq<Order> {
        if is_stay_in {
            self.stay_in_orders@
        } else {
            self.breakout_orders@
        }
    }

    /// One sweep removal keeps the order-set accounting relative to the
    /// original book `orig`: the swept order's key leaves its owner's set,
    /// no other set changes, and exactly that one pair's expired ownership
    /// disappears from the side.
    proof fn lemma_sweep_sets_step(
        self,
        iter_prev: PassageOrderbook,
        orig: PassageOrderbook,
        is_stay_in: bool,
        j: int,
        now: u64,
        removed: Order,
    )
        requires
            0 <= j < iter_prev.spec_side(is_stay_in).len(),
            iter_prev.spec_side(is_stay_in)[j] == removed,
            spec_order_expired(removed, now),
            sorted_by_id(iter_prev.spec_side(is_stay_in)),
            self.spec_side(is_stay_in) == iter_prev.spec_side(is_stay_in).remove(j),
            self.orders_of(removed.trader) == crate::trader::remove_id(
                iter_prev.orders_of(removed.trader),
                removed.id,
            ),
            forall|pk: Pubkey|
                pk != removed.trader ==> self.orders_of(pk) == iter_prev.orders_of(pk),
            forall|x: int|
                0 <= x < iter_prev.spec_side(is_stay_in).len() ==> orig.spec_side(
                    is_stay_in,
                ).contains(#[trigger] iter_prev.spec_side(is_stay_in)[x]),
            forall|pk: Pubkey, id: OrderId| #![trigger iter_prev.orders_of(pk).contains(id)]
                iter_prev.orders_of(pk).contains(id) <==> orig.orders_of(pk).contains(id)
                    && (spec_expired_owned(orig.spec_side(is_stay_in), pk, id, now)
                    ==> spec_expired_owned(iter_prev.spec_side(is_stay_in), pk, id, now)),
            forall|pk: Pubkey|
                !spec_owns_expired(orig.spec_side(is_stay_in), pk, now) ==> iter_prev.orders_of(
                    pk,
                ) == orig.orders_of(pk),
        ensures
            forall|x: int|
                0 <= x < self.spec_side(is_stay_in).len() ==> orig.spec_side(is_stay_in).contains(
                    #[trigger] self.spec_side(is_stay_in)[x],
                ),
            forall|pk: Pubkey, id: OrderId| #![trigger self.orders_of(pk).contains(id)]
                self.orders_of(pk).contains(id) <==> orig.orders_of(pk).contains(id)
                    && (spec_expired_owned(orig.spec_side(is_stay_in), pk, id, now)
                    ==> spec_expired_owned(self.spec_side(is_stay_in), pk, id, now)),
            forall|pk: Pubkey|
                !spec_owns_expired(orig.spec_side(is_stay_in), pk, now) ==> self.orders_of(pk)
                    == orig.orders_of(pk),
    {
        let s0 = orig.spec_side(is_stay_in);
        let sp = iter_prev.spec_side(is_stay_in);
        let sn = self.spec_side(is_stay_in);
        let owner = removed.trader;
        sp.remove_ensures(j);
        // The shrunken side still came out of the original book.
        assert forall|x: int| 0 <= x < sn.len() implies s0.contains(#[trigger] sn[x]) by {
            let x0 = if x < j {
                x
            } else {
                x + 1
            };
            assert(sn[x] == sp[x0]);
            assert(s0.contains(sp[x0]));
        }
        // The swept pair is expired-owned in the original book ...
        assert(spec_expired_owned(s0, owner, removed.id, now)) by {
            assert(s0.contains(sp[j]));
            let y = choose|y: int| 0 <= y < s0.len() && s0[y] == removed;
            assert(s0[y].trader == owner && s0[y].id == removed.id);
        }
        assert(spec_owns_expired(s0, owner, now)) by {
            let y = choose|y: int| 0 <= y < s0.len() && s0[y] == removed;
            assert(s0[y].trader == owner && spec_order_expired(s0[y], now));
        }
        // ... and, keys being unique in a sorted book, no longer in the
        // shrunken side.
        assert(!spec_expired_owned(sn, owner, removed.id, now)) by {
            if spec_expired_owned(sn, owner, removed.id, now) {
                let y = choose|y: int|
                    0 <= y < sn.len() && (#[trigger] sn[y]).trader == owner && sn[y].id
                        == removed.id && spec_order_expired(sn[y], now);
                let y0 = if y < j {
                    y
                } else {
                    y + 1
                };
                assert(sn[y] == sp[y0]);
                if y0 < j {
                    assert(sp[y0].id.lt(sp[j].id));
                } else {
                    assert(sp[j].id.lt(sp[y0].id));
                }
            }
        }
        // Every other pair's expired ownership carries over, both ways.
        assert forall|pk: Pubkey, id: OrderId| !(pk == owner && id == removed.id)
            implies (spec_expired_owned(sp, pk, id, now) <==> spec_expired_owned(
            sn,
            pk,
            id,
            now,
        )) by {
            if spec_expired_owned(sp, pk, id, now) {
                let y = choose|y: int|
                    0 <= y < sp.len() && (#[trigger] sp[y]).trader == pk && sp[y].id == id
                        && spec_order_expired(sp[y], now);
                if y != j {
                    let yn = if y < j {
                        y
                    } else {
                        y - 1
                    };
                    assert(sn[yn] == sp[y]);
                    assert(spec_expired_owned(sn, pk, id, now));
                }
            }
            if spec_expired_owned(sn, pk, id, now) {
                let y = choose|y: int|
                    0 <= y < sn.len() && (#[trigger] sn[y]).trader == pk && sn[y].id == id
                        && spec_order_expired(sn[y], now);
                let y0 = if y < j {
                    y
                } else {
                    y + 1
                };
                assert(sn[y] == sp[y0]);
                assert(spec_expired_owned(sp, pk, id, now));
            }
        }
        // Membership accounting for every key.
        assert forall|pk: Pubkey, id: OrderId| #![trigger self.orders_of(pk).contains(id)]
            self.orders_of(pk).contains(id) <==> orig.orders_of(pk).contains(id)
                && (spec_expired_owned(s0, pk, id, now) ==> spec_expired_owned(sn, pk, id, now))
            by {
            assert(iter_prev.orders_of(pk).contains(id) <==> orig.orders_of(pk).contains(id)
                && (spec_expired_owned(s0, pk, id, now) ==> spec_expired_owned(sp, pk, id, now)));
            if pk == owner {
                crate::trader::lemma_remove_id_membership(
                    iter_prev.orders_of(owner),
                    removed.id,
                    id,
                );
                if id == removed.id {
                    assert(!self.orders_of(pk).contains(id));
                    assert(spec_expired_owned(s0, pk, id, now));
                    assert(!spec_expired_owned(sn, pk, id, now));
                } else {
                    assert(self.orders_of(pk).contains(id)
                        <==> iter_prev.orders_of(pk).contains(id));
                    assert(spec_expired_owned(sp, pk, id, now) <==> spec_expired_owned(
                        sn,
                        pk,
                        id,
                        now,
                    ));
                }
            } else {
                assert(self.orders_of(pk) == iter_prev.orders_of(pk));
                assert(spec_expired_owned(sp, pk, id, now) <==> spec_expired_owned(
                    sn,
                    pk,
                    id,
                    now,
                ));
            }
        }
        // Traders owning no expired order in the original book are
        // untouched.
        assert forall|pk: Pubkey| !spec_owns_expired(s0, pk, now)
            implies self.orders_of(pk) == orig.orders_of(pk) by {
            assert(pk != owner);
            assert(self.orders_of(pk) == iter_prev.orders_of(pk));
        }
    }

    /// Sweep one side: drop every order whose expiry lies before `now`,
    /// unlocking its owner's funds.
    fn sweep_side(&mut self, is_stay_in: bool, now: u64)
        requires
            old(self).wf(),
        ensures
            final(self).wf(),
            final(self).spec_side(is_stay_in) == old(self).spec_side(is_stay_in).filter(
                keep_order_fn(now),
            ),
            final(self).spec_side(!is_stay_in) == old(self).spec_side(!is_stay_in),
            final(self).positions == old(self).positions,
            final(self).base_price == old(self).base_price,
            final(self).next_sequence_number == old(self).next_sequence_number,
            final(self).asset_type == old(self).asset_type,
            final(self).min_percentage_width == old(self).min_percentage_width,
            final(self).max_percentage_width == old(self).max_percentage_width,
            forall|pk: Pubkey|
                final(self).free_of(pk) == old(self).free_of(pk) + spec_expired_exposure(
                    old(self).spec_side(is_stay_in),
                    pk,
                    now,
                ) && final(self).locked_of(pk) == old(self).locked_of(pk) - spec_expired_exposure(
                    old(self).spec_side(is_stay_in),
                    pk,
                    now,
                ),
            final(self).total_funds() == old(self).total_funds(),
            forall|pk: Pubkey|
                final(self).trader_registered(pk) <==> old(self).trader_registered(pk),
            forall|pk: Pubkey, id: OrderId|
                #![trigger final(self).orders_of(pk).contains(id)]
                final(self).orders_of(pk).contains(id) <==> old(self).orders_of(pk).contains(id)
                    && !spec_expired_owned(old(self).spec_side(is_stay_in), pk, id, now),
            forall|pk: Pubkey|
                !spec_owns_expired(old(self).spec_side(is_stay_in), pk, now)
                    ==> final(self).orders_of(pk) == old(self).orders_of(pk),
    {
        proof {
            assert forall|x: int| 0 <= x < self.spec_side(is_stay_in).len()
                implies old(self).spec_side(is_stay_in).contains(
                #[trigger] self.spec_side(is_stay_in)[x],
            ) by {
                assert(old(self).spec_side(is_stay_in)[x] == self.spec_side(is_stay_in)[x]);
            }
        }
        let mut j: usize = 0;
        loop
            invariant
                self.wf(),
                j <= self.spec_side(is_stay_in).len(),
                self.spec_side(!is_stay_in) == old(self).spec_side(!is_stay_in),
                self.positions == old(self).positions,
                self.base_price == old(self).base_price,
                self.next_sequence_number == old(self).next_sequence_number,
                self.asset_type == old(self).asset_type,
                self.min_percentage_width == old(self).min_percentage_width,
                self.max_percentage_width == old(self).max_percentage_width,
                forall|x: int|
                    0 <= x < j ==> !spec_order_expired(
                        #[trigger] self.spec_side(is_stay_in)[x],
                        now,
                    ),
                self.spec_side(is_stay_in).filter(keep_order_fn(now)) == old(self).spec_side(
                    is_stay_in,
                ).filter(keep_order_fn(now)),
                forall|pk: Pubkey|
                    self.free_of(pk) == old(self).free_of(pk) + spec_expired_exposure(
                        old(self).spec_side(is_stay_in),
                        pk,
                        now,
                    ) - spec_expired_exposure(self.spec_side(is_stay_in), pk, now)
                        && self.locked_of(pk) == old(self).locked_of(pk) - spec_expired_exposure(
                        old(self).spec_side(is_stay_in),
                        pk,
                        now,
                    ) + spec_expired_exposure(self.spec_side(is_stay_in), pk, now),
                self.total_funds() == old(self).total_funds(),
                forall|pk: Pubkey|
                    self.trader_registered(pk) <==> old(self).trader_registered(pk),
                forall|x: int|
                    0 <= x < self.spec_side(is_stay_in).len() ==> old(self).spec_side(
                        is_stay_in,
                    ).contains(#[trigger] self.spec_side(is_stay_in)[x]),
                forall|pk: Pubkey, id: OrderId|
                    #![trigger self.orders_of(pk).contains(id)]
                    self.orders_of(pk).contains(id) <==> old(self).orders_of(pk).contains(id)
                        && (spec_expired_owned(old(self).spec_side(is_stay_in), pk, id, now)
                        ==> spec_expired_owned(self.spec_side(is_stay_in), pk, id, now)),
                forall|pk: Pubkey|
                    !spec_owns_expired(old(self).spec_side(is_stay_in), pk, now)
                        ==> self.orders_of(pk) == old(self).orders_of(pk),
            ensures
                j == self.spec_side(is_stay_in).len(),
                forall|x: int|
                    0 <= x < self.spec_side(is_stay_in).len() ==> !spec_order_expired(
                        #[trigger] self.spec_side(is_stay_in)[x],
                        now,
                    ),
            decreases self.spec_side(is_stay_in).len() - j,
        {
            let n = if is_stay_in {
                self.stay_in_orders.len()
            } else {
                self.breakout_orders.len()
            };
            if j >= n {
                break;
            }
            let o = if is_stay_in {
                self.stay_in_orders[j]
            } else {
                self.breakout_orders[j]
            };
            let is_expired = match o.expiration {
                Some(e) => e < now,
                None => false,
            };
            if !is_expired {
                j += 1;
                continue;
            }
            let owner = o.trader;
            proof {
                assert(self.trader_registered(owner)) by {
                    assert(self.spec_side(is_stay_in)[j as int] == o);
                }
            }
            let i = match self.find_trader_index(&owner) {
                None => {
                    proof {
                        assert(false);
                    }
                    return ;
                },
                Some(i) => i,
            };
            proof {
                self.lemma_trader_entry_at(i as int);
                self.lemma_order_amount_covered(i as int, j as int, is_stay_in);
            }
            let ghost iter_prev = *self;
            if is_stay_in {
                self.stay_in_orders.remove(j);
            } else {
                self.breakout_orders.remove(j);
            }
            let ghost mid = *self;
            let entry = &mut self.traders[i];
            entry.unlock_funds(o.amount);
            entry.remove_order(o.id);
            proof {
                self.lemma_cancel_finish(iter_prev, mid, i as int, j as int, owner, o, is_stay_in);
                lemma_filter_remove_excluded(
                    iter_prev.spec_side(is_stay_in),
                    j as int,
                    keep_order_fn(now),
                );
                assert forall|pk: Pubkey| spec_expired_exposure(self.spec_side(is_stay_in), pk, now)
                    == spec_expired_exposure(iter_prev.spec_side(is_stay_in), pk, now) - (
                if pk == owner {
                    o.amount as int
                } else {
                    0
                }) by {
                    lemma_sum_by_remove(
                        iter_prev.spec_side(is_stay_in),
                        j as int,
                        expired_order_measure(pk, now),
                    );
                }
                iter_prev.spec_side(is_stay_in).remove_ensures(j as int);
                self.lemma_sweep_sets_step(
                    iter_prev,
                    *old(self),
                    is_stay_in,
                    j as int,
                    now,
                    o,
                );
            }
        }
        proof {
            assert forall|pk: Pubkey|
                spec_expired_exposure(self.spec_side(is_stay_in), pk, now) == 0 by {
                let f = expired_order_measure(pk, now);
                assert forall|x: int| 0 <= x < self.spec_side(is_stay_in).len()
                    implies #[trigger] f(self.spec_side(is_stay_in)[x]) == 0 by {}
                crate::summation::lemma_sum_by_zero(self.spec_side(is_stay_in), f);
            }
            assert forall|x: int| 0 <= x < self.spec_side(is_stay_in).len()
                implies keep_order_fn(now)(#[trigger] self.spec_side(is_stay_in)[x]) by {}
            crate::summation::lemma_filter_all(self.spec_side(is_stay_in), keep_order_fn(now));
            // With no expired order left in the side, no pair is
            // expired-owned there, so the membership accounting closes.
            assert forall|pk: Pubkey, id: OrderId|
                !spec_expired_owned(self.spec_side(is_stay_in), pk, id, now) by {
                if spec_expired_owned(self.spec_side(is_stay_in), pk, id, now) {
                    let y = choose|y: int|
                        0 <= y < self.spec_side(is_stay_in).len() && (#[trigger] self.spec_side(
                            is_stay_in,
                        )[y]).trader == pk && self.spec_side(is_stay_in)[y].id == id
                            && spec_order_expired(self.spec_side(is_stay_in)[y], now);
                }
            }
        }
    }

    /// Sweep both books: every order whose `expiration` lies before `now`
    /// leaves its book, its key leaves its owner's order set, and its
    /// owner's funds are unlocked — recovering liquidity whose window
    /// lapsed without an explicit settlement. Traders owning no expired
    /// order are untouched, and the registry itself never changes.
    /// Idempotent: an order already removed is simply absent from the scan.
    pub fn process_orders(&mut self, now: u64)
        requires
            old(self).wf(),
        ensures
            final(self).wf(),
            final(self).stay_in_orders@ == old(self).stay_in_orders@.filter(keep_order_fn(now)),
            final(self).breakout_orders@ == old(self).breakout_orders@.filter(keep_order_fn(now)),
            final(self).positions == old(self).positions,
            final(self).base_price == old(self).base_price,
            final(self).next_sequence_number == old(self).next_sequence_number,
            final(self).asset_type == old(self).asset_type,
            final(self).min_percentage_width == old(self).min_percentage_width,
            final(self).max_percentage_width == old(self).max_percentage_width,
            forall|pk: Pubkey|
                final(self).free_of(pk) == old(self).free_of(pk) + spec_expired_exposure(
                    old(self).stay_in_orders@,
                    pk,
                    now,
                ) + spec_expired_exposure(old(self).breakout_orders@, pk, now)
                && final(self).locked_of(pk) == old(self).locked_of(pk) - spec_expired_exposure(
                    old(self).stay_in_orders@,
                    pk,
                    now,
                ) - spec_expired_exposure(old(self).breakout_orders@, pk, now),
            final(self).total_funds() == old(self).total_funds(),
            forall|pk: Pubkey|
                final(self).trader_registered(pk) <==> old(self).trader_registered(pk),
            forall|pk: Pubkey, id: OrderId|
                #![trigger final(self).orders_of(pk).contains(id)]
                final(self).orders_of(pk).contains(id) <==> old(self).orders_of(pk).contains(id)
                    && !spec_expired_owned(old(self).stay_in_orders@, pk, id, now)
                    && !spec_expired_owned(old(self).breakout_orders@, pk, id, now),
            forall|pk: Pubkey|
                !spec_owns_expired(old(self).stay_in_orders@, pk, now) && !spec_owns_expired(
                    old(self).breakout_orders@,
                    pk,
                    now,
                ) ==> final(self).orders_of(pk) == old(self).orders_of(pk),
    {
        self.sweep_side(true, now);
        let ghost mid = *self;
        self.sweep_side(false, now);
        proof {
            assert(mid.breakout_orders@ == old(self).breakout_orders@);
            assert forall|pk: Pubkey, id: OrderId|
                #![trigger self.orders_of(pk).contains(id)]
                self.orders_of(pk).contains(id) <==> old(self).orders_of(pk).contains(id)
                    && !spec_expired_owned(old(self).stay_in_orders@, pk, id, now)
                    && !spec_expired_owned(old(self).breakout_orders@, pk, id, now) by {
                assert(self.orders_of(pk).contains(id) <==> mid.orders_of(pk).contains(id)
                    && !spec_expired_owned(mid.breakout_orders@, pk, id, now));
                assert(mid.orders_of(pk).contains(id) <==> old(self).orders_of(pk).contains(id)
                    && !spec_expired_owned(old(self).stay_in_orders@, pk, id, now));
            }
            assert forall|pk: Pubkey| !spec_owns_expired(old(self).stay_in_orders@, pk, now)
                && !spec_owns_expired(old(self).breakout_orders@, pk, now)
                implies self.orders_of(pk) == old(self).orders_of(pk) by {
                assert(mid.orders_of(pk) == old(self).orders_of(pk));
                assert(self.orders_of(pk) == mid.orders_of(pk));
            }
        }
    }

    /// With the ledger entries untouched, every ledger projection is
    /// untouched.
    proof fn lemma_same_traders_projections(self, prev: PassageOrderbook)
        requires
            self.traders == prev.traders,
            forall|a: int, b: int|
                0 <= a < b < prev.traders@.len()
                    ==> (#[trigger] prev.traders@[a]).trader
                        != (#[trigger] prev.traders@[b]).trader,
        ensures
            forall|pk: Pubkey| self.trader_registered(pk) <==> prev.trader_registered(pk),
            forall|pk: Pubkey| #![auto]
                self.free_of(pk) == prev.free_of(pk) && self.locked_of(pk) == prev.locked_of(pk)
                    && self.orders_of(pk) == prev.orders_of(pk),
            self.total_funds() == prev.total_funds(),
    {
        assert forall|pk: Pubkey|
            self.trader_registered(pk) <==> prev.trader_registered(pk) by {
            if prev.trader_registered(pk) {
                let w = prev.trader_index(pk);
                assert(self.traders@[w].trader == pk);
            }
            if self.trader_registered(pk) {
                let w = choose|c: int|
                    0 <= c < self.traders@.len() && (#[trigger] self.traders@[c]).trader == pk;
                assert(prev.traders@[w].trader == pk);
            }
        }
        assert forall|pk: Pubkey| #![auto]
            self.free_of(pk) == prev.free_of(pk) && self.locked_of(pk) == prev.locked_of(pk)
                && self.orders_of(pk) == prev.orders_of(pk) by {
            if prev.trader_registered(pk) {
                let w = prev.trader_index(pk);
                prev.lemma_trader_entry_at(w);
                assert(self.traders@[w].trader == pk);
                self.lemma_trader_entry_at(w);
            }
        }
    }

    /// Whether a position opened by `user` carries the match sequence
    /// number `order_id`.
    pub open spec fn has_position(self, user: Pubkey, order_id: u64) -> bool {
        exists|x: int|
            0 <= x < self.positions@.len() && (#[trigger] self.positions@[x]).user == user
                && self.positions@[x].order_id == order_id
    }

    /// The index of that position (meaningful when present).
    pub open spec fn position_index(self, user: Pubkey, order_id: u64) -> int {
        choose|x: int|
            0 <= x < self.positions@.len() && (#[trigger] self.positions@[x]).user == user
                && self.positions@[x].order_id == order_id
    }

    /// The position of `user` under `order_id` (meaningful when present).
    pub open spec fn position_at(self, user: Pubkey, order_id: u64) -> PositionState {
        self.positions@[self.position_index(user, order_id)]
    }

    /// Under the book invariant, match sequence numbers identify positions.
    proof fn lemma_position_index_at(self, x: int)
        requires
            0 <= x < self.positions@.len(),
            forall|a: int, b: int|
                0 <= a < b < self.positions@.len()
                    ==> (#[trigger] self.positions@[a]).order_id
                        != (#[trigger] self.positions@[b]).order_id,
        ensures
            self.has_position(self.positions@[x].user, self.positions@[x].order_id),
            self.position_index(self.positions@[x].user, self.positions@[x].order_id) == x,
    {
        let user = self.positions@[x].user;
        let order_id = self.positions@[x].order_id;
        assert(self.has_position(user, order_id));
        let w = self.position_index(user, order_id);
        if w != x {
            if w < x {
                assert(self.positions@[w].order_id != self.positions@[x].order_id);
            } else {
                assert(self.positions@[x].order_id != self.positions@[w].order_id);
            }
        }
    }

    /// Find the position of `user` under `order_id`.
    fn find_position_index(&self, user: &Pubkey, order_id: u64) -> (r: Option<usize>)
        ensures
            match r {
                Some(x) => x < self.positions@.len() && self.positions@[x as int].user == *user
                    && self.positions@[x as int].order_id == order_id,
                None => !self.has_position(*user, order_id),
            },
    {
        let n = self.positions.len();
        let mut x: usize = 0;
        while x < n
            invariant
                x <= n,
                n == self.positions@.len(),
                forall|y: int|
                    0 <= y < x ==> !((#[trigger] self.positions@[y]).user == *user
                        && self.positions@[y].order_id == order_id),
            decreases n - x,
        {
            if self.positions[x].order_id == order_id && self.positions[x].user == *user {
                return Some(x);
            }
            x += 1;
        }
        None
    }

    /// The record a settlement at `now` and `price` writes.
    pub open spec fn spec_settled_position(p: PositionState, now: i64, price: u64) -> PositionState {
        PositionState {
            status: PositionStatus::Settled,
            settlement_data: Some(SettlementData {
                settlement_time: now,
                settlement_price: price,
                payout_percentage: spec_payout_percentage(
                    p.position_type,
                    p.start_time as int,
                    p.lower_bound as int,
                    p.upper_bound as int,
                    now as int,
                    price as int,
                ) as u8,
            }),
            ..p
        }
    }

    /// Settle the position `user` opened under `order_id`, against the
    /// injected clock reading and oracle price: compute the payout
    /// percentage and store the settlement data. One-shot: a position that
    /// is no longer `Active` is refused and nothing changes. Funds move
    /// only at the claim.
    pub fn settle_position(
        &mut self,
        user: Pubkey,
        order_id: u64,
        now: i64,
        price: u64,
    ) -> (result: Result<(), ErrorCode>)
        requires
            old(self).wf(),
            0 <= now,
        ensures
            final(self).wf(),
            final(self).total_funds() == old(self).total_funds(),
            !old(self).has_position(user, order_id) ==> result == Err::<(), ErrorCode>(
                ErrorCode::OrderNotFound,
            ) && *final(self) == *old(self),
            old(self).has_position(user, order_id) && old(self).position_at(
                user,
                order_id,
            ).status != PositionStatus::Active ==> result == Err::<(), ErrorCode>(
                ErrorCode::PositionAlreadySettled,
            ) && *final(self) == *old(self),
            old(self).has_position(user, order_id) && old(self).position_at(user, order_id).status
                == PositionStatus::Active ==> result == Ok::<(), ErrorCode>(()) && *final(self)
                == (PassageOrderbook { positions: final(self).positions, ..*old(self) })
                && final(self).positions@ == old(self).positions@.update(
                old(self).position_index(user, order_id),
                Self::spec_settled_position(old(self).position_at(user, order_id), now, price),
            ),
    {
        let x = match self.find_position_index(&user, order_id) {
            None => {
                return Err(ErrorCode::OrderNotFound);
            },
            Some(x) => x,
        };
        proof {
            self.lemma_position_index_at(x as int);
        }
        let p = self.positions[x];
        if !(p.status == PositionStatus::Active) {
            return Err(ErrorCode::PositionAlreadySettled);
        }
        let ghost prev = *self;
        let payout_percentage = p.calculate_payout(now, price);
        let slot = &mut self.positions[x];
        let settled = slot.settle(now, price, payout_percentage);
        proof {
            assert(settled is Ok);
            let p2 = self.positions@[x as int];
            assert(p2 == Self::spec_settled_position(p, now, price));
            self.lemma_same_traders_projections(prev);
            assert forall|pk: Pubkey| self.exposure(pk) == prev.exposure(pk) by {
                let fp = position_measure(pk);
                lemma_sum_by_update(prev.positions@, x as int, fp, p2);
                assert(fp(p2) == fp(p));
            }
            assert forall|c: int| 0 <= c < self.traders@.len()
                implies (#[trigger] self.traders@[c]).locked_funds
                    == self.exposure(self.traders@[c].trader) by {
                assert(prev.traders@[c].locked_funds == prev.exposure(prev.traders@[c].trader));
            }
            assert forall|y: int| 0 <= y < self.positions@.len()
                implies self.position_wf(#[trigger] self.positions@[y]) by {
                assert(prev.position_wf(prev.positions@[y]));
                if y == x {
                    assert(self.positions@[y] == p2);
                } else {
                    assert(self.positions@[y] == prev.positions@[y]);
                }
            }
            assert forall|a: int, b: int| 0 <= a < b < self.positions@.len()
                implies (#[trigger] self.positions@[a]).order_id
                    != (#[trigger] self.positions@[b]).order_id by {
                assert(self.positions@[a].order_id == prev.positions@[a].order_id);
                assert(self.positions@[b].order_id == prev.positions@[b].order_id);
            }
            assert forall|y: int| 0 <= y < self.stay_in_orders@.len()
                implies self.trader_registered((#[trigger] self.stay_in_orders@[y]).trader) by {
                assert(prev.trader_registered(prev.stay_in_orders@[y].trader));
            }
            assert forall|y: int| 0 <= y < self.breakout_orders@.len()
                implies self.trader_registered((#[trigger] self.breakout_orders@[y]).trader) by {
                assert(prev.trader_registered(prev.breakout_orders@[y].trader));
            }
        }
        Ok(())
    }

    /// An unclaimed position's stake never exceeds its parties' locked
    /// funds: it is one non-negative summand of the exposure the locked
    /// funds equal.
    proof fn lemma_position_amount_covered(self, x: int)
        requires
            self.wf(),
            0 <= x < self.positions@.len(),
            self.positions@[x].status != PositionStatus::Claimed,
        ensures
            self.trader_registered(self.positions@[x].user),
            self.trader_registered(self.positions@[x].funder),
            self.positions@[x].user != self.positions@[x].funder ==> self.positions@[x].amount
                <= self.locked_of(self.positions@[x].user) && self.positions@[x].amount
                <= self.locked_of(self.positions@[x].funder),
            self.positions@[x].user == self.positions@[x].funder ==> 2 * self.positions@[x].amount
                <= self.locked_of(self.positions@[x].user),
    {
        let p = self.positions@[x];
        assert(self.position_wf(p));
        self.lemma_party_exposure_bound(x, p.user);
        self.lemma_party_exposure_bound(x, p.funder);
    }

    /// One party's stake in one unclaimed position is bounded by that
    /// party's locked funds.
    proof fn lemma_party_exposure_bound(self, x: int, pk: Pubkey)
        requires
            self.wf(),
            0 <= x < self.positions@.len(),
            self.positions@[x].status != PositionStatus::Claimed,
            pk == self.positions@[x].user || pk == self.positions@[x].funder,
        ensures
            self.trader_registered(pk),
            position_measure(pk)(self.positions@[x]) <= self.locked_of(pk),
    {
        let p = self.positions@[x];
        assert(self.position_wf(p));
        let fo = order_measure(pk);
        let fp = position_measure(pk);
        assert(forall|y: int| 0 <= y < self.stay_in_orders@.len()
            ==> #[trigger] fo(self.stay_in_orders@[y]) >= 0);
        assert(forall|y: int| 0 <= y < self.breakout_orders@.len()
            ==> #[trigger] fo(self.breakout_orders@[y]) >= 0);
        assert(forall|y: int| 0 <= y < self.positions@.len()
            ==> #[trigger] fp(self.positions@[y]) >= 0);
        lemma_sum_by_nonneg(self.stay_in_orders@, fo);
        lemma_sum_by_nonneg(self.breakout_orders@, fo);
        lemma_sum_by_element_bound(self.positions@, x, fp);
        let w = self.trader_index(pk);
        self.lemma_trader_entry_at(w);
        assert(self.traders@[w].locked_funds == self.exposure(pk));
    }

    /// Claim the settled payout of the position `user` opened under
    /// `order_id`. The zero-sum split of the doubled stake goes through:
    /// the taker receives `amount * percentage / 100`, the funder the
    /// remainder, and both sides' stakes unlock. One-shot: a position that
    /// is not `Settled` — not yet settled, or already claimed — is refused
    /// and nothing changes, so a position pays out at most once.
    pub fn claim_position(&mut self, user: Pubkey, order_id: u64) -> (result: Result<
        u64,
        ErrorCode,
    >)
        requires
            old(self).wf(),
            old(self).has_position(user, order_id) && old(self).position_at(
                user,
                order_id,
            ).status == PositionStatus::Settled && old(self).position_at(user, order_id).user
                != old(self).position_at(user, order_id).funder ==> {
                let p = old(self).position_at(user, order_id);
                old(self).free_of(p.user) + old(self).locked_of(p.user) + p.amount <= u64::MAX
                    && old(self).free_of(p.funder) + old(self).locked_of(p.funder) + p.amount
                    <= u64::MAX
            },
        ensures
            final(self).wf(),
            !old(self).has_position(user, order_id) ==> result == Err::<u64, ErrorCode>(
                ErrorCode::OrderNotFound,
            ) && *final(self) == *old(self),
            old(self).has_position(user, order_id) && old(self).position_at(
                user,
                order_id,
            ).status != PositionStatus::Settled ==> result == Err::<u64, ErrorCode>(
                ErrorCode::PositionNotSettled,
            ) && *final(self) == *old(self),
            old(self).has_position(user, order_id) && old(self).position_at(
                user,
                order_id,
            ).status == PositionStatus::Settled ==> {
                let p = old(self).position_at(user, order_id);
                let x = old(self).position_index(user, order_id);
                let claim = p.spec_claim_amount();
                &&& result == Ok::<u64, ErrorCode>(claim as u64)
                &&& final(self).positions@ == old(self).positions@.update(
                    x,
                    PositionState { status: PositionStatus::Claimed, ..p },
                )
                &&& final(self).stay_in_orders == old(self).stay_in_orders
                &&& final(self).breakout_orders == old(self).breakout_orders
                &&& final(self).base_price == old(self).base_price
                &&& final(self).next_sequence_number == old(self).next_sequence_number
                &&& (p.user != p.funder ==> final(self).free_of(p.user) == old(self).free_of(
                    p.user,
                ) + claim && final(self).locked_of(p.user) == old(self).locked_of(p.user)
                    - p.amount && final(self).free_of(p.funder) == old(self).free_of(p.funder) + (2
                    * p.amount - claim) && final(self).locked_of(p.funder) == old(self).locked_of(
                    p.funder,
                ) - p.amount)
                &&& (p.user == p.funder ==> final(self).free_of(p.user) == old(self).free_of(
                    p.user,
                ) + 2 * p.amount && final(self).locked_of(p.user) == old(self).locked_of(p.user)
                    - 2 * p.amount)
                &&& (forall|pk: Pubkey|
                    pk != p.user && pk != p.funder ==> final(self).free_of(pk) == old(
                        self,
                    ).free_of(pk) && final(self).locked_of(pk) == old(self).locked_of(pk))
                &&& (forall|pk: Pubkey| final(self).orders_of(pk) == old(self).orders_of(pk))
                &&& final(self).total_funds() == old(self).total_funds()
            },
    {
        let x = match self.find_position_index(&user, order_id) {
            None => {
                return Err(ErrorCode::OrderNotFound);
            },
            Some(x) => x,
        };
        proof {
            self.lemma_position_index_at(x as int);
        }
        let p = self.positions[x];
        if !(p.status == PositionStatus::Settled) {
            return Err(ErrorCode::PositionNotSettled);
        }
        proof {
            assert(self.position_wf(self.positions@[x as int]));
        }
        let data = match p.settlement_data {
            Some(d) => d,
            None => {
                proof {
                    assert(false);
                }
                return Err(ErrorCode::PositionNotSettled);
            },
        };
        proof {
            p.lemma_claim_amount_bounds();
            self.lemma_position_amount_covered(x as int);
        }
        let payout = ((p.amount as u128) * (data.payout_percentage as u128) / 100) as u64;
        let funder_part = 2 * p.amount - payout;
        let funder = p.funder;
        let i_u = match self.find_trader_index(&user) {
            None => {
                proof {
                    assert(false);
                }
                return Err(ErrorCode::TraderNotRegistered);
            },
            Some(i) => i,
        };
        let i_f = match self.find_trader_index(&funder) {
            None => {
                proof {
                    assert(false);
                }
                return Err(ErrorCode::TraderNotRegistered);
            },
            Some(i) => i,
        };
        proof {
            self.lemma_trader_entry_at(i_u as int);
            self.lemma_trader_entry_at(i_f as int);
        }
        let ghost prev = *self;
        let slot = &mut self.positions[x];
        let claimed = slot.claim();
        proof {
            assert(claimed is Ok);
        }
        let ghost after_pos = *self;
        if i_u == i_f {
            proof {
                assert(user == funder);
            }
            let entry = &mut self.traders[i_u];
            entry.locked_funds = entry.locked_funds - p.amount - p.amount;
            entry.free_funds = entry.free_funds + payout + funder_part;
        } else {
            proof {
                assert(user != funder);
            }
            let eu = &mut self.traders[i_u];
            eu.locked_funds = eu.locked_funds - p.amount;
            eu.free_funds = eu.free_funds + payout;
            let ef = &mut self.traders[i_f];
            ef.locked_funds = ef.locked_funds - p.amount;
            ef.free_funds = ef.free_funds + funder_part;
        }
        proof {
            self.lemma_claim_finish(prev, after_pos, x as int, i_u as int, i_f as int, payout);
        }
        Ok(payout)
    }

    /// Bookkeeping for a completed claim: the position turned `Claimed`,
    /// which removes its stake from both parties' exposures, and the ledger
    /// released exactly those stakes — the taker's share plus the funder's
    /// share add up to the doubled stake, so the total is conserved.
    #[verifier::rlimit(60)]
    proof fn lemma_claim_finish(
        self,
        prev: PassageOrderbook,
        after_pos: PassageOrderbook,
        x: int,
        i_u: int,
        i_f: int,
        payout: u64,
    )
        requires
            prev.wf(),
            0 <= x < prev.positions@.len(),
            prev.positions@[x].status == PositionStatus::Settled,
            payout as int == prev.positions@[x].spec_claim_amount(),
            payout <= 2 * prev.positions@[x].amount,
            0 <= i_u < prev.traders@.len(),
            prev.traders@[i_u].trader == prev.positions@[x].user,
            0 <= i_f < prev.traders@.len(),
            prev.traders@[i_f].trader == prev.positions@[x].funder,
            i_u == i_f ==> 2 * prev.positions@[x].amount <= prev.traders@[i_u].locked_funds,
            i_u != i_f ==> prev.positions@[x].amount <= prev.traders@[i_u].locked_funds
                && prev.positions@[x].amount <= prev.traders@[i_f].locked_funds
                && prev.traders@[i_u].free_funds + prev.traders@[i_u].locked_funds
                + prev.positions@[x].amount <= u64::MAX
                && prev.traders@[i_f].free_funds + prev.traders@[i_f].locked_funds
                + prev.positions@[x].amount <= u64::MAX,
            // After the position turned Claimed:
            after_pos == (PassageOrderbook { positions: after_pos.positions, ..prev }),
            after_pos.positions@ == prev.positions@.update(
                x,
                PositionState { status: PositionStatus::Claimed, ..prev.positions@[x] },
            ),
            // After the ledger released the stakes:
            self == (PassageOrderbook { traders: self.traders, ..after_pos }),
            i_u == i_f ==> self.traders@ == prev.traders@.update(i_u, self.traders@[i_u])
                && self.traders@[i_u] == (TraderState {
                free_funds: (prev.traders@[i_u].free_funds + 2 * prev.positions@[x].amount) as u64,
                locked_funds: (prev.traders@[i_u].locked_funds - 2 * prev.positions@[x].amount) as u64,
                orders: self.traders@[i_u].orders,
                trader: prev.traders@[i_u].trader,
            }) && self.traders@[i_u].orders == prev.traders@[i_u].orders,
            i_u != i_f ==> self.traders@ == prev.traders@.update(
                i_u,
                self.traders@[i_u],
            ).update(i_f, self.traders@[i_f]) && self.traders@[i_u] == (TraderState {
                free_funds: (prev.traders@[i_u].free_funds + payout) as u64,
                locked_funds: (prev.traders@[i_u].locked_funds - prev.positions@[x].amount) as u64,
                orders: self.traders@[i_u].orders,
                trader: prev.traders@[i_u].trader,
            }) && self.traders@[i_f] == (TraderState {
                free_funds: (prev.traders@[i_f].free_funds + 2 * prev.positions@[x].amount
                    - payout) as u64,
                locked_funds: (prev.traders@[i_f].locked_funds - prev.positions@[x].amount) as u64,
                orders: self.traders@[i_f].orders,
                trader: prev.traders@[i_f].trader,
            }) && self.traders@[i_u].orders == prev.traders@[i_u].orders
                && self.traders@[i_f].orders == prev.traders@[i_f].orders,
        ensures
            self.wf(),
            self.positions@ == prev.positions@.update(
                x,
                PositionState { status: PositionStatus::Claimed, ..prev.positions@[x] },
            ),
            self.stay_in_orders == prev.stay_in_orders,
            self.breakout_orders == prev.breakout_orders,
            prev.positions@[x].user != prev.positions@[x].funder ==> self.free_of(
                prev.positions@[x].user,
            ) == prev.free_of(prev.positions@[x].user) + payout && self.locked_of(
                prev.positions@[x].user,
            ) == prev.locked_of(prev.positions@[x].user) - prev.positions@[x].amount
                && self.free_of(prev.positions@[x].funder) == prev.free_of(
                prev.positions@[x].funder,
            ) + (2 * prev.positions@[x].amount - payout) && self.locked_of(
                prev.positions@[x].funder,
            ) == prev.locked_of(prev.positions@[x].funder) - prev.positions@[x].amount,
            prev.positions@[x].user == prev.positions@[x].funder ==> self.free_of(
                prev.positions@[x].user,
            ) == prev.free_of(prev.positions@[x].user) + 2 * prev.positions@[x].amount
                && self.locked_of(prev.positions@[x].user) == prev.locked_of(
                prev.positions@[x].user,
            ) - 2 * prev.positions@[x].amount,
            forall|pk: Pubkey|
                pk != prev.positions@[x].user && pk != prev.positions@[x].funder ==> self.free_of(
                    pk,
                ) == prev.free_of(pk) && self.locked_of(pk) == prev.locked_of(pk),
            forall|pk: Pubkey| self.orders_of(pk) == prev.orders_of(pk),
            self.total_funds() == prev.total_funds(),
            forall|pk: Pubkey| self.trader_registered(pk) <==> prev.trader_registered(pk),
    {
        let p = prev.positions@[x];
        let user = p.user;
        let funder = p.funder;
        let a = p.amount as int;
        let p2 = PositionState { status: PositionStatus::Claimed, ..p };
        // Keys at i_u and i_f decide whether user == funder.
        prev.lemma_trader_entry_at(i_u);
        prev.lemma_trader_entry_at(i_f);
        assert(i_u == i_f <==> user == funder) by {
            if i_u != i_f && user == funder {
                if i_u < i_f {
                    assert(prev.traders@[i_u].trader != prev.traders@[i_f].trader);
                } else {
                    assert(prev.traders@[i_f].trader != prev.traders@[i_u].trader);
                }
            }
        }
        // Ledger projections across the one or two entry updates.
        if i_u == i_f {
            self.lemma_ledger_update_same_key(prev, i_u);
            self.lemma_trader_entry_at(i_u);
            lemma_sum_by_update(prev.traders@, i_u, trader_measure(), self.traders@[i_u]);
        }
        // Exposure deltas: turning the position Claimed removes its stake
        // from each party's exposure.
        assert forall|pk: Pubkey| self.exposure(pk) == prev.exposure(pk) - (if pk == user {
            a
        } else {
            0
        }) - (if pk == funder {
            a
        } else {
            0
        }) by {
            let fp = position_measure(pk);
            lemma_sum_by_update(prev.positions@, x, fp, p2);
            assert(fp(p2) == 0);
            assert(fp(p) == (if pk == user { a } else { 0 }) + (if pk == funder { a } else { 0 }));
        }
        // The two-entry case needs its own projection reasoning.
        if i_u != i_f {
            let t1 = prev.traders@.update(i_u, self.traders@[i_u]);
            assert(self.traders@ == t1.update(i_f, self.traders@[i_f]));
            assert forall|pk: Pubkey| self.trader_registered(pk)
                <==> prev.trader_registered(pk) by {
                if prev.trader_registered(pk) {
                    let w = prev.trader_index(pk);
                    assert(self.traders@[w].trader == pk);
                }
                if self.trader_registered(pk) {
                    let w = choose|c: int|
                        0 <= c < self.traders@.len() && (#[trigger] self.traders@[c]).trader == pk;
                    assert(prev.traders@[w].trader == pk);
                }
            }
            assert forall|a2: int, b2: int| 0 <= a2 < b2 < self.traders@.len()
                implies (#[trigger] self.traders@[a2]).trader
                    != (#[trigger] self.traders@[b2]).trader by {
                assert(self.traders@[a2].trader == prev.traders@[a2].trader);
                assert(self.traders@[b2].trader == prev.traders@[b2].trader);
            }
            self.lemma_trader_entry_at(i_u);
            self.lemma_trader_entry_at(i_f);
            lemma_sum_by_update(prev.traders@, i_u, trader_measure(), self.traders@[i_u]);
            lemma_sum_by_update(t1, i_f, trader_measure(), self.traders@[i_f]);
            assert(t1[i_f] == prev.traders@[i_f]);
        }
        // The lock invariant at every ledger entry.
        assert forall|c: int| 0 <= c < self.traders@.len()
            implies (#[trigger] self.traders@[c]).locked_funds
                == self.exposure(self.traders@[c].trader) by {
            let pk = self.traders@[c].trader;
            assert(pk == prev.traders@[c].trader);
            assert(prev.traders@[c].locked_funds == prev.exposure(pk));
            if c != i_u && c != i_f {
                assert(self.traders@[c] == prev.traders@[c]);
                assert(pk != user) by {
                    if pk == user {
                        if c < i_u {
                            assert(prev.traders@[c].trader != prev.traders@[i_u].trader);
                        } else {
                            assert(prev.traders@[i_u].trader != prev.traders@[c].trader);
                        }
                    }
                }
                assert(pk != funder) by {
                    if pk == funder {
                        if c < i_f {
                            assert(prev.traders@[c].trader != prev.traders@[i_f].trader);
                        } else {
                            assert(prev.traders@[i_f].trader != prev.traders@[c].trader);
                        }
                    }
                }
            }
        }
        // Side well-formedness: books and ledger keys are untouched.
        assert forall|y: int| 0 <= y < self.stay_in_orders@.len()
            implies (#[trigger] self.stay_in_orders@[y]).wf()
                && self.stay_in_orders@[y].id.sequence_number < self.next_sequence_number
                && self.trader_registered(self.stay_in_orders@[y].trader) by {
            assert(prev.trader_registered(prev.stay_in_orders@[y].trader));
        }
        assert forall|y: int| 0 <= y < self.breakout_orders@.len()
            implies (#[trigger] self.breakout_orders@[y]).wf()
                && self.breakout_orders@[y].id.sequence_number < self.next_sequence_number
                && self.trader_registered(self.breakout_orders@[y].trader) by {
            assert(prev.trader_registered(prev.breakout_orders@[y].trader));
        }
        assert(self.side_wf(self.stay_in_orders@));
        assert(self.side_wf(self.breakout_orders@));
        // Position well-formedness, including the claimed record.
        assert(prev.position_wf(p));
        assert(p2.wf());
        assert forall|y: int| 0 <= y < self.positions@.len()
            implies self.position_wf(#[trigger] self.positions@[y]) by {
            assert(prev.position_wf(prev.positions@[y]));
            if y == x {
                assert(self.positions@[y] == p2);
            } else {
                assert(self.positions@[y] == prev.positions@[y]);
            }
        }
        assert forall|a2: int, b2: int| 0 <= a2 < b2 < self.positions@.len()
            implies (#[trigger] self.positions@[a2]).order_id
                != (#[trigger] self.positions@[b2]).order_id by {
            assert(self.positions@[a2].order_id == prev.positions@[a2].order_id);
            assert(self.positions@[b2].order_id == prev.positions@[b2].order_id);
        }
        // Projections for everyone else.
        assert forall|pk: Pubkey| pk != user && pk != funder implies self.free_of(pk)
            == prev.free_of(pk) && self.locked_of(pk) == prev.locked_of(pk) by {
            if prev.trader_registered(pk) {
                let w = prev.trader_index(pk);
                prev.lemma_trader_entry_at(w);
                assert(self.traders@[w].trader == pk);
                self.lemma_trader_entry_at(w);
                assert(w != i_u && w != i_f);
            }
        }
        assert forall|pk: Pubkey| self.orders_of(pk) == prev.orders_of(pk) by {
            if prev.trader_registered(pk) {
                let w = prev.trader_index(pk);
                prev.lemma_trader_entry_at(w);
                assert(self.traders@[w].trader == pk);
                self.lemma_trader_entry_at(w);
                assert(self.traders@[w].orders == prev.traders@[w].orders);
            }
        }
    }

    /// The lock invariant, as a law of every well-formed book: a trader's
    /// locked funds equal the sum of the amounts of their resting orders
    /// plus their stake in every position not yet claimed.
    pub proof fn lemma_lock_invariant(self, i: int)
        requires
            self.wf(),
            0 <= i < self.traders@.len(),
        ensures
            self.traders@[i].locked_funds == self.exposure(self.traders@[i].trader),
            self.locked_of(self.traders@[i].trader) == self.exposure(self.traders@[i].trader),
    {
        self.lemma_trader_entry_at(i);
    }

    /// A snapshot of the resting StayIn book, in book order.
    pub fn get_stay_in_orderbook(&self) -> (r: Vec<Order>)
        ensures
            r@ == self.stay_in_orders@,
    {
        copy_orders(&self.stay_in_orders)
    }

    /// A snapshot of the resting Breakout book, in book order.
    pub fn get_breakout_orderbook(&self) -> (r: Vec<Order>)
        ensures
            r@ == self.breakout_orders@,
    {
        copy_orders(&self.breakout_orders)
    }

    /// Whether the StayIn order under `order_id` would currently pay out:
    /// its band, resolved from its own reference price and width, still
    /// contains `current_price`.
    pub fn is_stay_in_profitable(&self, order_id: OrderId, current_price: u64) -> (r: Result<
        bool,
        ErrorCode,
    >)
        requires
            forall|i: int|
                0 <= i < self.stay_in_orders@.len() ==> (#[trigger] self.stay_in_orders@[i]).wf(),
            sorted_by_id(self.stay_in_orders@),
        ensures
            !contains_order(self.stay_in_orders@, order_id) ==> r == Err::<bool, ErrorCode>(
                ErrorCode::OrderNotFound,
            ),
            contains_order(self.stay_in_orders@, order_id) ==> {
                let o = self.stay_in_orders@[order_index_of(self.stay_in_orders@, order_id)];
                if o.status != OrderStatus::Active {
                    r == Err::<bool, ErrorCode>(ErrorCode::OrderNotActive)
                } else {
                    r == Ok::<bool, ErrorCode>(!spec_outside_range(
                        spec_lower_bound(o.base_price as int, o.width_percentage_scaled as int),
                        spec_upper_bound(o.base_price as int, o.width_percentage_scaled as int),
                        current_price as int,
                    ))
                }
            },
    {
        let j = match find_order(&self.stay_in_orders, &order_id) {
            None => {
                return Err(ErrorCode::OrderNotFound);
            },
            Some(j) => j,
        };
        proof {
            lemma_order_index_unique(self.stay_in_orders@, j as int);
        }
        let o = self.stay_in_orders[j];
        if !(o.status == OrderStatus::Active) {
            return Err(ErrorCode::OrderNotActive);
        }
        let bounds = crate::payout::price_bounds(o.base_price, o.width_percentage_scaled);
        Ok(current_price >= bounds.0 && current_price <= bounds.1)
    }

    /// Whether the Breakout order under `order_id` would currently pay
    /// out: `current_price` has left the order's band.
    pub fn is_breakout_profitable(&self, order_id: OrderId, current_price: u64) -> (r: Result<
        bool,
        ErrorCode,
    >)
        requires
            forall|i: int|
                0 <= i < self.breakout_orders@.len()
                    ==> (#[trigger] self.breakout_orders@[i]).wf(),
            sorted_by_id(self.breakout_orders@),
        ensures
            !contains_order(self.breakout_orders@, order_id) ==> r == Err::<bool, ErrorCode>(
                ErrorCode::OrderNotFound,
            ),
            contains_order(self.breakout_orders@, order_id) ==> {
                let o = self.breakout_orders@[order_index_of(self.breakout_orders@, order_id)];
                if o.status != OrderStatus::Active {
                    r == Err::<bool, ErrorCode>(ErrorCode::OrderNotActive)
                } else {
                    r == Ok::<bool, ErrorCode>(spec_outside_range(
                        spec_lower_bound(o.base_price as int, o.width_percentage_scaled as int),
                        spec_upper_bound(o.base_price as int, o.width_percentage_scaled as int),
                        current_price as int,
                    ))
                }
            },
    {
        let j = match find_order(&self.breakout_orders, &order_id) {
            None => {
                return Err(ErrorCode::OrderNotFound);
            },
            Some(j) => j,
        };
        proof {
            lemma_order_index_unique(self.breakout_orders@, j as int);
        }
        let o = self.breakout_orders[j];
        if !(o.status == OrderStatus::Active) {
            return Err(ErrorCode::OrderNotActive);
        }
        let bounds = crate::payout::price_bounds(o.base_price, o.width_percentage_scaled);
        Ok(current_price < bounds.0 || current_price > bounds.1)
    }

    /// Aggregate one side for display: one `(width, total amount)` entry
    /// per distinct width, in increasing width order, each totalling that
    /// width's resting amounts — exactly [`spec_aggregate`] of the side.
    pub fn get_aggregated_orderbook(&self, order_type: OrderType) -> (r: Vec<(u64, u64)>)
        requires
            self.wf(),
            sum_by(
                match order_type {
                    OrderType::StayIn => self.stay_in_orders@,
                    OrderType::Breakout => self.breakout_orders@,
                },
                full_amount_measure(),
            ) <= u64::MAX,
        ensures
            r@ == spec_aggregate(
                match order_type {
                    OrderType::StayIn => self.stay_in_orders@,
                    OrderType::Breakout => self.breakout_orders@,
                },
            ),
    {
        let side = match order_type {
            OrderType::StayIn => &self.stay_in_orders,
            OrderType::Breakout => &self.breakout_orders,
        };
        let ghost s = side@;
        let ghost full = full_amount_measure();
        let n = side.len();
        let mut r: Vec<(u64, u64)> = Vec::new();
        let mut j: usize = 0;
        while j < n
            invariant
                j <= n,
                n == s.len(),
                side@ == s,
                sum_by(s, full) <= u64::MAX,
                full == full_amount_measure(),
                r@ == spec_aggregate(s.take(j as int)),
                forall|k: int| 0 <= k < r@.len() ==> (#[trigger] r@[k]).1 <= sum_by(
                    s.take(j as int),
                    full,
                ),
            decreases n - j,
        {
            let o = side[j];
            let ghost t0 = s.take(j as int);
            let ghost t1 = s.take(j + 1);
            proof {
                assert(t1.drop_last() == t0);
                assert(t1.last() == s[j as int]);
                assert(sum_by(t1, full) == sum_by(t0, full) + o.amount);
                assert(forall|x: int| 0 <= x < s.len() ==> #[trigger] full(s[x]) >= 0);
                crate::summation::lemma_sum_by_take_le(s, j + 1, full);
            }
            let same_group = if r.len() > 0 {
                r[r.len() - 1].0 == o.width_percentage_scaled
            } else {
                false
            };
            let ghost r0 = r@;
            if same_group {
                let k = r.len() - 1;
                let cur = r[k];
                r[k] = (cur.0, cur.1 + o.amount);
                proof {
                    assert(r@ == spec_aggregate(t1));
                    assert forall|k2: int| 0 <= k2 < r@.len() implies (#[trigger] r@[k2]).1
                        <= sum_by(t1, full) by {
                        if k2 < k {
                            assert(r@[k2] == r0[k2]);
                        }
                    }
                }
            } else {
                r.push((o.width_percentage_scaled, o.amount));
                proof {
                    assert(r@ == spec_aggregate(t1));
                    assert forall|k2: int| 0 <= k2 < r@.len() implies (#[trigger] r@[k2]).1
                        <= sum_by(t1, full) by {
                        if k2 < r0.len() {
                            assert(r@[k2] == r0[k2]);
                        } else {
                            crate::summation::lemma_sum_by_nonneg(t0, full);
                        }
                    }
                }
            }
            j += 1;
        }
        proof {
            assert(s.take(n as int) == s);
        }
        r
    }

    /// Feed a new reference price (the oracle-driven update).
    pub fn update_base_price(&mut self, new_price: u64)
        requires
            old(self).wf(),
            new_price <= u64::MAX / 2,
        ensures
            final(self).wf(),
            *final(self) == (PassageOrderbook { base_price: new_price, ..*old(self) }),
    {
        self.base_price = new_price;
        proof {
            let prev = *old(self);
            assert forall|pk: Pubkey| self.exposure(pk) == prev.exposure(pk) by {}
            assert forall|pk: Pubkey|
                self.trader_registered(pk) == prev.trader_registered(pk) by {
                if prev.trader_registered(pk) {
                    let w = prev.trader_index(pk);
                    assert(self.traders@[w].trader == pk);
                }
                if self.trader_registered(pk) {
                    let w = choose|k: int|
                        0 <= k < self.traders@.len() && (#[trigger] self.traders@[k]).trader == pk;
                    assert(prev.traders@[w].trader == pk);
                }
            }
            assert forall|k: int| 0 <= k < self.traders@.len()
                implies (#[trigger] self.traders@[k]).locked_funds
                    == self.exposure(self.traders@[k].trader) by {
                assert(prev.traders@[k].locked_funds == prev.exposure(prev.traders@[k].trader));
            }
        }
    }
}

} // verus!
