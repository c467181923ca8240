//! Per-trader ledger entry: free and locked balances and the set of owned
//! order ids. Funds move between free and locked only through `lock_funds`
//! and `unlock_funds`; the two never create or destroy value.

use vstd::prelude::*;
use crate::order::OrderId;
use crate::pubkey::Pubkey;

verus! {

/// The sequence with every occurrence of `id` removed, keeping the order of
/// the rest.
pub open spec fn remove_id(s: Seq<OrderId>, id: OrderId) -> Seq<OrderId>
    decreases s.len(),
{
    if s.len() == 0 {
        s
    } else if s.last() == id {
        remove_id(s.drop_last(), id)
    } else {
        remove_id(s.drop_last(), id).push(s.last())
    }
}

/// Removing an id not present changes nothing; removing one removes it.
pub proof fn lemma_remove_id_membership(s: Seq<OrderId>, id: OrderId, other: OrderId)
    ensures
        remove_id(s, id).contains(other) <==> (s.contains(other) && other != id),
    decreases s.len(),
{
    broadcast use vstd::seq_lib::group_seq_properties;

    if s.len() > 0 {
        lemma_remove_id_membership(s.drop_last(), id, other);
        assert(s.contains(other) <==> (s.drop_last().contains(other) || s.last() == other)) by {
            if s.contains(other) {
                let i = choose|i: int| 0 <= i < s.len() && s[i] == other;
                if i < s.len() - 1 {
                    assert(s.drop_last()[i] == other);
                }
            }
            if s.drop_last().contains(other) {
                let i = choose|i: int| 0 <= i < s.drop_last().len() && s.drop_last()[i] == other;
                assert(s[i] == other);
            }
            assert(s[s.len() - 1] == s.last());
        }
        if s.last() != id {
            let r = remove_id(s.drop_last(), id);
            assert(r.push(s.last()).contains(other) <==> (r.contains(other) || s.last() == other))
                by {
                if r.push(s.last()).contains(other) {
                    let i = choose|i: int|
                        0 <= i < r.push(s.last()).len() && r.push(s.last())[i] == other;
                    if i < r.len() {
                        assert(r[i] == other);
                    }
                }
                if r.contains(other) {
                    let i = choose|i: int| 0 <= i < r.len() && r[i] == other;
                    assert(r.push(s.last())[i] == other);
                }
                assert(r.push(s.last())[r.len() as int] == s.last());
            }
        }
    }
}

/// Removing an id that is not in the set changes nothing: the removal
/// that backs `remove_order` is idempotent, which keeps settlement and
/// cancel races safe.
pub proof fn lemma_remove_id_absent_noop(s: Seq<OrderId>, id: OrderId)
    requires
        !s.contains(id),
    ensures
        remove_id(s, id) == s,
    decreases s.len(),
{
    if s.len() > 0 {
        assert(s[s.len() - 1] == s.last());
        assert(s.last() != id);
        assert(!s.drop_last().contains(id)) by {
            if s.drop_last().contains(id) {
                let i = choose|i: int|
                    0 <= i < s.drop_last().len() && s.drop_last()[i] == id;
                assert(s[i] == id);
            }
        }
        lemma_remove_id_absent_noop(s.drop_last(), id);
        assert(s.drop_last().push(s.last()) =~= s);
    }
}

/// A trader's ledger entry and owned-order bookkeeping.
#[derive(Debug)]
pub struct TraderState {
    /// The trader's identity, already authenticated by the caller.
    pub trader: Pubkey,
    /// Funds locked behind open orders and running positions.
    pub locked_funds: u64,
    /// Funds available for new orders and positions.
    pub free_funds: u64,
    /// Ids of the liquidity orders this trader has resting in the books.
    pub orders: Vec<OrderId>,
}

impl TraderState {
    /// The ledger's balance pair always fits the machine word that carries
    /// their sum.
    pub open spec fn wf(self) -> bool {
        self.free_funds + self.locked_funds <= u64::MAX
    }

    /// Everything the trader holds, free or locked.
    pub open spec fn spec_total(self) -> int {
        self.free_funds + self.locked_funds
    }

    /// A fresh entry: all funds free, nothing locked, no orders.
    pub fn new(trader: Pubkey, initial_funds: u64) -> (r: TraderState)
        ensures
            r.trader == trader,
            r.free_funds == initial_funds,
            r.locked_funds == 0,
            r.orders@ =~= Seq::<OrderId>::empty(),
            r.wf(),
    {
        TraderState { trader, locked_funds: 0, free_funds: initial_funds, orders: Vec::new() }
    }

    /// Move `amount` from free to locked, all or nothing: returns whether
    /// the free balance covered it; on failure nothing changes.
    pub fn lock_funds(&mut self, amount: u64) -> (r: bool)
        requires
            old(self).wf(),
        ensures
            r == (old(self).free_funds >= amount),
            r ==> *final(self) == (TraderState {
                free_funds: (old(self).free_funds - amount) as u64,
                locked_funds: (old(self).locked_funds + amount) as u64,
                ..*old(self)
            }),
            !r ==> *final(self) == *old(self),
            final(self).wf(),
            final(self).spec_total() == old(self).spec_total(),
    {
        if self.free_funds >= amount {
            self.free_funds = self.free_funds - amount;
            self.locked_funds = self.locked_funds + amount;
            true
        } else {
            false
        }
    }

    /// Move `amount` from locked back to free. Unlocking more than is
    /// locked would be a fatal consistency error, so callers must prove
    /// `amount <= locked_funds`.
    pub fn unlock_funds(&mut self, amount: u64)
        requires
            old(self).wf(),
            amount <= old(self).locked_funds,
        ensures
            *final(self) == (TraderState {
                free_funds: (old(self).free_funds + amount) as u64,
                locked_funds: (old(self).locked_funds - amount) as u64,
                ..*old(self)
            }),
            final(self).wf(),
            final(self).spec_total() == old(self).spec_total(),
    {
        self.locked_funds = self.locked_funds - amount;
        self.free_funds = self.free_funds + amount;
    }

    /// Record ownership of a newly placed order.
    pub fn add_order(&mut self, order_id: OrderId)
        ensures
            *final(self) == (TraderState { orders: final(self).orders, ..*old(self) }),
            final(self).orders@ == old(self).orders@.push(order_id),
    {
        self.orders.push(order_id);
    }

    /// Drop ownership of an order. Removing an absent id is a no-op, not an
    /// error, so settlement and cancel races stay safe.
    pub fn remove_order(&mut self, order_id: OrderId)
        ensures
            *final(self) == (TraderState { orders: final(self).orders, ..*old(self) }),
            final(self).orders@ == remove_id(old(self).orders@, order_id),
    {
        let mut kept: Vec<OrderId> = Vec::new();
        let n = self.orders.len();
        let mut i: usize = 0;
        while i < n
            invariant
                i <= n,
                n == self.orders.len(),
                kept@ == remove_id(self.orders@.take(i as int), order_id),
            decreases n - i,
        {
            let id = self.orders[i];
            proof {
                assert(self.orders@.take(i + 1).drop_last() == self.orders@.take(i as int));
                assert(self.orders@.take(i + 1).last() == self.orders@[i as int]);
            }
            if !(id == order_id) {
                kept.push(id);
            }
            i += 1;
        }
        proof {
            assert(self.orders@.take(n as int) == self.orders@);
        }
        self.orders = kept;
    }
}

} // verus!
