//! A taker's matched, time-bounded bet: a price band, a start time, a fixed
//! 24-hour window, and a one-shot settle-then-claim lifecycle. Settlement is
//! irreversible and written exactly once; claiming is a hard error the
//! second time, because double-claim is a fund-duplication bug class.

use vstd::prelude::*;
use crate::errors::ErrorCode;
use crate::order::POSITION_DURATION_SECONDS;
use crate::payout::{
    lemma_payout_percentage_bounds, spec_elapsed, spec_expired, spec_outside_range,
    spec_payout_percentage,
};
use crate::pubkey::Pubkey;
use vstd::arithmetic::div_mod::{lemma_div_is_ordered, lemma_div_pos_is_pos};

verus! {

/// The two mutually exclusive bet directions.
#[derive(Debug, Clone, Copy, PartialEq, Eq, Structural)]
pub enum PositionType {
    /// Wins if the price stays inside the band for the whole window.
    StayIn,
    /// Wins if the price leaves the band.
    Breakout,
}

/// Lifecycle of a position: `Active --settle--> Settled --claim--> Claimed`.
/// No other transition exists.
#[derive(Debug, Clone, Copy, PartialEq, Eq, Structural)]
pub enum PositionStatus {
    Active,
    Settled,
    Claimed,
}

/// The settlement outcome, written exactly once when a position settles.
#[derive(Debug, Clone, Copy, PartialEq, Eq, Structural)]
pub struct SettlementData {
    /// When the position was settled.
    pub settlement_time: i64,
    /// The oracle price at settlement.
    pub settlement_price: u64,
    /// Percentage of the principal to pay out, in `[0, 200]`.
    pub payout_percentage: u8,
}

/// A matched bet between a taker (`user`) and the funder whose liquidity
/// covered it. The pairing is zero-sum: both sides keep `amount` locked
/// until the claim splits `2 * amount` between them by the settled
/// percentage.
#[derive(Debug, Clone, Copy)]
pub struct PositionState {
    /// The taker who opened this position.
    pub user: Pubkey,
    /// The liquidity provider taking the opposite side.
    pub funder: Pubkey,
    /// Which way the taker bet.
    pub position_type: PositionType,
    /// Lower absolute price bound of the band.
    pub lower_bound: u64,
    /// Upper absolute price bound of the band.
    pub upper_bound: u64,
    /// When the position became active (order matched), seconds.
    pub start_time: i64,
    /// The book sequence number of the match, unique per book.
    pub order_id: u64,
    /// Current lifecycle status.
    pub status: PositionStatus,
    /// Position size: what each side has at risk.
    pub amount: u64,
    /// Populated exactly once, at settlement.
    pub settlement_data: Option<SettlementData>,
}

impl PositionState {
    /// Internal consistency: times fit the window arithmetic, the band is
    /// ordered, the stake leaves room for a doubled payout, and settlement
    /// data exists exactly for positions past `Active`, with a bounded
    /// percentage.
    pub open spec fn wf(self) -> bool {
        &&& 0 <= self.start_time
        &&& self.start_time + POSITION_DURATION_SECONDS <= i64::MAX
        &&& self.lower_bound <= self.upper_bound
        &&& self.amount * 2 <= u64::MAX
        &&& (self.status == PositionStatus::Active <==> self.settlement_data is None)
        &&& (self.settlement_data matches Some(data) ==> data.payout_percentage <= 200)
    }

    /// The payout owed to the taker once settled: `amount * percentage / 100`,
    /// truncated.
    pub open spec fn spec_claim_amount(self) -> int
        recommends
            self.settlement_data is Some,
    {
        crate::payout::spec_payout_amount(
            self.amount as int,
            self.settlement_data->Some_0.payout_percentage as int,
        )
    }

    /// Set up a fresh `Active` position. Fails with `InvalidRange` when the
    /// band is not strictly ordered, leaving the record unchanged.
    pub fn initialize(
        &mut self,
        user: Pubkey,
        funder: Pubkey,
        position_type: PositionType,
        lower_bound: u64,
        upper_bound: u64,
        start_time: i64,
        order_id: u64,
        amount: u64,
    ) -> (result: Result<(), ErrorCode>)
        requires
            0 <= start_time,
            start_time + POSITION_DURATION_SECONDS <= i64::MAX,
            amount * 2 <= u64::MAX,
        ensures
            lower_bound < upper_bound ==> result is Ok && *final(self) == (PositionState {
                user,
                funder,
                position_type,
                lower_bound,
                upper_bound,
                start_time,
                order_id,
                status: PositionStatus::Active,
                amount,
                settlement_data: None,
            }),
            lower_bound >= upper_bound ==> result == Err::<(), ErrorCode>(ErrorCode::InvalidRange)
                && *final(self) == *old(self),
            lower_bound < upper_bound ==> final(self).wf(),
    {
        if lower_bound >= upper_bound {
            return Err(ErrorCode::InvalidRange);
        }
        *self = PositionState {
            user,
            funder,
            position_type,
            lower_bound,
            upper_bound,
            start_time,
            order_id,
            status: PositionStatus::Active,
            amount,
            settlement_data: None,
        };
        Ok(())
    }

    /// When the position's 24-hour window lapses.
    pub fn get_expiry_time(&self) -> (r: i64)
        requires
            self.start_time + POSITION_DURATION_SECONDS <= i64::MAX,
        ensures
            r == self.start_time + POSITION_DURATION_SECONDS,
    {
        self.start_time + (POSITION_DURATION_SECONDS as i64)
    }

    /// Whether the window has lapsed at `current_time`.
    pub fn is_expired(&self, current_time: i64) -> (r: bool)
        requires
            self.start_time + POSITION_DURATION_SECONDS <= i64::MAX,
        ensures
            r == spec_expired(self.start_time as int, current_time as int),
    {
        current_time >= self.get_expiry_time()
    }

    /// Whether `current_price` sits outside the closed band.
    pub fn is_outside_range(&self, current_price: u64) -> (r: bool)
        ensures
            r == spec_outside_range(
                self.lower_bound as int,
                self.upper_bound as int,
                current_price as int,
            ),
    {
        current_price < self.lower_bound || current_price > self.upper_bound
    }

    /// The payout percentage owed at `current_time` and `current_price`,
    /// per the decision table of the payout engine.
    pub fn calculate_payout(&self, current_time: i64, current_price: u64) -> (r: u8)
        requires
            0 <= self.start_time,
            self.start_time + POSITION_DURATION_SECONDS <= i64::MAX,
            0 <= current_time,
        ensures
            r as int == spec_payout_percentage(
                self.position_type,
                self.start_time as int,
                self.lower_bound as int,
                self.upper_bound as int,
                current_time as int,
                current_price as int,
            ),
            r <= 200,
    {
        proof {
            lemma_payout_percentage_bounds(
                self.position_type,
                self.start_time as int,
                self.lower_bound as int,
                self.upper_bound as int,
                current_time as int,
                current_price as int,
            );
        }
        let is_outside = self.is_outside_range(current_price);
        let is_exp = self.is_expired(current_time);
        let duration: i64 = POSITION_DURATION_SECONDS as i64;
        let elapsed: i64 = if current_time <= self.start_time {
            0
        } else if current_time - self.start_time >= duration {
            duration
        } else {
            current_time - self.start_time
        };
        assert(elapsed as int == spec_elapsed(self.start_time as int, current_time as int));
        let duration_128 = duration as u128;
        match (self.position_type, is_outside, is_exp) {
            (PositionType::StayIn, false, true) => 200,
            (PositionType::StayIn, false, false) => {
                ((elapsed as u128) * 200 / duration_128) as u8
            },
            (PositionType::StayIn, true, _) => {
                ((elapsed as u128) * 100 / duration_128) as u8
            },
            (PositionType::Breakout, true, _) => {
                (((duration - elapsed) as u128) * 200 / duration_128) as u8
            },
            (PositionType::Breakout, false, true) => 0,
            (PositionType::Breakout, false, false) => {
                (((duration - elapsed) as u128) * 100 / duration_128) as u8
            },
        }
    }

    /// The settlement step as a mathematical transition: the new record and
    /// result of `settle`, from the old record and the settlement inputs.
    pub open spec fn spec_settle(
        self,
        settlement_time: i64,
        settlement_price: u64,
        payout_percentage: u8,
    ) -> (PositionState, Result<(), ErrorCode>) {
        if self.status == PositionStatus::Active {
            (
                PositionState {
                    status: PositionStatus::Settled,
                    settlement_data: Some(SettlementData {
                        settlement_time,
                        settlement_price,
                        payout_percentage,
                    }),
                    ..self
                },
                Ok(()),
            )
        } else {
            (self, Err(ErrorCode::PositionAlreadySettled))
        }
    }

    /// The claim step as a mathematical transition: the new record and
    /// result of `claim`.
    pub open spec fn spec_claim(self) -> (PositionState, Result<(), ErrorCode>) {
        if self.status == PositionStatus::Settled {
            (PositionState { status: PositionStatus::Claimed, ..self }, Ok(()))
        } else {
            (self, Err(ErrorCode::PositionNotSettled))
        }
    }

    /// Settle with the given outcome. Fails — changing nothing — unless the
    /// position is still `Active`: settlement is one-shot and irreversible.
    pub fn settle(
        &mut self,
        settlement_time: i64,
        settlement_price: u64,
        payout_percentage: u8,
    ) -> (result: Result<(), ErrorCode>)
        ensures
            (*final(self), result) == old(self).spec_settle(
                settlement_time,
                settlement_price,
                payout_percentage,
            ),
            old(self).wf() && payout_percentage <= 200 ==> final(self).wf(),
    {
        if self.status != PositionStatus::Active {
            return Err(ErrorCode::PositionAlreadySettled);
        }
        self.status = PositionStatus::Settled;
        self.settlement_data = Some(SettlementData {
            settlement_time,
            settlement_price,
            payout_percentage,
        });
        Ok(())
    }

    /// Mark the settled payout as withdrawn. Fails — changing nothing —
    /// unless the position is `Settled`: a position pays out at most once.
    pub fn claim(&mut self) -> (result: Result<(), ErrorCode>)
        ensures
            (*final(self), result) == old(self).spec_claim(),
            old(self).wf() ==> final(self).wf(),
    {
        if self.status != PositionStatus::Settled {
            return Err(ErrorCode::PositionNotSettled);
        }
        self.status = PositionStatus::Claimed;
        Ok(())
    }

    /// Settlement is idempotent: once a settlement succeeds, settling again
    /// fails and leaves the data written by the first settlement untouched.
    pub proof fn lemma_settle_idempotent(
        self,
        t1: i64,
        p1: u64,
        c1: u8,
        t2: i64,
        p2: u64,
        c2: u8,
    )
        requires
            self.spec_settle(t1, p1, c1).1 is Ok,
        ensures
            self.spec_settle(t1, p1, c1).0.spec_settle(t2, p2, c2) == (
                self.spec_settle(t1, p1, c1).0,
                Err::<(), ErrorCode>(ErrorCode::PositionAlreadySettled),
            ),
            self.spec_settle(t1, p1, c1).0.settlement_data == Some(SettlementData {
                settlement_time: t1,
                settlement_price: p1,
                payout_percentage: c1,
            }),
    {
    }

    /// A claim is one-shot: once a claim succeeds, claiming again fails and
    /// changes nothing, so the payout of a position is transferred at most
    /// once.
    pub proof fn lemma_claim_once(self)
        requires
            self.spec_claim().1 is Ok,
        ensures
            self.spec_claim().0.spec_claim() == (
                self.spec_claim().0,
                Err::<(), ErrorCode>(ErrorCode::PositionNotSettled),
            ),
            self.spec_claim().0.spec_claim_amount() == self.spec_claim_amount(),
            self.spec_claim().0.settlement_data == self.settlement_data,
    {
    }

    /// The claim amount is bounded by a doubled principal.
    pub proof fn lemma_claim_amount_bounds(self)
        requires
            self.wf(),
            self.settlement_data is Some,
        ensures
            0 <= self.spec_claim_amount() <= 2 * self.amount,
    {
        let pct = self.settlement_data->Some_0.payout_percentage as int;
        lemma_div_pos_is_pos(self.amount * pct, 100);
        assert(self.amount * pct <= self.amount * 200) by (nonlinear_arith)
            requires
                0 <= pct <= 200,
                0 <= self.amount,
        {}
        lemma_div_is_ordered(self.amount * pct, self.amount * 200, 100);
        assert(self.amount * 200 / 100 == 2 * self.amount) by (nonlinear_arith) {}
    }
}

} // verus!
