//! Liquidity orders and their composite sort key. Width percentages are
//! stored as scaled integers (`percent * PERCENTAGE_SCALE`) so that
//! comparisons and the book order are exact.

use vstd::prelude::*;
use crate::pubkey::Pubkey;

verus! {

/// Percentages are scaled by this factor for exact integer comparison
/// (two decimal digits of a basis point).
pub const PERCENTAGE_SCALE: u64 = 10000;

/// A full 100% width, in scaled units.
pub const MAX_WIDTH_SCALED: u64 = 100 * 10000;

/// Standard 24-hour duration of every matched position, in seconds.
pub const POSITION_DURATION_SECONDS: u64 = 24 * 60 * 60;

/// Which side of the band bet an order funds.
#[derive(Debug, Clone, Copy, PartialEq, Eq, Structural)]
pub enum OrderType {
    /// Profits if the price stays within the range.
    StayIn,
    /// Profits if the price breaks out of the range.
    Breakout,
}

/// The asset a book trades.
#[derive(Debug, Clone, Copy, PartialEq, Eq, Structural)]
pub enum AssetType {
    BTC,
    ETH,
    BNB,
    GMX,
}

impl AssetType {
    /// Decode the wire tag used by callers; tags outside the known set are
    /// rejected.
    pub fn from_tag(tag: u8) -> (r: Result<AssetType, crate::errors::ErrorCode>)
        ensures
            tag == 0 ==> r == Ok::<AssetType, crate::errors::ErrorCode>(AssetType::BTC),
            tag == 1 ==> r == Ok::<AssetType, crate::errors::ErrorCode>(AssetType::ETH),
            tag == 2 ==> r == Ok::<AssetType, crate::errors::ErrorCode>(AssetType::BNB),
            tag == 3 ==> r == Ok::<AssetType, crate::errors::ErrorCode>(AssetType::GMX),
            tag > 3 ==> r == Err::<AssetType, crate::errors::ErrorCode>(
                crate::errors::ErrorCode::InvalidAssetType,
            ),
    {
        match tag {
            0 => Ok(AssetType::BTC),
            1 => Ok(AssetType::ETH),
            2 => Ok(AssetType::BNB),
            3 => Ok(AssetType::GMX),
            _ => Err(crate::errors::ErrorCode::InvalidAssetType),
        }
    }
}

/// Lifecycle of a liquidity order.
#[derive(Debug, Clone, Copy, PartialEq, Eq, Structural)]
pub enum OrderStatus {
    /// Resting in the book, not yet matched.
    Pending,
    /// Matched; the position is running.
    Active,
    /// Fully filled or settled.
    Completed,
    /// Cancelled before matching.
    Cancelled,
}

/// Composite sort key of a liquidity order. The book order and the matching
/// priority are primary by width, tie-broken FIFO by timestamp; the sequence
/// number makes the key unique even for identical width and timestamp.
#[derive(Debug, Clone, Copy, PartialEq, Eq, Structural)]
pub struct OrderId {
    /// Width percentage of the range, scaled by `PERCENTAGE_SCALE`.
    pub width_percentage_scaled: u64,
    /// Creation time, for FIFO ordering.
    pub timestamp: u64,
    /// Unique, monotonically assigned by the book.
    pub sequence_number: u64,
}

impl OrderId {
    /// Strict total order: width, then timestamp, then sequence number.
    pub open spec fn lt(self, other: OrderId) -> bool {
        self.width_percentage_scaled < other.width_percentage_scaled
        || (self.width_percentage_scaled == other.width_percentage_scaled
            && self.timestamp < other.timestamp)
        || (self.width_percentage_scaled == other.width_percentage_scaled
            && self.timestamp == other.timestamp
            && self.sequence_number < other.sequence_number)
    }

    /// Executable comparison deciding `self.lt(other)`.
    pub fn is_before(&self, other: &OrderId) -> (r: bool)
        ensures
            r == self.lt(*other),
    {
        if self.width_percentage_scaled != other.width_percentage_scaled {
            self.width_percentage_scaled < other.width_percentage_scaled
        } else if self.timestamp != other.timestamp {
            self.timestamp < other.timestamp
        } else {
            self.sequence_number < other.sequence_number
        }
    }

    /// The order `lt` relates every pair of distinct keys, one way round.
    pub proof fn lemma_lt_total(a: OrderId, b: OrderId)
        ensures
            a.lt(b) || b.lt(a) || a == b,
            a.lt(b) ==> !b.lt(a) && a != b,
    {
    }
}

/// A resting liquidity order.
#[derive(Debug, Clone, Copy)]
pub struct Order {
    /// Order identifier and sort key.
    pub id: OrderId,
    /// Which side of the band bet this order funds.
    pub order_type: OrderType,
    /// The asset of the book this order rests in.
    pub asset_type: AssetType,
    /// Width percentage of the range, scaled by `PERCENTAGE_SCALE`.
    pub width_percentage_scaled: u64,
    /// Remaining unmatched amount of funds committed.
    pub amount: u64,
    /// The funder who placed the order.
    pub trader: Pubkey,
    /// The book's reference price when the order was placed.
    pub base_price: u64,
    /// Creation timestamp, seconds.
    pub timestamp: u64,
    /// Lifecycle status.
    pub status: OrderStatus,
    /// Expiry timestamp, if this order's window is bounded.
    pub expiration: Option<u64>,
}

impl Order {
    /// Internal consistency of a single order: the sort key repeats the
    /// width and creation time, and a resting order holds funds.
    pub open spec fn wf(self) -> bool {
        &&& self.id.width_percentage_scaled == self.width_percentage_scaled
        &&& self.id.timestamp == self.timestamp
        &&& self.amount > 0
        &&& self.width_percentage_scaled <= MAX_WIDTH_SCALED
        &&& self.base_price <= u64::MAX / 2
    }
}

} // verus!
