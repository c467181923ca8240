//! Error taxonomy of the trading engine. Every operation is all-or-nothing:
//! when one of these is returned, no state change is observable.

use vstd::prelude::*;

verus! {

/// Why an operation was refused. Each variant is raised under exactly the
/// condition its contract states; none is ever recovered from silently.
#[derive(Clone, Copy, Debug, PartialEq, Eq, Structural)]
pub enum ErrorCode {
    /// Asset tag outside the known set.
    InvalidAssetType,
    /// Width outside the book's configured `[min, max]` band.
    InvalidWidthPercentage,
    /// The trader has no ledger entry.
    TraderNotRegistered,
    /// Free balance below the requested lock amount.
    InsufficientFunds,
    /// No compatible candidate in the opposite book.
    NoMatchingOrders,
    /// Ownership mismatch on cancel/settle/claim.
    NotAuthorized,
    /// No order or position under the given identifier.
    OrderNotFound,
    /// State-machine guard: the order is not in the expected state.
    OrderNotActive,
    /// A position's bounds were not in increasing order.
    InvalidRange,
    /// Settling a position that is no longer `Active`.
    PositionAlreadySettled,
    /// Claiming a position that is not `Settled`.
    PositionNotSettled,
}

impl ErrorCode {
    /// A short human-readable description of the error.
    pub fn message(&self) -> &'static str {
        match self {
            ErrorCode::InvalidAssetType => "Invalid asset type provided",
            ErrorCode::InvalidWidthPercentage => "Width percentage outside allowed range",
            ErrorCode::TraderNotRegistered => "Trader not registered",
            ErrorCode::InsufficientFunds => "Insufficient funds",
            ErrorCode::NoMatchingOrders => "No matching orders found",
            ErrorCode::NotAuthorized => "Not authorized",
            ErrorCode::OrderNotFound => "Order not found",
            ErrorCode::OrderNotActive => "Order is not active",
            ErrorCode::InvalidRange => "Lower bound must be below upper bound",
            ErrorCode::PositionAlreadySettled => "Position already settled",
            ErrorCode::PositionNotSettled => "Position not settled",
        }
    }
}

} // verus!
