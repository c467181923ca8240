//! A binary-outcome trading venue: funders post collateral-backed liquidity
//! orders betting that a price stays inside (StayIn) or leaves (Breakout) a
//! band around a reference price; takers match against the opposite side to
//! open time-bounded positions. The engine keeps a per-trader ledger with an
//! exclusive fund-locking discipline, two ordered order books, a
//! time-decayed integer payout function, and a one-shot settle/claim
//! lifecycle per position.
//!
//! All percentages are scaled integers (basis points of a percent,
//! `width * 10_000`), and all money arithmetic is integer arithmetic with
//! truncating division, so results are platform-independent and proved free
//! of overflow. Clock readings and oracle prices are inputs: the engine
//! never reads a wall clock or a price feed itself.

pub mod errors;
pub mod order;
pub mod orderbook;
pub mod payout;
pub mod position;
pub mod pubkey;
pub mod summation;
pub mod trader;
