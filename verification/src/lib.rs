//! A verified automated-market-maker engine for binary prediction markets.
//!
//! Users open a market by providing liquidity to its two pools, buy
//! yes/no shares at a price set by a conserved-value curve, and the
//! market creator later closes the market and resolves it, paying the
//! winning side (or refunding everyone when the market is voided).
//!
//! All monetary amounts are fixed-point, in cents. One share pays one
//! currency unit (one hundred cents) if its side wins.

pub mod engine;
pub mod market_ops;
pub mod model;
pub mod pricing;
pub mod settlement;
pub mod trade;

pub use crate::model::BetError;
pub use crate::model::YesOrNo;
pub use crate::model::YesOrNoOrNA;
