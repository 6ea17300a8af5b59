//! Data model of the market engine: trade sides, resolution outcomes,
//! accounts, markets, positions, the audit log, and the error kinds.
//!
//! Monetary amounts are fixed-point: a `u64` number of cents. Shares
//! are whole shares; one share pays [`CENTS_PER_SHARE`] cents if its
//! side wins. Amounts are kept at or below [`MONEY_MAX`] and share
//! counts at or below [`SHARES_MAX`] so that the pricing arithmetic
//! stays well inside 128-bit integers.

use vstd::prelude::*;

verus! {

/// Upper bound, in cents, on every balance, pool size and cost basis.
pub const MONEY_MAX: u64 = 100_000_000_000_000_000;

/// Upper bound on the share count of one position and of one trade.
pub const SHARES_MAX: u64 = 1_000_000_000_000_000;

/// What one share pays, in cents, when its side wins.
pub const CENTS_PER_SHARE: u64 = 100;

/// Minimum liquidity, in cents, for opening a market.
pub const MIN_STARTING_MONEY: u64 = 2_000;

/// What one grant hands every account, in cents.
pub const GRANT_MONEY: u64 = 10_000;

/// The side of a market a trade buys shares in.
#[derive(Clone, Copy, Debug, PartialEq, Eq, Structural)]
pub enum YesOrNo {
    Yes,
    No,
}

impl YesOrNo {
    /// Whether this is the yes side.
    pub fn is_yes(&self) -> (r: bool)
        ensures
            r == (*self is Yes),
    {
        match self {
            YesOrNo::Yes => true,
            YesOrNo::No => false,
        }
    }

    /// The lower-case label of this side.
    pub fn text(&self) -> (r: &'static str)
        ensures
            *self is Yes ==> r@ == "yes"@,
            *self is No ==> r@ == "no"@,
    {
        match self {
            YesOrNo::Yes => "yes",
            YesOrNo::No => "no",
        }
    }
}

/// The outcome a market is resolved to: one winning side, or void.
#[derive(Clone, Copy, Debug, PartialEq, Eq, Structural)]
pub enum YesOrNoOrNA {
    Yes,
    No,
    NA,
}

impl YesOrNoOrNA {
    /// The label of this outcome.
    pub fn text(&self) -> (r: &'static str)
        ensures
            *self is Yes ==> r@ == "yes"@,
            *self is No ==> r@ == "no"@,
            *self is NA ==> r@ == "N/A"@,
    {
        match self {
            YesOrNoOrNA::Yes => "yes",
            YesOrNoOrNA::No => "no",
            YesOrNoOrNA::NA => "N/A",
        }
    }
}

/// Why an operation was rejected. Every rejection leaves the engine
/// untouched.
#[derive(Clone, Copy, Debug, PartialEq, Eq, Structural)]
pub enum BetError {
    /// The market or the user does not exist — or, deliberately, the
    /// caller of a close or resolve is not the market's creator, so
    /// that non-owners cannot learn whether a market exists.
    NotFound,
    /// A zero trade size, or starting liquidity below the floor.
    InvalidAmount,
    /// The requested share count has no real-valued price at the
    /// current pool depth (the pricing discriminant is negative).
    InvalidQuote,
    /// The buyer's balance does not cover the cost.
    InsufficientFunds,
    /// The market has been closed.
    MarketClosed,
    /// A result would leave the fixed-point range ([`MONEY_MAX`],
    /// [`SHARES_MAX`]). Not part of the domain taxonomy: it reports a
    /// machine limit, as a store would report a failed write.
    Overflow,
    /// A freshly drawn market id is already in use. Not part of the
    /// domain taxonomy: it reports a collision of random identifiers,
    /// as a store would report a conflicting insert.
    IdCollision,
}

/// A user's account: an externally provisioned identity and a
/// non-negative balance in cents.
#[derive(Clone, Debug, PartialEq, Eq)]
pub struct Account {
    pub id: String,
    pub name: String,
    pub balance: u64,
}

/// A binary market: two positive liquidity pools, in cents, and a
/// one-way `closed` flag. Deleted when the market is resolved.
#[derive(Clone, Debug, PartialEq, Eq)]
pub struct Market {
    pub id: String,
    pub creator_id: String,
    pub name: String,
    pub created_at: u64,
    pub closed: bool,
    pub yes_pool: u64,
    pub no_pool: u64,
}

/// One user's accumulated holding on one side of one market:
/// `shares` outcome shares, bought for `spent` cents in total.
#[derive(Clone, Debug, PartialEq, Eq)]
pub struct Position {
    pub user_id: String,
    pub market_id: String,
    pub side: YesOrNo,
    pub shares: u64,
    pub spent: u64,
}

/// What a log entry records.
#[derive(Clone, Debug, PartialEq, Eq)]
pub enum LogEvent {
    MarketCreated { creator_id: String, market_id: String, starting_money: u64 },
    SharesBought { user_id: String, market_id: String, side: YesOrNo, shares: u64, cost: u64 },
    MarketClosed { market_id: String },
    MarketResolved { market_id: String, outcome: YesOrNoOrNA },
    MoneyGranted { amount: u64 },
}

/// One entry of the append-only audit trail.
#[derive(Clone, Debug, PartialEq, Eq)]
pub struct LogEntry {
    pub at: u64,
    pub event: LogEvent,
}

} // verus!
