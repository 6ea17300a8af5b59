//! Trade execution: quoting a price against the current pools and
//! committing the three-way mutation of account, position and market
//! as one atomic step.

use vstd::prelude::*;

use crate::engine::account_at;
use crate::engine::find_account;
use crate::engine::find_market;
use crate::engine::find_position;
use crate::engine::has_account;
use crate::engine::has_market;
use crate::engine::has_position;
use crate::engine::lemma_account_at_is;
use crate::engine::lemma_accounts_rewrite_keeps_ids;
use crate::engine::lemma_market_at_is;
use crate::engine::lemma_markets_rewrite_keeps_ids;
use crate::engine::lemma_position_at_is;
use crate::engine::market_at;
use crate::engine::pos_matches;
use crate::engine::position_at;
use crate::engine::Engine;
use crate::model::Account;
use crate::model::BetError;
use crate::model::LogEntry;
use crate::model::LogEvent;
use crate::model::Market;
use crate::model::Position;
use crate::model::YesOrNo;
use crate::model::MONEY_MAX;
use crate::model::SHARES_MAX;
use crate::pricing::lemma_cost_bounds;
use crate::pricing::lemma_quote_cost_is;
use crate::pricing::opposite_pool;
use crate::pricing::own_pool;
use crate::pricing::quad_disc;
use crate::pricing::quote;
use crate::pricing::quote_cost;

verus! {

/// The domain checks of a trade: a positive share count, a known user
/// and market, and a market still open.
pub open spec fn trade_prereq(pre: Engine, uid: Seq<char>, mid: Seq<char>, n: int) -> bool {
    &&& n >= 1
    &&& has_account(pre.accounts@, uid)
    &&& has_market(pre.markets@, mid)
    &&& !pre.markets@[market_at(pre.markets@, mid)].closed
}

/// The discriminant of the pricing quadratic at the market's current
/// pools.
pub open spec fn trade_disc(pre: Engine, mid: Seq<char>, side: YesOrNo, n: int) -> int {
    let m = pre.markets@[market_at(pre.markets@, mid)];
    quad_disc(
        n,
        m.yes_pool as int,
        m.no_pool as int,
        opposite_pool(side, m.yes_pool as int, m.no_pool as int),
    )
}

/// The cost, in cents, the market quotes for this trade.
pub open spec fn trade_cost(pre: Engine, mid: Seq<char>, side: YesOrNo, n: int) -> int {
    let m = pre.markets@[market_at(pre.markets@, mid)];
    quote_cost(
        n,
        m.yes_pool as int,
        m.no_pool as int,
        opposite_pool(side, m.yes_pool as int, m.no_pool as int),
    )
}

/// The committed trade stays within the fixed-point range: the
/// rebalanced pools and the accumulated position all fit.
pub open spec fn trade_fits(
    pre: Engine,
    uid: Seq<char>,
    mid: Seq<char>,
    side: YesOrNo,
    n: int,
) -> bool {
    let m = pre.markets@[market_at(pre.markets@, mid)];
    let y = m.yes_pool as int;
    let np = m.no_pool as int;
    let c = trade_cost(pre, mid, side, n);
    &&& own_pool(side, y, np) + c - 100 * n <= MONEY_MAX
    &&& opposite_pool(side, y, np) + c <= MONEY_MAX
    &&& (has_position(pre.positions@, uid, mid, side) ==> ({
        let p = pre.positions@[position_at(pre.positions@, uid, mid, side)];
        p.shares + n <= SHARES_MAX && p.spent + c <= MONEY_MAX
    }))
}

/// What a successful trade does to the store: the buyer pays the
/// quoted cost, the position accumulates the shares and the cost, the
/// traded side's pool gives up the shares, both pools take in the
/// cost, and the trade is logged.
pub open spec fn trade_committed(
    pre: Engine,
    post: Engine,
    now: u64,
    user_id: String,
    market_id: String,
    side: YesOrNo,
    n: u64,
    c: u64,
) -> bool {
    let uid = user_id@;
    let mid = market_id@;
    let ai = account_at(pre.accounts@, uid);
    let mi = market_at(pre.markets@, mid);
    let acc = pre.accounts@[ai];
    let m = pre.markets@[mi];
    &&& post.accounts@ =~= pre.accounts@.update(
        ai,
        (Account { id: acc.id, name: acc.name, balance: (acc.balance - c) as u64 }),
    )
    &&& post.markets@ =~= pre.markets@.update(
        mi,
        (Market {
            id: m.id,
            creator_id: m.creator_id,
            name: m.name,
            created_at: m.created_at,
            closed: m.closed,
            yes_pool: (if side is Yes {
                m.yes_pool + c - 100 * n
            } else {
                m.yes_pool + c
            }) as u64,
            no_pool: (if side is No {
                m.no_pool + c - 100 * n
            } else {
                m.no_pool + c
            }) as u64,
        }),
    )
    &&& (if has_position(pre.positions@, uid, mid, side) {
        let pi = position_at(pre.positions@, uid, mid, side);
        let p = pre.positions@[pi];
        post.positions@ =~= pre.positions@.update(
            pi,
            (Position {
                user_id: p.user_id,
                market_id: p.market_id,
                side: p.side,
                shares: (p.shares + n) as u64,
                spent: (p.spent + c) as u64,
            }),
        )
    } else {
        post.positions@ =~= pre.positions@.push(
            (Position { user_id: user_id, market_id: market_id, side, shares: n, spent: c }),
        )
    })
    &&& post.log@ =~= pre.log@.push(
        (LogEntry {
            at: now,
            event: LogEvent::SharesBought {
                user_id: user_id,
                market_id: market_id,
                side,
                shares: n,
                cost: c,
            },
        }),
    )
}

impl Engine {
    /// Buy `requested_shares` shares of `side` in a market, at the
    /// cost the AMM curve quotes against the current pools. The five
    /// checks run in order — amount, existence, closedness, quote,
    /// funds — and nothing is mutated unless all pass.
    pub fn trade(
        &mut self,
        now: u64,
        user_id: &String,
        market_id: &String,
        side: YesOrNo,
        requested_shares: u64,
    ) -> (r: Result<u64, BetError>)
        requires
            old(self).wf(),
        ensures
            final(self).wf(),
            (r is Err ==> *final(self) == *old(self)),
            ({
                let pre = *old(self);
                let uid = user_id@;
                let mid = market_id@;
                let n = requested_shares as int;
                let found = has_account(pre.accounts@, uid) && has_market(pre.markets@, mid);
                let prereq = trade_prereq(pre, uid, mid, n);
                let balance = pre.accounts@[account_at(pre.accounts@, uid)].balance;
                let disc = trade_disc(pre, mid, side, n);
                let cost = trade_cost(pre, mid, side, n);
                let fits = trade_fits(pre, uid, mid, side, n);
                &&& (r == Err::<u64, BetError>(BetError::InvalidAmount) <==> n == 0)
                &&& (r == Err::<u64, BetError>(BetError::NotFound) <==> n >= 1 && !found)
                &&& (r == Err::<u64, BetError>(BetError::MarketClosed) <==> n >= 1 && found
                    && pre.markets@[market_at(pre.markets@, mid)].closed)
                &&& (r == Err::<u64, BetError>(BetError::Overflow) <==> prereq && (n > SHARES_MAX
                    || (disc >= 0 && balance >= cost && !fits)))
                &&& (r == Err::<u64, BetError>(BetError::InvalidQuote) <==> prereq && n
                    <= SHARES_MAX && disc < 0)
                &&& (r == Err::<u64, BetError>(BetError::InsufficientFunds) <==> prereq && n
                    <= SHARES_MAX && disc >= 0 && balance < cost)
                &&& (r is Ok <==> prereq && n <= SHARES_MAX && disc >= 0 && balance >= cost
                    && fits)
                &&& (r matches Ok(c) ==> c == cost && 1 <= c && trade_committed(
                    pre,
                    *final(self),
                    now,
                    *user_id,
                    *market_id,
                    side,
                    requested_shares,
                    c,
                ))
            }),
    {
        let ghost pre = *self;
        if requested_shares == 0 {
            return Err(BetError::InvalidAmount);
        }
        let ai = match find_account(&self.accounts, user_id) {
            Some(i) => i,
            None => {
                return Err(BetError::NotFound);
            },
        };
        proof {
            lemma_account_at_is(self.accounts@, user_id@, ai as int);
        }
        let mi = match find_market(&self.markets, market_id) {
            Some(i) => i,
            None => {
                return Err(BetError::NotFound);
            },
        };
        proof {
            lemma_market_at_is(self.markets@, market_id@, mi as int);
        }
        if self.markets[mi].closed {
            return Err(BetError::MarketClosed);
        }
        if requested_shares > SHARES_MAX {
            return Err(BetError::Overflow);
        }
        let y: u64 = self.markets[mi].yes_pool;
        let np: u64 = self.markets[mi].no_pool;
        let cost: u64 = match quote(requested_shares, side, y, np) {
            Ok(c) => c,
            Err(e) => {
                return Err(e);
            },
        };
        proof {
            lemma_quote_cost_is(
                requested_shares as int,
                y as int,
                np as int,
                opposite_pool(side, y as int, np as int),
                cost as int,
            );
        }
        if self.accounts[ai].balance < cost {
            return Err(BetError::InsufficientFunds);
        }
        proof {
            lemma_cost_bounds(requested_shares as int, y as int, np as int, side, cost as int);
        }
        let shares_cents: u64 = 100 * requested_shares;
        let pools: (u64, u64) = match side {
            YesOrNo::Yes => (y + cost - shares_cents, np + cost),
            YesOrNo::No => (y + cost, np + cost - shares_cents),
        };
        if pools.0 > MONEY_MAX || pools.1 > MONEY_MAX {
            return Err(BetError::Overflow);
        }
        let pi_opt: Option<usize> = find_position(&self.positions, user_id, market_id, side);
        if let Some(pi) = pi_opt {
            proof {
                lemma_position_at_is(self.positions@, user_id@, market_id@, side, pi as int);
            }
            if self.positions[pi].shares > SHARES_MAX - requested_shares
                || self.positions[pi].spent > MONEY_MAX - cost {
                return Err(BetError::Overflow);
            }
        }
        // Every check has passed: commit the whole mutation.
        let balance: u64 = self.accounts[ai].balance;
        self.accounts[ai].balance = balance - cost;
        self.markets[mi].yes_pool = pools.0;
        self.markets[mi].no_pool = pools.1;
        if let Some(pi) = pi_opt {
            let sh: u64 = self.positions[pi].shares;
            self.positions[pi].shares = sh + requested_shares;
            let sp: u64 = self.positions[pi].spent;
            self.positions[pi].spent = sp + cost;
        } else {
            self.positions.push(
                Position {
                    user_id: user_id.clone(),
                    market_id: market_id.clone(),
                    side,
                    shares: requested_shares,
                    spent: cost,
                },
            );
        }
        self.log.push(
            LogEntry {
                at: now,
                event: LogEvent::SharesBought {
                    user_id: user_id.clone(),
                    market_id: market_id.clone(),
                    side,
                    shares: requested_shares,
                    cost,
                },
            },
        );
        proof {
            lemma_accounts_rewrite_keeps_ids(pre.accounts@, self.accounts@);
            lemma_markets_rewrite_keeps_ids(pre.markets@, self.markets@);
            assert(forall|k: int|
                0 <= k < pre.positions@.len() ==> (#[trigger] self.positions@[k]).user_id@
                    == pre.positions@[k].user_id@ && self.positions@[k].market_id@
                    == pre.positions@[k].market_id@ && self.positions@[k].side
                    == pre.positions@[k].side);
            assert(self.wf());
        }
        Ok(cost)
    }
}

} // verus!
