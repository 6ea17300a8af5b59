//! Resolution: retiring a market and distributing its funds.
//!
//! Resolving to a winning side credits the creator with that side's
//! residual pool and every holder of a winning position with one
//! currency unit per share; resolving to void (`NA`) refunds every
//! holder their own cost basis instead. Either way the market and all
//! its positions are deleted.

use vstd::prelude::*;

use crate::engine::account_at;
use crate::engine::find_market;
use crate::engine::has_account;
use crate::engine::has_market;
use crate::engine::lemma_account_at_is;
use crate::engine::lemma_accounts_rewrite_keeps_ids;
use crate::engine::lemma_market_at_is;
use crate::engine::market_at;
use crate::engine::pos_matches;
use crate::engine::unique_account_ids;
use crate::engine::unique_position_keys;
use crate::engine::Engine;
use crate::model::Account;
use crate::model::BetError;
use crate::model::LogEntry;
use crate::model::LogEvent;
use crate::model::Market;
use crate::model::Position;
use crate::model::YesOrNoOrNA;
use crate::model::MONEY_MAX;
use crate::model::SHARES_MAX;

verus! {

/// What resolving to `outcome` pays the holder of one position, in
/// cents: one currency unit per share on the winning side, the cost
/// basis back on a void, nothing otherwise.
pub open spec fn position_payout(p: Position, mid: Seq<char>, outcome: YesOrNoOrNA) -> int {
    if p.market_id@ == mid {
        match outcome {
            YesOrNoOrNA::Yes => if p.side is Yes {
                100 * p.shares
            } else {
                0
            },
            YesOrNoOrNA::No => if p.side is No {
                100 * p.shares
            } else {
                0
            },
            YesOrNoOrNA::NA => p.spent as int,
        }
    } else {
        0
    }
}

/// The position payouts owed to one user, summed.
pub open spec fn user_payout(
    ps: Seq<Position>,
    mid: Seq<char>,
    outcome: YesOrNoOrNA,
    uid: Seq<char>,
) -> int
    decreases ps.len(),
{
    if ps.len() == 0 {
        0
    } else {
        user_payout(ps.drop_last(), mid, outcome, uid) + if ps.last().user_id@ == uid {
            position_payout(ps.last(), mid, outcome)
        } else {
            0
        }
    }
}

/// The position payouts owed to all holders, summed.
pub open spec fn total_positions_payout(
    ps: Seq<Position>,
    mid: Seq<char>,
    outcome: YesOrNoOrNA,
) -> int
    decreases ps.len(),
{
    if ps.len() == 0 {
        0
    } else {
        total_positions_payout(ps.drop_last(), mid, outcome) + position_payout(
            ps.last(),
            mid,
            outcome,
        )
    }
}

/// What the market's residual pool pays its creator, in cents.
pub open spec fn pool_payout(m: Market, outcome: YesOrNoOrNA) -> int {
    match outcome {
        YesOrNoOrNA::Yes => m.yes_pool as int,
        YesOrNoOrNA::No => m.no_pool as int,
        YesOrNoOrNA::NA => 0,
    }
}

/// Everything resolution credits one account: the residual pool if
/// the account is the creator's, plus its own position payouts.
pub open spec fn account_payout(
    a: Account,
    m: Market,
    ps: Seq<Position>,
    outcome: YesOrNoOrNA,
) -> int {
    (if a.id@ == m.creator_id@ {
        pool_payout(m, outcome)
    } else {
        0
    }) + user_payout(ps, m.id@, outcome, a.id@)
}

/// All balances, summed.
pub open spec fn sum_balances(s: Seq<Account>) -> int
    decreases s.len(),
{
    if s.len() == 0 {
        0
    } else {
        sum_balances(s.drop_last()) + s.last().balance
    }
}

/// What resolution credits each account, summed over the accounts.
pub open spec fn total_accounts_payout(
    accs: Seq<Account>,
    m: Market,
    ps: Seq<Position>,
    outcome: YesOrNoOrNA,
) -> int
    decreases accs.len(),
{
    if accs.len() == 0 {
        0
    } else {
        total_accounts_payout(accs.drop_last(), m, ps, outcome) + account_payout(
            accs.last(),
            m,
            ps,
            outcome,
        )
    }
}

/// `v` for each account whose id is `uid`, summed over the accounts.
spec fn match_sum(accs: Seq<Account>, uid: Seq<char>, v: int) -> int
    decreases accs.len(),
{
    if accs.len() == 0 {
        0
    } else {
        match_sum(accs.drop_last(), uid, v) + if accs.last().id@ == uid {
            v
        } else {
            0
        }
    }
}

/// The positions that survive retiring a market: those of every other
/// market, their order kept.
pub open spec fn remaining_positions(ps: Seq<Position>, mid: Seq<char>) -> Seq<Position>
    decreases ps.len(),
{
    if ps.len() == 0 {
        Seq::empty()
    } else {
        let r = remaining_positions(ps.drop_last(), mid);
        if ps.last().market_id@ == mid {
            r
        } else {
            r.push(ps.last())
        }
    }
}

/// Over accounts with unique ids, [`match_sum`] picks out `v` exactly
/// once — or never, when no account carries the id.
proof fn lemma_match_sum(accs: Seq<Account>, uid: Seq<char>, v: int)
    requires
        unique_account_ids(accs),
    ensures
        match_sum(accs, uid, v) == if has_account(accs, uid) {
            v
        } else {
            0
        },
    decreases accs.len(),
{
    if accs.len() > 0 {
        let butlast = accs.drop_last();
        assert(unique_account_ids(butlast));
        lemma_match_sum(butlast, uid, v);
        if accs.last().id@ == uid {
            assert(!has_account(butlast, uid)) by {
                if has_account(butlast, uid) {
                    let w = choose|k: int| 0 <= k < butlast.len() && butlast[k].id@ == uid;
                    assert(accs[w].id@ == accs[accs.len() - 1].id@);
                }
            }
            assert(has_account(accs, uid)) by {
                assert(accs[accs.len() - 1].id@ == uid);
            }
        } else {
            if has_account(butlast, uid) {
                let w = choose|k: int| 0 <= k < butlast.len() && butlast[k].id@ == uid;
                assert(accs[w].id@ == uid);
            }
            if has_account(accs, uid) {
                let w = choose|k: int| 0 <= k < accs.len() && accs[k].id@ == uid;
                assert(w < accs.len() - 1);
                assert(butlast[w].id@ == uid);
            }
        }
    }
}

/// Appending one position adds its payout to its holder's sum and to
/// nobody else's.
proof fn lemma_user_payout_push(
    ps: Seq<Position>,
    p: Position,
    mid: Seq<char>,
    outcome: YesOrNoOrNA,
    uid: Seq<char>,
)
    ensures
        user_payout(ps.push(p), mid, outcome, uid) == user_payout(ps, mid, outcome, uid) + if p.user_id@
            == uid {
            position_payout(p, mid, outcome)
        } else {
            0
        },
{
    assert(ps.push(p).drop_last() =~= ps);
    assert(ps.push(p).last() == p);
}

/// Appending one position adds [`match_sum`] of its payout to the
/// account-by-account total.
proof fn lemma_total_accounts_payout_push(
    accs: Seq<Account>,
    m: Market,
    ps: Seq<Position>,
    p: Position,
    outcome: YesOrNoOrNA,
)
    ensures
        total_accounts_payout(accs, m, ps.push(p), outcome) == total_accounts_payout(
            accs,
            m,
            ps,
            outcome,
        ) + match_sum(accs, p.user_id@, position_payout(p, m.id@, outcome)),
    decreases accs.len(),
{
    if accs.len() > 0 {
        lemma_total_accounts_payout_push(accs.drop_last(), m, ps, p, outcome);
        lemma_user_payout_push(ps, p, m.id@, outcome, accs.last().id@);
    }
}

/// With no positions at all, the account-by-account total is just the
/// pool, paid to whoever carries the creator's id.
proof fn lemma_total_accounts_payout_empty(accs: Seq<Account>, m: Market, outcome: YesOrNoOrNA)
    ensures
        total_accounts_payout(accs, m, Seq::<Position>::empty(), outcome) == match_sum(
            accs,
            m.creator_id@,
            pool_payout(m, outcome),
        ),
    decreases accs.len(),
{
    if accs.len() > 0 {
        lemma_total_accounts_payout_empty(accs.drop_last(), m, outcome);
    }
}

/// The exchange law of the payout double sum: summing each account's
/// credit over the accounts equals the pool plus the payout summed
/// over the positions — provided ids are unique, the creator has an
/// account, and every holder has an account.
pub proof fn lemma_payout_exchange(
    accs: Seq<Account>,
    m: Market,
    ps: Seq<Position>,
    outcome: YesOrNoOrNA,
)
    requires
        unique_account_ids(accs),
        has_account(accs, m.creator_id@),
        forall|i: int| 0 <= i < ps.len() ==> has_account(accs, (#[trigger] ps[i]).user_id@),
    ensures
        total_accounts_payout(accs, m, ps, outcome) == pool_payout(m, outcome)
            + total_positions_payout(ps, m.id@, outcome),
    decreases ps.len(),
{
    if ps.len() == 0 {
        assert(ps =~= Seq::<Position>::empty());
        lemma_total_accounts_payout_empty(accs, m, outcome);
        lemma_match_sum(accs, m.creator_id@, pool_payout(m, outcome));
    } else {
        let butlast = ps.drop_last();
        let p = ps.last();
        assert(forall|i: int|
            0 <= i < butlast.len() ==> has_account(accs, (#[trigger] butlast[i]).user_id@));
        lemma_payout_exchange(accs, m, butlast, outcome);
        assert(butlast.push(p) =~= ps);
        lemma_total_accounts_payout_push(accs, m, butlast, p, outcome);
        lemma_match_sum(accs, p.user_id@, position_payout(p, m.id@, outcome));
        assert(has_account(accs, p.user_id@)) by {
            assert(ps[ps.len() - 1] == p);
        }
    }
}

/// Crediting each balance by that account's payout raises the balance
/// total by the account-by-account payout total.
pub proof fn lemma_sum_balances_credit(
    pre: Seq<Account>,
    post: Seq<Account>,
    m: Market,
    ps: Seq<Position>,
    outcome: YesOrNoOrNA,
)
    requires
        post.len() == pre.len(),
        forall|i: int|
            0 <= i < pre.len() ==> (#[trigger] post[i]).balance == pre[i].balance
                + account_payout(pre[i], m, ps, outcome) && post[i].id@ == pre[i].id@,
    ensures
        sum_balances(post) == sum_balances(pre) + total_accounts_payout(pre, m, ps, outcome),
    decreases pre.len(),
{
    if pre.len() > 0 {
        assert(post.drop_last().len() == pre.drop_last().len());
        assert(forall|i: int|
            0 <= i < pre.drop_last().len() ==> (#[trigger] post.drop_last()[i])
                == post[i] && pre.drop_last()[i] == pre[i]);
        lemma_sum_balances_credit(pre.drop_last(), post.drop_last(), m, ps, outcome);
        assert(post.last() == post[pre.len() - 1]);
        assert(pre.last() == pre[pre.len() - 1]);
    }
}

/// Removing one market leaves every other market's id reachable.
proof fn lemma_has_market_remove(s: Seq<Market>, i: int, id: Seq<char>)
    requires
        0 <= i < s.len(),
        has_market(s, id),
        s[i].id@ != id,
    ensures
        has_market(s.remove(i), id),
{
    let w = choose|k: int| 0 <= k < s.len() && s[k].id@ == id;
    if w < i {
        assert(s.remove(i)[w].id@ == id);
    } else {
        assert(s.remove(i)[w - 1].id@ == id);
    }
}

/// Retiring a market's positions keeps the survivors' keys unique,
/// keeps them off the retired market, and takes each from the
/// store as it stood.
pub proof fn lemma_remaining_positions_props(ps: Seq<Position>, mid: Seq<char>)
    requires
        unique_position_keys(ps),
    ensures
        unique_position_keys(remaining_positions(ps, mid)),
        forall|k: int|
            0 <= k < remaining_positions(ps, mid).len() ==> (#[trigger] remaining_positions(
                ps,
                mid,
            )[k]).market_id@ != mid,
        forall|k: int|
            0 <= k < remaining_positions(ps, mid).len() ==> ps.contains(
                #[trigger] remaining_positions(ps, mid)[k],
            ),
    decreases ps.len(),
{
    if ps.len() > 0 {
        let butlast = ps.drop_last();
        let p = ps.last();
        assert(unique_position_keys(butlast));
        lemma_remaining_positions_props(butlast, mid);
        let r = remaining_positions(butlast, mid);
        assert forall|k: int| 0 <= k < r.len() implies ps.contains(#[trigger] r[k]) by {
            let k0 = choose|k0: int| 0 <= k0 < butlast.len() && #[trigger] butlast[k0] == r[k];
            assert(ps[k0] == r[k]);
        }
        if p.market_id@ != mid {
            assert(remaining_positions(ps, mid) == r.push(p));
            assert(ps.contains(p)) by {
                assert(ps[ps.len() - 1] == p);
            }
            assert forall|a: int, b: int|
                0 <= a < b < r.push(p).len() implies !pos_matches(
                r.push(p)[b],
                r.push(p)[a].user_id@,
                r.push(p)[a].market_id@,
                r.push(p)[a].side,
            ) by {
                if b == r.len() {
                    let k0 = choose|k0: int|
                        0 <= k0 < butlast.len() && #[trigger] butlast[k0] == r[a];
                    assert(ps[k0] == r[a]);
                    assert(!pos_matches(
                        ps[ps.len() - 1],
                        ps[k0].user_id@,
                        ps[k0].market_id@,
                        ps[k0].side,
                    ));
                }
            }
        }
    }
}

/// What one position pays its holder, computed.
fn position_payout_exec(p: &Position, market_id: &String, outcome: YesOrNoOrNA) -> (r: u64)
    requires
        p.shares <= SHARES_MAX,
        p.spent <= MONEY_MAX,
    ensures
        r == position_payout(*p, market_id@, outcome),
        r <= MONEY_MAX,
{
    if p.market_id == *market_id {
        match outcome {
            YesOrNoOrNA::Yes => if p.side.is_yes() {
                100 * p.shares
            } else {
                0
            },
            YesOrNoOrNA::No => if !p.side.is_yes() {
                100 * p.shares
            } else {
                0
            },
            YesOrNoOrNA::NA => p.spent,
        }
    } else {
        0
    }
}

/// What a successful resolution does to the store: every account is
/// credited its payout, the market and all its positions are gone,
/// and the resolution is logged. Summed over the accounts, exactly
/// the residual pool plus the per-position payouts enter circulation
/// — for a void resolution, exactly the total cost basis refunded.
pub open spec fn resolve_committed(
    pre: Engine,
    post: Engine,
    now: u64,
    market_id: String,
    outcome: YesOrNoOrNA,
) -> bool {
    let mid = market_id@;
    let mi = market_at(pre.markets@, mid);
    let m = pre.markets@[mi];
    &&& post.accounts@.len() == pre.accounts@.len()
    &&& forall|i: int|
        0 <= i < pre.accounts@.len() ==> #[trigger] post.accounts@[i] == (Account {
            id: pre.accounts@[i].id,
            name: pre.accounts@[i].name,
            balance: (pre.accounts@[i].balance + account_payout(
                pre.accounts@[i],
                m,
                pre.positions@,
                outcome,
            )) as u64,
        })
    &&& post.markets@ =~= pre.markets@.remove(mi)
    &&& post.positions@ =~= remaining_positions(pre.positions@, mid)
    &&& post.log@ =~= pre.log@.push(
        (LogEntry { at: now, event: LogEvent::MarketResolved { market_id, outcome } }),
    )
    &&& sum_balances(post.accounts@) == sum_balances(pre.accounts@) + pool_payout(m, outcome)
        + total_positions_payout(pre.positions@, mid, outcome)
}

impl Engine {
    /// Resolve a market to `outcome` and retire it, crediting every
    /// payout atomically. Only the creator may; any other caller — or
    /// a missing market — gets the same not-found answer, so that
    /// non-creators cannot learn whether a market exists.
    #[verifier::loop_isolation(false)]
    pub fn resolve(
        &mut self,
        now: u64,
        user_id: &String,
        market_id: &String,
        outcome: YesOrNoOrNA,
    ) -> (r: Result<(), BetError>)
        requires
            old(self).wf(),
        ensures
            final(self).wf(),
            (r is Err ==> *final(self) == *old(self)),
            ({
                let pre = *old(self);
                let mid = market_id@;
                let authorized = has_market(pre.markets@, mid) && pre.markets@[market_at(
                    pre.markets@,
                    mid,
                )].creator_id@ == user_id@;
                let m = pre.markets@[market_at(pre.markets@, mid)];
                &&& (r == Err::<(), BetError>(BetError::NotFound) <==> !authorized)
                &&& (r == Err::<(), BetError>(BetError::Overflow) <==> authorized && exists|i: int|
                    0 <= i < pre.accounts@.len() && (#[trigger] pre.accounts@[i]).balance
                        + account_payout(pre.accounts@[i], m, pre.positions@, outcome) > MONEY_MAX)
                &&& (r is Ok <==> authorized && forall|i: int|
                    0 <= i < pre.accounts@.len() ==> (#[trigger] pre.accounts@[i]).balance
                        + account_payout(pre.accounts@[i], m, pre.positions@, outcome)
                        <= MONEY_MAX)
                &&& (r is Ok ==> resolve_committed(pre, *final(self), now, *market_id, outcome))
            }),
    {
        let mi = match find_market(&self.markets, market_id) {
            Some(i) => i,
            None => {
                return Err(BetError::NotFound);
            },
        };
        proof {
            lemma_market_at_is(self.markets@, market_id@, mi as int);
        }
        if !(self.markets[mi].creator_id == *user_id) {
            return Err(BetError::NotFound);
        }
        let ghost pre = *self;
        let ghost m = pre.markets@[mi as int];
        let ghost mid_view = market_id@;
        assert(m.id@ == mid_view);
        let pool_pay: u64 = match outcome {
            YesOrNoOrNA::Yes => self.markets[mi].yes_pool,
            YesOrNoOrNA::No => self.markets[mi].no_pool,
            YesOrNoOrNA::NA => 0,
        };
        assert(pool_pay == pool_payout(m, outcome));
        // Phase one: compute every account's credit. Nothing is
        // mutated until every credit is known to fit.
        let mut credits: Vec<u64> = Vec::new();
        let mut i: usize = 0;
        while i < self.accounts.len()
            invariant
                i <= pre.accounts@.len(),
                credits@.len() == i,
                forall|k: int|
                    0 <= k < i ==> credits@[k] == account_payout(
                        pre.accounts@[k],
                        m,
                        pre.positions@,
                        outcome,
                    ),
                forall|k: int| 0 <= k < i ==> pre.accounts@[k].balance + credits@[k] <= MONEY_MAX,
            decreases pre.accounts@.len() - i,
        {
            let ghost base: int = if pre.accounts@[i as int].id@ == m.creator_id@ {
                pool_payout(m, outcome)
            } else {
                0
            };
            let mut c: u128 = if self.accounts[i].id == self.markets[mi].creator_id {
                pool_pay as u128
            } else {
                0
            };
            let mut j: usize = 0;
            while j < self.positions.len()
                invariant
                    j <= pre.positions@.len(),
                    c == base + user_payout(
                        pre.positions@.take(j as int),
                        mid_view,
                        outcome,
                        pre.accounts@[i as int].id@,
                    ),
                    c <= MONEY_MAX + j * (MONEY_MAX as int),
                decreases pre.positions@.len() - j,
            {
                let ghost prefix = pre.positions@.take(j as int);
                if self.positions[j].user_id == self.accounts[i].id {
                    let pp: u64 = position_payout_exec(&self.positions[j], market_id, outcome);
                    c = c + pp as u128;
                }
                proof {
                    assert(pre.positions@.take(j + 1).drop_last() =~= prefix);
                    assert(pre.positions@.take(j + 1).last() == pre.positions@[j as int]);
                }
                j = j + 1;
            }
            proof {
                assert(pre.positions@.take(pre.positions@.len() as int) =~= pre.positions@);
            }
            if c > (MONEY_MAX - self.accounts[i].balance) as u128 {
                return Err(BetError::Overflow);
            }
            credits.push(c as u64);
            i = i + 1;
        }
        // Phase two: commit the whole settlement.
        let mut i2: usize = 0;
        while i2 < self.accounts.len()
            invariant
                i2 <= pre.accounts@.len(),
                self.accounts@.len() == pre.accounts@.len(),
                self.markets == pre.markets,
                self.positions == pre.positions,
                self.log == pre.log,
                forall|k: int|
                    i2 <= k < pre.accounts@.len() ==> #[trigger] self.accounts@[k]
                        == pre.accounts@[k],
                forall|k: int|
                    0 <= k < i2 ==> #[trigger] self.accounts@[k] == (Account {
                        id: pre.accounts@[k].id,
                        name: pre.accounts@[k].name,
                        balance: (pre.accounts@[k].balance + credits@[k]) as u64,
                    }),
            decreases pre.accounts@.len() - i2,
        {
            let b: u64 = self.accounts[i2].balance;
            let cr: u64 = credits[i2];
            self.accounts[i2].balance = b + cr;
            i2 = i2 + 1;
        }
        self.markets.remove(mi);
        let mut kept: Vec<Position> = Vec::new();
        let mut j2: usize = 0;
        while j2 < self.positions.len()
            invariant
                j2 <= pre.positions@.len(),
                self.positions == pre.positions,
                kept@ =~= remaining_positions(pre.positions@.take(j2 as int), mid_view),
            decreases pre.positions@.len() - j2,
        {
            let ghost prefix = pre.positions@.take(j2 as int);
            if !(self.positions[j2].market_id == *market_id) {
                let p = &self.positions[j2];
                kept.push(
                    Position {
                        user_id: p.user_id.clone(),
                        market_id: p.market_id.clone(),
                        side: p.side,
                        shares: p.shares,
                        spent: p.spent,
                    },
                );
            }
            proof {
                assert(pre.positions@.take(j2 + 1).drop_last() =~= prefix);
                assert(pre.positions@.take(j2 + 1).last() == pre.positions@[j2 as int]);
            }
            j2 = j2 + 1;
        }
        self.positions = kept;
        self.log.push(
            LogEntry {
                at: now,
                event: LogEvent::MarketResolved { market_id: market_id.clone(), outcome },
            },
        );
        proof {
            assert(pre.positions@.take(pre.positions@.len() as int) =~= pre.positions@);
            lemma_accounts_rewrite_keeps_ids(pre.accounts@, self.accounts@);
            lemma_remaining_positions_props(pre.positions@, mid_view);
            assert(self.markets@ =~= pre.markets@.remove(mi as int));
            assert(forall|k: int| 0 <= k < mi ==> self.markets@[k] == pre.markets@[k]);
            assert(forall|k: int|
                mi <= k < self.markets@.len() ==> self.markets@[k] == pre.markets@[k + 1]);
            assert forall|k: int| 0 <= k < self.positions@.len() implies {
                let p = #[trigger] self.positions@[k];
                &&& p.shares <= SHARES_MAX
                &&& p.spent <= MONEY_MAX
                &&& has_account(self.accounts@, p.user_id@)
                &&& has_market(self.markets@, p.market_id@)
            } by {
                let p = self.positions@[k];
                assert(pre.positions@.contains(p));
                let k0 = choose|k0: int|
                    0 <= k0 < pre.positions@.len() && pre.positions@[k0] == p;
                assert(has_account(pre.accounts@, p.user_id@));
                assert(has_market(pre.markets@, p.market_id@));
                lemma_has_market_remove(pre.markets@, mi as int, p.market_id@);
            }
            lemma_sum_balances_credit(pre.accounts@, self.accounts@, m, pre.positions@, outcome);
            lemma_payout_exchange(pre.accounts@, m, pre.positions@, outcome);
            assert forall|k: int| 0 <= k < pre.accounts@.len() implies (
            #[trigger] pre.accounts@[k]).balance + account_payout(
                pre.accounts@[k],
                m,
                pre.positions@,
                outcome,
            ) <= MONEY_MAX by {
                assert(credits@[k] == account_payout(pre.accounts@[k], m, pre.positions@, outcome));
                assert(pre.accounts@[k].balance + credits@[k] <= MONEY_MAX);
            }
            assert(self.wf());
        }
        Ok(())
    }
}

} // verus!
