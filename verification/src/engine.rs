//! The market engine: an in-memory transactional store of accounts,
//! markets, positions and the audit log, together with the operations
//! that mutate it.
//!
//! Every operation takes the engine by exclusive reference, so one
//! operation is one serializable transaction: no other reader or
//! writer can observe a partial state. Rejected operations leave the
//! engine bit-for-bit unchanged.

use vstd::prelude::*;

use crate::model::Account;
use crate::model::BetError;
use crate::model::LogEntry;
use crate::model::Market;
use crate::model::Position;
use crate::model::YesOrNo;
use crate::model::MONEY_MAX;
use crate::model::SHARES_MAX;

verus! {

/// No two accounts share an id.
pub open spec fn unique_account_ids(s: Seq<Account>) -> bool {
    forall|i: int, j: int| 0 <= i < j < s.len() ==> s[i].id@ != s[j].id@
}

/// No two markets share an id.
pub open spec fn unique_market_ids(s: Seq<Market>) -> bool {
    forall|i: int, j: int| 0 <= i < j < s.len() ==> s[i].id@ != s[j].id@
}

/// `p` is the holding of `user_id` on side `side` of market `market_id`.
pub open spec fn pos_matches(
    p: Position,
    user_id: Seq<char>,
    market_id: Seq<char>,
    side: YesOrNo,
) -> bool {
    p.user_id@ == user_id && p.market_id@ == market_id && p.side == side
}

/// No two positions share a (user, market, side) key.
pub open spec fn unique_position_keys(s: Seq<Position>) -> bool {
    forall|i: int, j: int|
        0 <= i < j < s.len() ==> !pos_matches(s[j], s[i].user_id@, s[i].market_id@, s[i].side)
}

/// Some account carries this id.
pub open spec fn has_account(s: Seq<Account>, id: Seq<char>) -> bool {
    exists|i: int| 0 <= i < s.len() && s[i].id@ == id
}

/// The index of the account carrying this id (unique when ids are).
pub open spec fn account_at(s: Seq<Account>, id: Seq<char>) -> int {
    choose|i: int| 0 <= i < s.len() && s[i].id@ == id
}

/// Some market carries this id.
pub open spec fn has_market(s: Seq<Market>, id: Seq<char>) -> bool {
    exists|i: int| 0 <= i < s.len() && s[i].id@ == id
}

/// The index of the market carrying this id (unique when ids are).
pub open spec fn market_at(s: Seq<Market>, id: Seq<char>) -> int {
    choose|i: int| 0 <= i < s.len() && s[i].id@ == id
}

/// Some position carries this (user, market, side) key.
pub open spec fn has_position(
    s: Seq<Position>,
    user_id: Seq<char>,
    market_id: Seq<char>,
    side: YesOrNo,
) -> bool {
    exists|i: int| 0 <= i < s.len() && pos_matches(s[i], user_id, market_id, side)
}

/// The index of the position carrying this key (unique when keys are).
pub open spec fn position_at(
    s: Seq<Position>,
    user_id: Seq<char>,
    market_id: Seq<char>,
    side: YesOrNo,
) -> int {
    choose|i: int| 0 <= i < s.len() && pos_matches(s[i], user_id, market_id, side)
}

/// A market's pools are positive and within the fixed-point range.
pub open spec fn market_ok(m: Market) -> bool {
    1 <= m.yes_pool <= MONEY_MAX && 1 <= m.no_pool <= MONEY_MAX
}

/// A position's amounts are within the fixed-point range.
pub open spec fn position_ok(p: Position) -> bool {
    p.shares <= SHARES_MAX && p.spent <= MONEY_MAX
}

pub proof fn lemma_account_at_is(s: Seq<Account>, id: Seq<char>, i: int)
    requires
        unique_account_ids(s),
        0 <= i < s.len(),
        s[i].id@ == id,
    ensures
        has_account(s, id),
        account_at(s, id) == i,
{
    assert(has_account(s, id));
    let j = account_at(s, id);
    if i < j {
        assert(s[i].id@ != s[j].id@);
    }
    if j < i {
        assert(s[j].id@ != s[i].id@);
    }
}

pub proof fn lemma_market_at_is(s: Seq<Market>, id: Seq<char>, i: int)
    requires
        unique_market_ids(s),
        0 <= i < s.len(),
        s[i].id@ == id,
    ensures
        has_market(s, id),
        market_at(s, id) == i,
{
    assert(has_market(s, id));
    let j = market_at(s, id);
    if i < j {
        assert(s[i].id@ != s[j].id@);
    }
    if j < i {
        assert(s[j].id@ != s[i].id@);
    }
}

pub proof fn lemma_position_at_is(
    s: Seq<Position>,
    user_id: Seq<char>,
    market_id: Seq<char>,
    side: YesOrNo,
    i: int,
)
    requires
        unique_position_keys(s),
        0 <= i < s.len(),
        pos_matches(s[i], user_id, market_id, side),
    ensures
        has_position(s, user_id, market_id, side),
        position_at(s, user_id, market_id, side) == i,
{
    assert(has_position(s, user_id, market_id, side));
    let j = position_at(s, user_id, market_id, side);
    if i < j {
        assert(!pos_matches(s[j], s[i].user_id@, s[i].market_id@, s[i].side));
    }
    if j < i {
        assert(!pos_matches(s[i], s[j].user_id@, s[j].market_id@, s[j].side));
    }
}

/// Rewriting accounts in place — same ids, new balances — keeps the
/// ids unique and keeps every id reachable.
pub proof fn lemma_accounts_rewrite_keeps_ids(pre: Seq<Account>, post: Seq<Account>)
    requires
        post.len() == pre.len(),
        forall|i: int| 0 <= i < pre.len() ==> (#[trigger] post[i]).id@ == pre[i].id@,
    ensures
        unique_account_ids(pre) ==> unique_account_ids(post),
        forall|id: Seq<char>| #[trigger] has_account(pre, id) ==> has_account(post, id),
{
    assert forall|id: Seq<char>| #[trigger] has_account(pre, id) implies has_account(post, id) by {
        let w = choose|k: int| 0 <= k < pre.len() && pre[k].id@ == id;
        assert(post[w].id@ == id);
    }
}

/// Rewriting markets in place — same ids, new pools or flags — keeps
/// the ids unique and keeps every id reachable.
pub proof fn lemma_markets_rewrite_keeps_ids(pre: Seq<Market>, post: Seq<Market>)
    requires
        post.len() == pre.len(),
        forall|i: int| 0 <= i < pre.len() ==> (#[trigger] post[i]).id@ == pre[i].id@,
    ensures
        unique_market_ids(pre) ==> unique_market_ids(post),
        forall|id: Seq<char>| #[trigger] has_market(pre, id) ==> has_market(post, id),
{
    assert forall|id: Seq<char>| #[trigger] has_market(pre, id) implies has_market(post, id) by {
        let w = choose|k: int| 0 <= k < pre.len() && pre[k].id@ == id;
        assert(post[w].id@ == id);
    }
}

/// Appending an account keeps every earlier id reachable.
pub proof fn lemma_accounts_push_keeps_ids(pre: Seq<Account>, a: Account)
    ensures
        forall|id: Seq<char>| #[trigger] has_account(pre, id) ==> has_account(pre.push(a), id),
{
    assert forall|id: Seq<char>| #[trigger] has_account(pre, id) implies has_account(
        pre.push(a),
        id,
    ) by {
        let w = choose|k: int| 0 <= k < pre.len() && pre[k].id@ == id;
        assert(pre.push(a)[w].id@ == id);
    }
}

/// Appending a market keeps every earlier id reachable.
pub proof fn lemma_markets_push_keeps_ids(pre: Seq<Market>, m: Market)
    ensures
        forall|id: Seq<char>| #[trigger] has_market(pre, id) ==> has_market(pre.push(m), id),
{
    assert forall|id: Seq<char>| #[trigger] has_market(pre, id) implies has_market(
        pre.push(m),
        id,
    ) by {
        let w = choose|k: int| 0 <= k < pre.len() && pre[k].id@ == id;
        assert(pre.push(m)[w].id@ == id);
    }
}

/// The shared store the engine's operations run against. Owning it by
/// `&mut` is the transaction boundary.
pub struct Engine {
    pub accounts: Vec<Account>,
    pub markets: Vec<Market>,
    pub positions: Vec<Position>,
    pub log: Vec<LogEntry>,
}

impl Engine {
    /// The engine's invariant: ids and position keys are unique, every
    /// amount is within the fixed-point range, both pools of every
    /// market are positive, and every position and every market refers
    /// to a live account (and market).
    pub open spec fn wf(self) -> bool {
        &&& unique_account_ids(self.accounts@)
        &&& forall|i: int|
            0 <= i < self.accounts@.len() ==> (#[trigger] self.accounts@[i]).balance <= MONEY_MAX
        &&& unique_market_ids(self.markets@)
        &&& forall|i: int| 0 <= i < self.markets@.len() ==> market_ok(#[trigger] self.markets@[i])
        &&& forall|i: int|
            0 <= i < self.markets@.len() ==> has_account(
                self.accounts@,
                (#[trigger] self.markets@[i]).creator_id@,
            )
        &&& unique_position_keys(self.positions@)
        &&& forall|i: int|
            0 <= i < self.positions@.len() ==> position_ok(#[trigger] self.positions@[i])
        &&& forall|i: int|
            0 <= i < self.positions@.len() ==> has_account(
                self.accounts@,
                (#[trigger] self.positions@[i]).user_id@,
            ) && has_market(self.markets@, self.positions@[i].market_id@)
    }

    /// An empty store.
    pub fn new() -> (e: Engine)
        ensures
            e.wf(),
            e.accounts@ =~= Seq::<Account>::empty(),
            e.markets@ =~= Seq::<Market>::empty(),
            e.positions@ =~= Seq::<Position>::empty(),
            e.log@ =~= Seq::<LogEntry>::empty(),
    {
        Engine { accounts: Vec::new(), markets: Vec::new(), positions: Vec::new(), log: Vec::new() }
    }

    /// Provision an account. Identities come from outside the engine;
    /// this records one, with its starting balance.
    pub fn add_account(&mut self, id: String, name: String, balance: u64) -> (r: Result<
        (),
        BetError,
    >)
        requires
            old(self).wf(),
        ensures
            final(self).wf(),
            (r is Ok <==> !has_account(old(self).accounts@, id@) && balance <= MONEY_MAX),
            (r == Err::<(), BetError>(BetError::IdCollision) <==> has_account(
                old(self).accounts@,
                id@,
            )),
            (r == Err::<(), BetError>(BetError::Overflow) <==> !has_account(
                old(self).accounts@,
                id@,
            ) && balance > MONEY_MAX),
            (r is Err ==> *final(self) == *old(self)),
            (r is Ok ==> final(self).accounts@ =~= old(self).accounts@.push(
                (Account { id, name, balance }),
            ) && final(self).markets == old(self).markets && final(self).positions == old(
                self,
            ).positions && final(self).log == old(self).log),
    {
        if let Some(_i) = find_account(&self.accounts, &id) {
            return Err(BetError::IdCollision);
        }
        if balance > MONEY_MAX {
            return Err(BetError::Overflow);
        }
        let ghost pre = *self;
        self.accounts.push(Account { id, name, balance });
        proof {
            lemma_accounts_push_keeps_ids(
                pre.accounts@,
                self.accounts@[pre.accounts@.len() as int],
            );
            assert(self.accounts@ =~= pre.accounts@.push(
                self.accounts@[pre.accounts@.len() as int],
            ));
        }
        Ok(())
    }
}

impl Engine {
    /// The account with this id, if any.
    pub fn get_account(&self, id: &String) -> (r: Option<&Account>)
        requires
            self.wf(),
        ensures
            (r matches Some(a) ==> has_account(self.accounts@, id@) && *a == self.accounts@[
            account_at(self.accounts@, id@)] && a.id@ == id@),
            (r is None ==> !has_account(self.accounts@, id@)),
    {
        match find_account(&self.accounts, id) {
            Some(i) => {
                proof {
                    lemma_account_at_is(self.accounts@, id@, i as int);
                }
                Some(&self.accounts[i])
            },
            None => None,
        }
    }

    /// The market with this id, if any.
    pub fn get_market(&self, id: &String) -> (r: Option<&Market>)
        requires
            self.wf(),
        ensures
            (r matches Some(m) ==> has_market(self.markets@, id@) && *m == self.markets@[market_at(
                self.markets@,
                id@,
            )] && m.id@ == id@),
            (r is None ==> !has_market(self.markets@, id@)),
    {
        match find_market(&self.markets, id) {
            Some(i) => {
                proof {
                    lemma_market_at_is(self.markets@, id@, i as int);
                }
                Some(&self.markets[i])
            },
            None => None,
        }
    }

    /// The position under this (user, market, side) key, if any.
    pub fn get_position(&self, user_id: &String, market_id: &String, side: YesOrNo) -> (r: Option<
        &Position,
    >)
        requires
            self.wf(),
        ensures
            (r matches Some(p) ==> has_position(self.positions@, user_id@, market_id@, side) && *p
                == self.positions@[position_at(self.positions@, user_id@, market_id@, side)]
                && pos_matches(*p, user_id@, market_id@, side)),
            (r is None ==> !has_position(self.positions@, user_id@, market_id@, side)),
    {
        match find_position(&self.positions, user_id, market_id, side) {
            Some(i) => {
                proof {
                    lemma_position_at_is(self.positions@, user_id@, market_id@, side, i as int);
                }
                Some(&self.positions[i])
            },
            None => None,
        }
    }

    /// All accounts, for dashboards and leaderboards.
    pub fn list_accounts(&self) -> (r: &Vec<Account>)
        ensures
            *r == self.accounts,
    {
        &self.accounts
    }

    /// All markets, for dashboards and leaderboards.
    pub fn list_markets(&self) -> (r: &Vec<Market>)
        ensures
            *r == self.markets,
    {
        &self.markets
    }

    /// All positions, for dashboards and leaderboards.
    pub fn list_positions(&self) -> (r: &Vec<Position>)
        ensures
            *r == self.positions,
    {
        &self.positions
    }

    /// The audit trail, oldest entry first.
    pub fn list_log(&self) -> (r: &Vec<LogEntry>)
        ensures
            *r == self.log,
    {
        &self.log
    }
}

/// The index of the account with this id, if any.
pub fn find_account(accounts: &Vec<Account>, id: &String) -> (r: Option<usize>)
    ensures
        (r matches Some(i) ==> 0 <= i < accounts@.len() && accounts@[i as int].id@ == id@),
        (r is None ==> !has_account(accounts@, id@)),
{
    let mut i: usize = 0;
    while i < accounts.len()
        invariant
            i <= accounts@.len(),
            forall|j: int| 0 <= j < i ==> accounts@[j].id@ != id@,
        decreases accounts@.len() - i,
    {
        if accounts[i].id == *id {
            return Some(i);
        }
        i = i + 1;
    }
    None
}

/// The index of the market with this id, if any.
pub fn find_market(markets: &Vec<Market>, id: &String) -> (r: Option<usize>)
    ensures
        (r matches Some(i) ==> 0 <= i < markets@.len() && markets@[i as int].id@ == id@),
        (r is None ==> !has_market(markets@, id@)),
{
    let mut i: usize = 0;
    while i < markets.len()
        invariant
            i <= markets@.len(),
            forall|j: int| 0 <= j < i ==> markets@[j].id@ != id@,
        decreases markets@.len() - i,
    {
        if markets[i].id == *id {
            return Some(i);
        }
        i = i + 1;
    }
    None
}

/// The index of the position with this (user, market, side) key, if any.
pub fn find_position(
    positions: &Vec<Position>,
    user_id: &String,
    market_id: &String,
    side: YesOrNo,
) -> (r: Option<usize>)
    ensures
        (r matches Some(i) ==> 0 <= i < positions@.len() && pos_matches(
            positions@[i as int],
            user_id@,
            market_id@,
            side,
        )),
        (r is None ==> !has_position(positions@, user_id@, market_id@, side)),
{
    let mut i: usize = 0;
    while i < positions.len()
        invariant
            i <= positions@.len(),
            forall|j: int| 0 <= j < i ==> !pos_matches(positions@[j], user_id@, market_id@, side),
        decreases positions@.len() - i,
    {
        if positions[i].user_id == *user_id && positions[i].market_id == *market_id
            && positions[i].side == side {
            return Some(i);
        }
        i = i + 1;
    }
    None
}

} // verus!
