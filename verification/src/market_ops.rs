//! Opening, closing and funding: market creation, the creator-only
//! close, and the admin money grant.

use vstd::prelude::*;

use crate::engine::account_at;
use crate::engine::has_account;
use crate::engine::has_market;
use crate::engine::lemma_account_at_is;
use crate::engine::lemma_accounts_rewrite_keeps_ids;
use crate::engine::lemma_market_at_is;
use crate::engine::lemma_markets_push_keeps_ids;
use crate::engine::lemma_markets_rewrite_keeps_ids;
use crate::engine::market_at;
use crate::engine::find_account;
use crate::engine::find_market;
use crate::engine::Engine;
use crate::model::Account;
use crate::model::BetError;
use crate::model::LogEntry;
use crate::model::LogEvent;
use crate::model::Market;
use crate::model::Position;
use crate::model::YesOrNo;
use crate::model::GRANT_MONEY;
use crate::model::MIN_STARTING_MONEY;
use crate::model::MONEY_MAX;

verus! {

/// Relies on `uuid::Uuid::new_v4` and its `Display` impl: a freshly
/// drawn random version-4 UUID, printed in the 36-character
/// hyphenated form. Nothing further can be promised of a random
/// identifier; in particular not that it is unused.
#[verifier::external_body]
fn new_market_id() -> (r: String)
    ensures
        r@.len() == 36,
{
    uuid::Uuid::new_v4().to_string()
}

/// What a successful market creation does to the store: it debits the
/// creator by the starting liquidity, opens the market with both
/// pools at that liquidity, records the creator's contribution as two
/// zero-share positions whose cost bases sum to the whole (the odd
/// cent, if any, on the yes side), and logs the creation.
pub open spec fn market_created(
    pre: Engine,
    post: Engine,
    now: u64,
    id: String,
    creator_id: String,
    name: String,
    starting_money: u64,
) -> bool {
    let ai = account_at(pre.accounts@, creator_id@);
    let acc = pre.accounts@[ai];
    &&& post.accounts@ =~= pre.accounts@.update(
        ai,
        (Account {
            id: acc.id,
            name: acc.name,
            balance: (acc.balance - starting_money) as u64,
        }),
    )
    &&& post.markets@ =~= pre.markets@.push(
        (Market {
            id: id,
            creator_id: creator_id,
            name: name,
            created_at: now,
            closed: false,
            yes_pool: starting_money,
            no_pool: starting_money,
        }),
    )
    &&& post.positions@ =~= pre.positions@.push(
        (Position {
            user_id: creator_id,
            market_id: id,
            side: YesOrNo::Yes,
            shares: 0,
            spent: (starting_money - starting_money / 2) as u64,
        }),
    ).push(
        (Position {
            user_id: creator_id,
            market_id: id,
            side: YesOrNo::No,
            shares: 0,
            spent: (starting_money / 2) as u64,
        }),
    )
    &&& post.log@ =~= pre.log@.push(
        (LogEntry {
            at: now,
            event: LogEvent::MarketCreated {
                creator_id: creator_id,
                market_id: id,
                starting_money: starting_money,
            },
        }),
    )
}

impl Engine {
    /// Open a market under a caller-chosen id: debit the creator by
    /// `starting_money` and seed both pools with it.
    pub fn create_market_with_id(
        &mut self,
        now: u64,
        id: String,
        creator_id: &String,
        name: String,
        starting_money: u64,
    ) -> (r: Result<(), BetError>)
        requires
            old(self).wf(),
        ensures
            final(self).wf(),
            (r == Err::<(), BetError>(BetError::InvalidAmount) <==> starting_money
                < MIN_STARTING_MONEY),
            (r == Err::<(), BetError>(BetError::NotFound) <==> starting_money >= MIN_STARTING_MONEY
                && !has_account(old(self).accounts@, creator_id@)),
            (r == Err::<(), BetError>(BetError::InsufficientFunds) <==> starting_money
                >= MIN_STARTING_MONEY && has_account(old(self).accounts@, creator_id@) && old(
                self,
            ).accounts@[account_at(old(self).accounts@, creator_id@)].balance < starting_money),
            (r == Err::<(), BetError>(BetError::IdCollision) <==> starting_money
                >= MIN_STARTING_MONEY && has_account(old(self).accounts@, creator_id@) && old(
                self,
            ).accounts@[account_at(old(self).accounts@, creator_id@)].balance >= starting_money
                && has_market(old(self).markets@, id@)),
            (r is Err ==> *final(self) == *old(self)),
            (r is Ok <==> starting_money >= MIN_STARTING_MONEY && has_account(
                old(self).accounts@,
                creator_id@,
            ) && old(self).accounts@[account_at(old(self).accounts@, creator_id@)].balance
                >= starting_money && !has_market(old(self).markets@, id@)),
            (r is Ok ==> market_created(
                *old(self),
                *final(self),
                now,
                id,
                *creator_id,
                name,
                starting_money,
            )),
    {
        if starting_money < MIN_STARTING_MONEY {
            return Err(BetError::InvalidAmount);
        }
        let ai = match find_account(&self.accounts, creator_id) {
            Some(i) => i,
            None => {
                return Err(BetError::NotFound);
            },
        };
        proof {
            lemma_account_at_is(self.accounts@, creator_id@, ai as int);
        }
        if self.accounts[ai].balance < starting_money {
            return Err(BetError::InsufficientFunds);
        }
        if let Some(_mi) = find_market(&self.markets, &id) {
            return Err(BetError::IdCollision);
        }
        let ghost pre = *self;
        let balance: u64 = self.accounts[ai].balance;
        self.accounts[ai].balance = balance - starting_money;
        let half: u64 = starting_money / 2;
        self.markets.push(
            Market {
                id: id.clone(),
                creator_id: creator_id.clone(),
                name,
                created_at: now,
                closed: false,
                yes_pool: starting_money,
                no_pool: starting_money,
            },
        );
        self.positions.push(
            Position {
                user_id: creator_id.clone(),
                market_id: id.clone(),
                side: YesOrNo::Yes,
                shares: 0,
                spent: starting_money - half,
            },
        );
        self.positions.push(
            Position {
                user_id: creator_id.clone(),
                market_id: id.clone(),
                side: YesOrNo::No,
                shares: 0,
                spent: half,
            },
        );
        self.log.push(
            LogEntry {
                at: now,
                event: LogEvent::MarketCreated {
                    creator_id: creator_id.clone(),
                    market_id: id,
                    starting_money,
                },
            },
        );
        proof {
            lemma_accounts_rewrite_keeps_ids(pre.accounts@, self.accounts@);
            lemma_markets_push_keeps_ids(pre.markets@, self.markets@[pre.markets@.len() as int]);
            assert(self.markets@ =~= pre.markets@.push(
                self.markets@[pre.markets@.len() as int],
            ));
            // No old position can live on the new market: its id was free.
            assert forall|k: int| 0 <= k < pre.positions@.len() implies (
            #[trigger] pre.positions@[k]).market_id@ != id@ by {
                if pre.positions@[k].market_id@ == id@ {
                    assert(has_market(pre.markets@, id@));
                }
            }
            assert(self.wf());
        }
        Ok(())
    }

    /// Open a market under a freshly drawn random id: debit the
    /// creator by `starting_money` and seed both pools with it. The
    /// one failure the checks cannot rule out is the drawn id
    /// colliding with a live market's.
    pub fn create_market(
        &mut self,
        now: u64,
        creator_id: &String,
        name: String,
        starting_money: u64,
    ) -> (r: Result<String, BetError>)
        requires
            old(self).wf(),
        ensures
            final(self).wf(),
            (r == Err::<String, BetError>(BetError::InvalidAmount) <==> starting_money
                < MIN_STARTING_MONEY),
            (r == Err::<String, BetError>(BetError::NotFound) <==> starting_money
                >= MIN_STARTING_MONEY && !has_account(old(self).accounts@, creator_id@)),
            (r == Err::<String, BetError>(BetError::InsufficientFunds) <==> starting_money
                >= MIN_STARTING_MONEY && has_account(old(self).accounts@, creator_id@) && old(
                self,
            ).accounts@[account_at(old(self).accounts@, creator_id@)].balance < starting_money),
            (r == Err::<String, BetError>(BetError::IdCollision) ==> starting_money
                >= MIN_STARTING_MONEY && has_account(old(self).accounts@, creator_id@) && old(
                self,
            ).accounts@[account_at(old(self).accounts@, creator_id@)].balance >= starting_money),
            (r is Err ==> *final(self) == *old(self)),
            (r matches Ok(id) ==> id@.len() == 36 && !has_market(old(self).markets@, id@)
                && market_created(
                *old(self),
                *final(self),
                now,
                id,
                *creator_id,
                name,
                starting_money,
            )),
    {
        let id = new_market_id();
        let id_out = id.clone();
        match self.create_market_with_id(now, id, creator_id, name, starting_money) {
            Ok(()) => Ok(id_out),
            Err(e) => Err(e),
        }
    }

    /// Close a market, stopping all further trade on it; only its
    /// creator may, and any other caller — or a missing market — gets
    /// the same not-found answer, so that non-creators cannot learn
    /// whether a market exists.
    pub fn close(&mut self, now: u64, user_id: &String, market_id: &String) -> (r: Result<
        (),
        BetError,
    >)
        requires
            old(self).wf(),
        ensures
            final(self).wf(),
            (r is Err <==> !has_market(old(self).markets@, market_id@) || old(
                self,
            ).markets@[market_at(old(self).markets@, market_id@)].creator_id@ != user_id@),
            (r matches Err(e) ==> e == BetError::NotFound),
            (r is Err ==> *final(self) == *old(self)),
            (r is Ok ==> ({
                let mi = market_at(old(self).markets@, market_id@);
                let m = old(self).markets@[mi];
                &&& final(self).markets@ =~= old(self).markets@.update(
                    mi,
                    (Market {
                        id: m.id,
                        creator_id: m.creator_id,
                        name: m.name,
                        created_at: m.created_at,
                        closed: true,
                        yes_pool: m.yes_pool,
                        no_pool: m.no_pool,
                    }),
                )
                &&& final(self).accounts == old(self).accounts
                &&& final(self).positions == old(self).positions
                &&& final(self).log@ =~= old(self).log@.push(
                    (LogEntry { at: now, event: LogEvent::MarketClosed { market_id: *market_id } }),
                )
            })),
    {
        let mi = match find_market(&self.markets, market_id) {
            Some(i) => i,
            None => {
                return Err(BetError::NotFound);
            },
        };
        proof {
            lemma_market_at_is(self.markets@, market_id@, mi as int);
        }
        if !(self.markets[mi].creator_id == *user_id) {
            return Err(BetError::NotFound);
        }
        let ghost pre = *self;
        self.markets[mi].closed = true;
        self.log.push(
            LogEntry { at: now, event: LogEvent::MarketClosed { market_id: market_id.clone() } },
        );
        proof {
            lemma_markets_rewrite_keeps_ids(pre.markets@, self.markets@);
            assert(self.wf());
        }
        Ok(())
    }

    /// Credit every account with [`GRANT_MONEY`] — if the caller is
    /// the first account named after the site's patron. Anyone else's
    /// call quietly does nothing.
    #[verifier::loop_isolation(false)]
    pub fn give_money(&mut self, now: u64, caller_id: &String) -> (r: Result<(), BetError>)
        requires
            old(self).wf(),
            some_admin(old(self).accounts@),
        ensures
            final(self).wf(),
            ({
                let pre = *old(self);
                let post = *final(self);
                forall|ji: int|
                    is_first_admin(pre.accounts@, ji) ==> ({
                        if pre.accounts@[ji].id@ != caller_id@ {
                            r is Ok && post == pre
                        } else if exists|i: int|
                            0 <= i < pre.accounts@.len() && (#[trigger] pre.accounts@[i]).balance
                                + GRANT_MONEY > MONEY_MAX {
                            r == Err::<(), BetError>(BetError::Overflow) && post == pre
                        } else {
                            &&& r is Ok
                            &&& post.accounts@.len() == pre.accounts@.len()
                            &&& forall|i: int|
                                0 <= i < pre.accounts@.len() ==> #[trigger] post.accounts@[i] == (
                                Account {
                                    id: pre.accounts@[i].id,
                                    name: pre.accounts@[i].name,
                                    balance: (pre.accounts@[i].balance + GRANT_MONEY) as u64,
                                })
                            &&& post.markets == pre.markets
                            &&& post.positions == pre.positions
                            &&& post.log@ =~= pre.log@.push(
                                (LogEntry {
                                    at: now,
                                    event: LogEvent::MoneyGranted { amount: GRANT_MONEY },
                                }),
                            )
                        }
                    })
            }),
    {
        let ji = match find_first_admin(&self.accounts) {
            Some(i) => i,
            None => {
                // Unreachable under the precondition that a patron
                // account exists; the answer for an unverified caller
                // who breaks it.
                proof {
                    assert(false);
                }
                return Err(BetError::NotFound);
            },
        };
        if !(self.accounts[ji].id == *caller_id) {
            return Ok(());
        }
        let mut i: usize = 0;
        while i < self.accounts.len()
            invariant
                i <= self.accounts@.len(),
                forall|k: int|
                    0 <= k < i ==> (#[trigger] self.accounts@[k]).balance + GRANT_MONEY
                        <= MONEY_MAX,
                forall|k: int|
                    0 <= k < self.accounts@.len() ==> (#[trigger] self.accounts@[k]).balance
                        <= MONEY_MAX,
            decreases self.accounts@.len() - i,
        {
            if self.accounts[i].balance > MONEY_MAX - GRANT_MONEY {
                return Err(BetError::Overflow);
            }
            i = i + 1;
        }
        let ghost pre = *self;
        let mut j: usize = 0;
        while j < self.accounts.len()
            invariant
                j <= self.accounts@.len(),
                self.accounts@.len() == pre.accounts@.len(),
                self.markets == pre.markets,
                self.positions == pre.positions,
                self.log == pre.log,
                forall|k: int|
                    0 <= k < pre.accounts@.len() ==> (#[trigger] pre.accounts@[k]).balance
                        + GRANT_MONEY <= MONEY_MAX,
                forall|k: int|
                    j <= k < pre.accounts@.len() ==> #[trigger] self.accounts@[k]
                        == pre.accounts@[k],
                forall|k: int|
                    0 <= k < j ==> #[trigger] self.accounts@[k] == (Account {
                        id: pre.accounts@[k].id,
                        name: pre.accounts@[k].name,
                        balance: (pre.accounts@[k].balance + GRANT_MONEY) as u64,
                    }),
            decreases self.accounts@.len() - j,
        {
            let b: u64 = self.accounts[j].balance;
            self.accounts[j].balance = b + GRANT_MONEY;
            j = j + 1;
        }
        self.log.push(LogEntry { at: now, event: LogEvent::MoneyGranted { amount: GRANT_MONEY } });
        proof {
            lemma_accounts_rewrite_keeps_ids(pre.accounts@, self.accounts@);
            assert(self.wf());
        }
        Ok(())
    }
}

/// Some account is named after the site's patron, who may grant money.
pub open spec fn some_admin(s: Seq<Account>) -> bool {
    exists|i: int| 0 <= i < s.len() && s[i].name@ == "Jefferson"@
}

/// `i` is the first account named after the site's patron.
pub open spec fn is_first_admin(s: Seq<Account>, i: int) -> bool {
    &&& 0 <= i < s.len()
    &&& s[i].name@ == "Jefferson"@
    &&& forall|k: int| 0 <= k < i ==> s[k].name@ != "Jefferson"@
}

/// The index of the first account named after the site's patron.
fn find_first_admin(accounts: &Vec<Account>) -> (r: Option<usize>)
    ensures
        (r matches Some(i) ==> is_first_admin(accounts@, i as int)),
        (r is None ==> !some_admin(accounts@)),
{
    let admin_name: String = String::from_str("Jefferson");
    let mut i: usize = 0;
    while i < accounts.len()
        invariant
            i <= accounts@.len(),
            admin_name@ == "Jefferson"@,
            forall|j: int| 0 <= j < i ==> accounts@[j].name@ != "Jefferson"@,
        decreases accounts@.len() - i,
    {
        if accounts[i].name == admin_name {
            return Some(i);
        }
        i = i + 1;
    }
    None
}

} // verus!
