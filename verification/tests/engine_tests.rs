use betting_engine::engine::Engine;
use betting_engine::model::Account;
use betting_engine::model::BetError;
use betting_engine::model::LogEvent;
use betting_engine::model::Market;
use betting_engine::model::Position;
use betting_engine::model::GRANT_MONEY;
use betting_engine::model::MONEY_MAX;
use betting_engine::model::SHARES_MAX;
use betting_engine::model::YesOrNo;
use betting_engine::model::YesOrNoOrNA;

const NOW: u64 = 1_700_000_000;

fn engine_with(users: &[(&str, &str, u64)]) -> Engine {
    let mut e = Engine::new();
    for (id, name, balance) in users {
        e.add_account(id.to_string(), name.to_string(), *balance).unwrap();
    }
    e
}

fn snapshot(e: &Engine) -> (Vec<Account>, Vec<Market>, Vec<Position>) {
    (e.list_accounts().clone(), e.list_markets().clone(), e.list_positions().clone())
}

#[test]
fn add_account_rejects_duplicate_id() {
    let mut e = engine_with(&[("u1", "Ada", 5_000)]);
    let r = e.add_account("u1".to_string(), "Other".to_string(), 1);
    assert_eq!(r, Err(BetError::IdCollision));
    assert_eq!(e.list_accounts().len(), 1);
}

#[test]
fn add_account_rejects_out_of_range_balance() {
    let mut e = Engine::new();
    let r = e.add_account("u1".to_string(), "Ada".to_string(), MONEY_MAX + 1);
    assert_eq!(r, Err(BetError::Overflow));
    assert!(e.list_accounts().is_empty());
}

#[test]
fn create_market_below_floor_is_rejected_without_mutation() {
    let mut e = engine_with(&[("u1", "Ada", 5_000)]);
    let before = snapshot(&e);
    let r = e.create_market(NOW, &"u1".to_string(), "rain tomorrow".to_string(), 1_999);
    assert_eq!(r, Err(BetError::InvalidAmount));
    assert_eq!(snapshot(&e), before);
    assert!(e.list_log().is_empty());
}

#[test]
fn create_market_at_floor_succeeds_with_equal_pools() {
    let mut e = engine_with(&[("u1", "Ada", 2_000)]);
    let id = e.create_market(NOW, &"u1".to_string(), "rain tomorrow".to_string(), 2_000).unwrap();
    assert_eq!(id.len(), 36);
    let m = e.get_market(&id).unwrap();
    assert_eq!(m.yes_pool, 2_000);
    assert_eq!(m.no_pool, 2_000);
    assert_eq!(m.creator_id, "u1");
    assert_eq!(m.created_at, NOW);
    assert!(!m.closed);
    assert_eq!(e.get_account(&"u1".to_string()).unwrap().balance, 0);
    // The creator's liquidity is recorded as two zero-share positions
    // whose cost bases sum to the whole contribution.
    let py = e.get_position(&"u1".to_string(), &id, YesOrNo::Yes).unwrap();
    assert_eq!((py.shares, py.spent), (0, 1_000));
    let pn = e.get_position(&"u1".to_string(), &id, YesOrNo::No).unwrap();
    assert_eq!((pn.shares, pn.spent), (0, 1_000));
}

#[test]
fn create_market_needs_funds() {
    let mut e = engine_with(&[("u1", "Ada", 2_000)]);
    let r = e.create_market(NOW, &"u1".to_string(), "q".to_string(), 2_001);
    assert_eq!(r, Err(BetError::InsufficientFunds));
    let r2 = e.create_market(NOW, &"ghost".to_string(), "q".to_string(), 2_000);
    assert_eq!(r2, Err(BetError::NotFound));
}

#[test]
fn market_ids_are_distinct_uuids() {
    let mut e = engine_with(&[("u1", "Ada", 10_000)]);
    let a = e.create_market(NOW, &"u1".to_string(), "one".to_string(), 2_000).unwrap();
    let b = e.create_market(NOW, &"u1".to_string(), "two".to_string(), 2_000).unwrap();
    assert_eq!(a.len(), 36);
    assert_eq!(b.len(), 36);
    assert_ne!(a, b);
}

#[test]
fn reused_market_id_collides() {
    let mut e = engine_with(&[("u1", "Ada", 10_000)]);
    let r1 = e.create_market_with_id(NOW, "m1".to_string(), &"u1".to_string(), "one".to_string(), 2_000);
    assert_eq!(r1, Ok(()));
    let before = snapshot(&e);
    let r2 = e.create_market_with_id(NOW, "m1".to_string(), &"u1".to_string(), "two".to_string(), 2_000);
    assert_eq!(r2, Err(BetError::IdCollision));
    assert_eq!(snapshot(&e), before);
}

#[test]
fn trade_of_zero_shares_is_rejected_without_mutation() {
    let mut e = engine_with(&[("u1", "Ada", 20_000), ("u2", "Ben", 10_000)]);
    let id = e.create_market(NOW, &"u1".to_string(), "q".to_string(), 10_000).unwrap();
    let before = snapshot(&e);
    let r = e.trade(NOW, &"u2".to_string(), &id, YesOrNo::Yes, 0);
    assert_eq!(r, Err(BetError::InvalidAmount));
    assert_eq!(snapshot(&e), before);
}

#[test]
fn trade_without_funds_changes_nothing() {
    let mut e = engine_with(&[("u1", "Ada", 20_000), ("u2", "Ben", 2_807)]);
    let id = e.create_market(NOW, &"u1".to_string(), "q".to_string(), 10_000).unwrap();
    let before = snapshot(&e);
    // The quote for 50 yes shares is 2808 cents; Ben holds 2807.
    let r = e.trade(NOW, &"u2".to_string(), &id, YesOrNo::Yes, 50);
    assert_eq!(r, Err(BetError::InsufficientFunds));
    assert_eq!(snapshot(&e), before);
}

#[test]
fn trade_worked_example_updates_everything_exactly() {
    let mut e = engine_with(&[("u1", "Ada", 10_000), ("u2", "Ben", 10_000)]);
    let id = e.create_market(NOW, &"u1".to_string(), "q".to_string(), 10_000).unwrap();
    let cost = e.trade(NOW + 1, &"u2".to_string(), &id, YesOrNo::Yes, 50).unwrap();
    assert_eq!(cost, 2_808);
    assert_eq!(e.get_account(&"u2".to_string()).unwrap().balance, 10_000 - 2_808);
    let m = e.get_market(&id).unwrap();
    assert_eq!(m.yes_pool, 10_000 - 5_000 + 2_808); // 78.08 dollars
    assert_eq!(m.no_pool, 10_000 + 2_808); // 128.08 dollars
    let p = e.get_position(&"u2".to_string(), &id, YesOrNo::Yes).unwrap();
    assert_eq!((p.shares, p.spent), (50, 2_808));
}

#[test]
fn repeat_trades_accumulate_in_one_position() {
    let mut e = engine_with(&[("u1", "Ada", 20_000), ("u2", "Ben", 10_000)]);
    let id = e.create_market(NOW, &"u1".to_string(), "q".to_string(), 10_000).unwrap();
    let c1 = e.trade(NOW, &"u2".to_string(), &id, YesOrNo::Yes, 10).unwrap();
    let c2 = e.trade(NOW, &"u2".to_string(), &id, YesOrNo::Yes, 10).unwrap();
    let p = e.get_position(&"u2".to_string(), &id, YesOrNo::Yes).unwrap();
    assert_eq!((p.shares, p.spent), (20, c1 + c2));
    assert_eq!(e.list_positions().len(), 3); // the creator's two, Ben's one
}

#[test]
fn sequential_trades_price_against_updated_pools() {
    let mut e = engine_with(&[("u1", "Ada", 10_000), ("u2", "Ben", 10_000), ("u3", "Cal", 10_000)]);
    let id = e.create_market(NOW, &"u1".to_string(), "q".to_string(), 10_000).unwrap();
    let c1 = e.trade(NOW, &"u2".to_string(), &id, YesOrNo::Yes, 50).unwrap();
    assert_eq!(c1, 2_808);
    // The second buyer prices against the rebalanced pools
    // (7808/12808), not the stale ones: same request, higher cost.
    let c2 = e.trade(NOW, &"u3".to_string(), &id, YesOrNo::Yes, 50).unwrap();
    assert_eq!(c2, 3_373);
    // The conservation invariant holds after each commit.
    let m = e.get_market(&id).unwrap();
    assert!(m.yes_pool > 0 && m.no_pool > 0);
    assert_eq!(m.yes_pool, 7_808 - 5_000 + 3_373);
    assert_eq!(m.no_pool, 12_808 + 3_373);
}

#[test]
fn trade_on_missing_market_or_user_is_not_found() {
    let mut e = engine_with(&[("u1", "Ada", 20_000)]);
    let id = e.create_market(NOW, &"u1".to_string(), "q".to_string(), 10_000).unwrap();
    assert_eq!(
        e.trade(NOW, &"ghost".to_string(), &id, YesOrNo::Yes, 1),
        Err(BetError::NotFound)
    );
    assert_eq!(
        e.trade(NOW, &"u1".to_string(), &"no-such-market".to_string(), YesOrNo::Yes, 1),
        Err(BetError::NotFound)
    );
}

#[test]
fn oversized_share_count_is_rejected() {
    let mut e = engine_with(&[("u1", "Ada", 20_000)]);
    let id = e.create_market(NOW, &"u1".to_string(), "q".to_string(), 10_000).unwrap();
    let before = snapshot(&e);
    let r = e.trade(NOW, &"u1".to_string(), &id, YesOrNo::Yes, SHARES_MAX + 1);
    assert_eq!(r, Err(BetError::Overflow));
    assert_eq!(snapshot(&e), before);
}

#[test]
fn only_the_creator_may_close() {
    let mut e = engine_with(&[("u1", "Ada", 20_000), ("u2", "Ben", 10_000)]);
    let id = e.create_market(NOW, &"u1".to_string(), "q".to_string(), 10_000).unwrap();
    // A non-creator gets the same answer as for a missing market.
    assert_eq!(e.close(NOW, &"u2".to_string(), &id), Err(BetError::NotFound));
    assert_eq!(
        e.close(NOW, &"u1".to_string(), &"no-such-market".to_string()),
        Err(BetError::NotFound)
    );
    assert!(!e.get_market(&id).unwrap().closed);
    assert_eq!(e.close(NOW, &"u1".to_string(), &id), Ok(()));
    assert!(e.get_market(&id).unwrap().closed);
}

#[test]
fn trade_on_closed_market_fails() {
    let mut e = engine_with(&[("u1", "Ada", 20_000), ("u2", "Ben", 10_000)]);
    let id = e.create_market(NOW, &"u1".to_string(), "q".to_string(), 10_000).unwrap();
    e.close(NOW, &"u1".to_string(), &id).unwrap();
    let before = snapshot(&e);
    let r = e.trade(NOW, &"u2".to_string(), &id, YesOrNo::No, 5);
    assert_eq!(r, Err(BetError::MarketClosed));
    assert_eq!(snapshot(&e), before);
}

#[test]
fn resolve_yes_pays_pool_and_winning_shares() {
    let mut e = engine_with(&[("u1", "Ada", 10_000), ("u2", "Ben", 10_000)]);
    let id = e.create_market(NOW, &"u1".to_string(), "q".to_string(), 10_000).unwrap();
    e.trade(NOW, &"u2".to_string(), &id, YesOrNo::Yes, 50).unwrap();
    assert_eq!(e.resolve(NOW, &"u1".to_string(), &id, YesOrNoOrNA::Yes), Ok(()));
    // The creator takes the residual yes pool of 7808; the buyer's 50
    // shares pay one dollar each.
    assert_eq!(e.get_account(&"u1".to_string()).unwrap().balance, 7_808);
    assert_eq!(e.get_account(&"u2".to_string()).unwrap().balance, 10_000 - 2_808 + 5_000);
    // The market and every one of its positions are gone.
    assert!(e.get_market(&id).is_none());
    assert!(e.list_positions().is_empty());
}

#[test]
fn resolve_no_pays_the_other_side() {
    let mut e = engine_with(&[("u1", "Ada", 10_000), ("u2", "Ben", 10_000)]);
    let id = e.create_market(NOW, &"u1".to_string(), "q".to_string(), 10_000).unwrap();
    e.trade(NOW, &"u2".to_string(), &id, YesOrNo::Yes, 50).unwrap();
    assert_eq!(e.resolve(NOW, &"u1".to_string(), &id, YesOrNoOrNA::No), Ok(()));
    // The creator takes the no pool of 12808; the losing yes shares
    // pay nothing.
    assert_eq!(e.get_account(&"u1".to_string()).unwrap().balance, 12_808);
    assert_eq!(e.get_account(&"u2".to_string()).unwrap().balance, 10_000 - 2_808);
}

#[test]
fn resolve_na_refunds_every_cost_basis() {
    let mut e = engine_with(&[("u1", "Ada", 10_000), ("u2", "Ben", 10_000)]);
    let id = e.create_market(NOW, &"u1".to_string(), "q".to_string(), 10_000).unwrap();
    e.trade(NOW, &"u2".to_string(), &id, YesOrNo::Yes, 50).unwrap();
    let total_before: u64 = e.list_accounts().iter().map(|a| a.balance).sum();
    let total_spent: u64 = e
        .list_positions()
        .iter()
        .filter(|p| p.market_id == id)
        .map(|p| p.spent)
        .sum();
    assert_eq!(e.resolve(NOW, &"u1".to_string(), &id, YesOrNoOrNA::NA), Ok(()));
    // Exactly the sum of all cost bases comes back, fully unwinding
    // the market's monetary effect.
    let total_after: u64 = e.list_accounts().iter().map(|a| a.balance).sum();
    assert_eq!(total_after, total_before + total_spent);
    assert_eq!(e.get_account(&"u1".to_string()).unwrap().balance, 10_000);
    assert_eq!(e.get_account(&"u2".to_string()).unwrap().balance, 10_000);
    assert!(e.get_market(&id).is_none());
    assert!(e.list_positions().is_empty());
}

#[test]
fn only_the_creator_may_resolve() {
    let mut e = engine_with(&[("u1", "Ada", 10_000), ("u2", "Ben", 10_000)]);
    let id = e.create_market(NOW, &"u1".to_string(), "q".to_string(), 10_000).unwrap();
    let before = snapshot(&e);
    let r = e.resolve(NOW, &"u2".to_string(), &id, YesOrNoOrNA::Yes);
    assert_eq!(r, Err(BetError::NotFound));
    assert_eq!(snapshot(&e), before);
}

#[test]
fn grant_credits_everyone_when_the_patron_calls() {
    let mut e = engine_with(&[("j1", "Jefferson", 500), ("u2", "Ben", 700)]);
    assert_eq!(e.give_money(NOW, &"j1".to_string()), Ok(()));
    assert_eq!(e.get_account(&"j1".to_string()).unwrap().balance, 500 + GRANT_MONEY);
    assert_eq!(e.get_account(&"u2".to_string()).unwrap().balance, 700 + GRANT_MONEY);
    assert!(matches!(
        e.list_log().last().unwrap().event,
        LogEvent::MoneyGranted { amount: GRANT_MONEY }
    ));
}

#[test]
fn grant_by_anyone_else_does_nothing() {
    let mut e = engine_with(&[("j1", "Jefferson", 500), ("u2", "Ben", 700)]);
    let before = snapshot(&e);
    assert_eq!(e.give_money(NOW, &"u2".to_string()), Ok(()));
    assert_eq!(snapshot(&e), before);
    assert!(e.list_log().is_empty());
}

#[test]
fn log_records_every_state_change() {
    let mut e = engine_with(&[("u1", "Ada", 20_000), ("u2", "Ben", 10_000)]);
    let id = e.create_market(NOW, &"u1".to_string(), "q".to_string(), 10_000).unwrap();
    e.trade(NOW + 1, &"u2".to_string(), &id, YesOrNo::No, 5).unwrap();
    e.close(NOW + 2, &"u1".to_string(), &id).unwrap();
    e.resolve(NOW + 3, &"u1".to_string(), &id, YesOrNoOrNA::No).unwrap();
    let log = e.list_log();
    assert_eq!(log.len(), 4);
    assert!(matches!(&log[0].event, LogEvent::MarketCreated { starting_money: 10_000, .. }));
    assert!(matches!(
        &log[1].event,
        LogEvent::SharesBought { side: YesOrNo::No, shares: 5, .. }
    ));
    assert!(matches!(&log[2].event, LogEvent::MarketClosed { .. }));
    assert!(matches!(
        &log[3].event,
        LogEvent::MarketResolved { outcome: YesOrNoOrNA::No, .. }
    ));
    assert_eq!(log[3].at, NOW + 3);
}

#[test]
fn side_labels() {
    assert!(YesOrNo::Yes.is_yes());
    assert!(!YesOrNo::No.is_yes());
    assert_eq!(YesOrNo::Yes.text(), "yes");
    assert_eq!(YesOrNo::No.text(), "no");
    assert_eq!(YesOrNoOrNA::NA.text(), "N/A");
}
