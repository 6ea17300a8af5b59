use betting_engine::model::BetError;
use betting_engine::model::SHARES_MAX;
use betting_engine::model::YesOrNo;
use betting_engine::pricing::quote;

// The worked example: pools of $100/$100, 50 yes shares.
// x^2 + 150x - 5000 = 0 (in dollars) has the positive root
// (-150 + sqrt(42500)) / 2 = 28.0776..., which rounds up to $28.08.
#[test]
fn quote_worked_example() {
    let r = quote(50, YesOrNo::Yes, 10_000, 10_000);
    assert_eq!(r, Ok(2_808));
}

// Symmetric pools price both sides the same.
#[test]
fn quote_symmetric_sides() {
    let yes = quote(50, YesOrNo::Yes, 10_000, 10_000).unwrap();
    let no = quote(50, YesOrNo::No, 10_000, 10_000).unwrap();
    assert_eq!(yes, no);
}

// One share against $20/$20 pools: root 50.62... cents, rounded up to 51.
#[test]
fn quote_single_share() {
    assert_eq!(quote(1, YesOrNo::Yes, 2_000, 2_000), Ok(51));
}

// Buying the no side prices against the yes pool: 10 no shares on
// $50/$80 pools cost 403.12... cents, rounded up to 404.
#[test]
fn quote_no_side_uses_yes_pool() {
    assert_eq!(quote(10, YesOrNo::No, 5_000, 8_000), Ok(404));
}

// A case where the root is a whole number of cents: 3 shares on
// pools of 200 cents each gives discriminant 250000 = 500^2 and the
// exact root 200; no rounding happens.
#[test]
fn quote_exact_root_not_rounded() {
    assert_eq!(quote(3, YesOrNo::Yes, 200, 200), Ok(200));
}

// The cost is always at least one cent, even for a tiny trade
// against deep pools.
#[test]
fn quote_cost_is_positive() {
    let c = quote(1, YesOrNo::Yes, 100_000_000, 100_000_000).unwrap();
    assert!(c >= 1);
}

// The discriminant b^2 - 4ac with a = 1 and c = -n * opposite_pool
// is never negative while the pools are positive, so even a demand
// vastly deeper than the pools is priced rather than rejected.
#[test]
fn quote_extreme_demand_is_still_priced() {
    let r = quote(SHARES_MAX, YesOrNo::Yes, 1, 1);
    assert!(r.is_ok());
    assert!(r.unwrap() >= 1);
    assert_ne!(r, Err(BetError::InvalidQuote));
}

// Larger trades cost more against the same pools.
#[test]
fn quote_monotone_in_shares() {
    let small = quote(10, YesOrNo::Yes, 10_000, 10_000).unwrap();
    let big = quote(100, YesOrNo::Yes, 10_000, 10_000).unwrap();
    assert!(small < big);
}
