//! The pricing engine: the cost of buying shares from an automated
//! market maker with a conserved-value curve.
//!
//! Buying `n` shares of one side at cost `x` (both pools, the cost and
//! the share payout all in cents) must satisfy the quadratic
//!
//! ```text
//! x^2 + (yes_pool + no_pool - 100*n) * x - 100 * n * opposite_pool == 0
//! ```
//!
//! The cost is the positive root, rounded up to the whole cent so that
//! rounding can never work in the buyer's favour. [`quote`] computes it
//! exactly in integer arithmetic.

use vstd::prelude::*;

use crate::model::BetError;
use crate::model::MONEY_MAX;
use crate::model::SHARES_MAX;
use crate::model::YesOrNo;

verus! {

/// The pool of the side being bought.
pub open spec fn own_pool(side: YesOrNo, yes_pool: int, no_pool: int) -> int {
    match side {
        YesOrNo::Yes => yes_pool,
        YesOrNo::No => no_pool,
    }
}

/// The pool of the side opposite to the one being bought.
pub open spec fn opposite_pool(side: YesOrNo, yes_pool: int, no_pool: int) -> int {
    match side {
        YesOrNo::Yes => no_pool,
        YesOrNo::No => yes_pool,
    }
}

/// The linear coefficient of the pricing quadratic, in cents.
pub open spec fn quad_b(n: int, yes_pool: int, no_pool: int) -> int {
    yes_pool + no_pool - 100 * n
}

/// The discriminant of the pricing quadratic: `b^2 - 4ac` with `a == 1`
/// and `c == -100 * n * opp`.
pub open spec fn quad_disc(n: int, yes_pool: int, no_pool: int, opp: int) -> int {
    quad_b(n, yes_pool, no_pool) * quad_b(n, yes_pool, no_pool) + 400 * n * opp
}

/// `x` lies at or above the positive root `(-b + sqrt(disc)) / 2` of
/// the pricing quadratic.
pub open spec fn at_least_root(n: int, yes_pool: int, no_pool: int, opp: int, x: int) -> bool {
    let b = quad_b(n, yes_pool, no_pool);
    &&& 2 * x + b >= 0
    &&& (2 * x + b) * (2 * x + b) >= quad_disc(n, yes_pool, no_pool, opp)
}

/// `x` is the positive root of the pricing quadratic rounded up to the
/// next whole cent: the least integer at or above the root.
pub open spec fn is_quote_cost(n: int, yes_pool: int, no_pool: int, opp: int, x: int) -> bool {
    &&& at_least_root(n, yes_pool, no_pool, opp, x)
    &&& !at_least_root(n, yes_pool, no_pool, opp, x - 1)
}

/// The cost, in cents, of buying `n` shares against the given pools:
/// the unique integer satisfying [`is_quote_cost`].
pub open spec fn quote_cost(n: int, yes_pool: int, no_pool: int, opp: int) -> int {
    choose|x: int| is_quote_cost(n, yes_pool, no_pool, opp, x)
}

/// Squaring is monotone over the non-negative integers.
proof fn lemma_square_monotone(a: int, b: int)
    by (nonlinear_arith)
    requires
        0 <= a <= b,
    ensures
        a * a <= b * b,
{
}

/// Anything at or above a point at or above the root is itself at or
/// above the root.
proof fn lemma_at_least_root_monotone(n: int, yes_pool: int, no_pool: int, opp: int, x: int, z: int)
    requires
        at_least_root(n, yes_pool, no_pool, opp, x),
        x <= z,
    ensures
        at_least_root(n, yes_pool, no_pool, opp, z),
{
    let b = quad_b(n, yes_pool, no_pool);
    lemma_square_monotone(2 * x + b, 2 * z + b);
}

/// The discriminant of the pricing quadratic is never negative: with a
/// non-negative share count and a non-negative opposite pool there is
/// always a real-valued price.
pub proof fn lemma_disc_nonneg(n: int, yes_pool: int, no_pool: int, opp: int)
    by (nonlinear_arith)
    requires
        n >= 0,
        opp >= 0,
    ensures
        quad_disc(n, yes_pool, no_pool, opp) >= 0,
{
}

/// The rounded-up root is unique.
pub proof fn lemma_cost_unique(n: int, yes_pool: int, no_pool: int, opp: int, c1: int, c2: int)
    requires
        is_quote_cost(n, yes_pool, no_pool, opp, c1),
        is_quote_cost(n, yes_pool, no_pool, opp, c2),
    ensures
        c1 == c2,
{
    if c1 < c2 {
        lemma_at_least_root_monotone(n, yes_pool, no_pool, opp, c1, c2 - 1);
    }
    if c2 < c1 {
        lemma_at_least_root_monotone(n, yes_pool, no_pool, opp, c2, c1 - 1);
    }
}

/// A cost satisfying [`is_quote_cost`] is what [`quote_cost`] denotes.
pub proof fn lemma_quote_cost_is(n: int, yes_pool: int, no_pool: int, opp: int, c: int)
    requires
        is_quote_cost(n, yes_pool, no_pool, opp, c),
    ensures
        quote_cost(n, yes_pool, no_pool, opp) == c,
{
    let cc = choose|x: int| is_quote_cost(n, yes_pool, no_pool, opp, x);
    lemma_cost_unique(n, yes_pool, no_pool, opp, cc, c);
}

/// The cost of a real trade is at least one cent, and it replenishes
/// the traded side's pool past the shares it hands out: both pools
/// stay positive after the trade rebalances them.
pub proof fn lemma_cost_bounds(n: int, yes_pool: int, no_pool: int, side: YesOrNo, c: int)
    requires
        n >= 1,
        yes_pool >= 1,
        no_pool >= 1,
        is_quote_cost(n, yes_pool, no_pool, opposite_pool(side, yes_pool, no_pool), c),
    ensures
        c >= 1,
        own_pool(side, yes_pool, no_pool) + c - 100 * n >= 1,
{
    let own = own_pool(side, yes_pool, no_pool);
    let opp = opposite_pool(side, yes_pool, no_pool);
    let b = quad_b(n, yes_pool, no_pool);
    let d = quad_disc(n, yes_pool, no_pool, opp);
    assert(own + opp == yes_pool + no_pool);
    assert(2 * c + b >= 0);
    assert((2 * c + b) * (2 * c + b) >= d);

    // c >= 1: the root is strictly positive, so no x <= 0 reaches it.
    assert(c >= 1) by (nonlinear_arith)
        requires
            n >= 1,
            opp >= 1,
            2 * c + b >= 0,
            (2 * c + b) * (2 * c + b) >= d,
            d == b * b + 400 * n * opp,
        ;

    // own + c - 100*n >= 1: squares compare as (2c+b)^2 >= d
    // and d - (100*n - own + opp)^2 == 4 * own * opp > 0.
    let m = 100 * n - own + opp;
    assert(d - m * m == 4 * own * opp) by (nonlinear_arith)
        requires
            d == b * b + 400 * n * opp,
            b == own + opp - 100 * n,
            m == 100 * n - own + opp,
        ;
    assert(own + c - 100 * n >= 1) by (nonlinear_arith)
        requires
            own >= 1,
            opp >= 1,
            2 * c + b >= 0,
            (2 * c + b) * (2 * c + b) >= d,
            d - m * m == 4 * own * opp,
            b == own + opp - 100 * n,
            m == 100 * n - own + opp,
        ;
}

/// The quoted cost, read against the curve itself: `c` is a whole
/// number of cents on or past the conserved-value equation
/// `x^2 + (yes_pool + no_pool - 100*n)*x - 100*n*opp == 0`, while
/// `c - 1` still falls short of it — the positive root rounded up,
/// never down.
pub proof fn lemma_cost_meets_curve(n: int, yes_pool: int, no_pool: int, opp: int, c: int)
    requires
        n >= 1,
        opp >= 1,
        is_quote_cost(n, yes_pool, no_pool, opp, c),
    ensures
        c * c + quad_b(n, yes_pool, no_pool) * c - 100 * n * opp >= 0,
        2 * (c - 1) + quad_b(n, yes_pool, no_pool) >= 0 ==> (c - 1) * (c - 1) + quad_b(
            n,
            yes_pool,
            no_pool,
        ) * (c - 1) - 100 * n * opp < 0,
{
    let b = quad_b(n, yes_pool, no_pool);
    let d = quad_disc(n, yes_pool, no_pool, opp);
    assert(c * c + b * c - 100 * n * opp >= 0) by (nonlinear_arith)
        requires
            2 * c + b >= 0,
            (2 * c + b) * (2 * c + b) >= d,
            d == b * b + 400 * n * opp,
        ;
    if 2 * (c - 1) + b >= 0 {
        assert((c - 1) * (c - 1) + b * (c - 1) - 100 * n * opp < 0) by (nonlinear_arith)
            requires
                2 * (c - 1) + b >= 0,
                (2 * (c - 1) + b) * (2 * (c - 1) + b) < d,
                d == b * b + 400 * n * opp,
            ;
    }
}

/// Floor of the square root, by binary search on a 128-bit radicand.
fn isqrt_u128(d: u128) -> (s: u128)
    ensures
        s * s <= d,
        (s + 1) * (s + 1) > d,
{
    let mut lo: u128 = 0;
    let mut hi: u128 = 1u128 << 64;
    proof {
        assert((1u128 << 64) == 0x1_0000_0000_0000_0000u128) by (bit_vector);
        assert(0x1_0000_0000_0000_0000i128 * 0x1_0000_0000_0000_0000i128 > d) by (nonlinear_arith)
            requires
                d <= u128::MAX,
            ;
    }
    while lo + 1 < hi
        invariant
            lo < hi <= 0x1_0000_0000_0000_0000u128,
            lo * lo <= d,
            hi * hi > d,
        decreases hi - lo,
    {
        let mid: u128 = lo + (hi - lo) / 2;
        proof {
            assert(mid * mid <= u128::MAX) by (nonlinear_arith)
                requires
                    mid < 0x1_0000_0000_0000_0000u128,
                ;
        }
        if mid * mid <= d {
            lo = mid;
        } else {
            hi = mid;
        }
    }
    lo
}

/// The cost, in cents, of buying `requested_shares` shares of `side`
/// against the given pools, as the AMM curve prices it: the positive
/// root of the pricing quadratic, rounded up to the next cent.
///
/// Fails with `InvalidQuote` exactly when the discriminant of the
/// quadratic is negative — which, by [`lemma_disc_nonneg`], never
/// happens for the positive pools every live market has.
pub fn quote(requested_shares: u64, side: YesOrNo, yes_pool: u64, no_pool: u64) -> (r: Result<
    u64,
    BetError,
>)
    requires
        1 <= requested_shares <= SHARES_MAX,
        1 <= yes_pool <= MONEY_MAX,
        1 <= no_pool <= MONEY_MAX,
    ensures
        ({
            let n = requested_shares as int;
            let y = yes_pool as int;
            let np = no_pool as int;
            let opp = opposite_pool(side, y, np);
            &&& (r is Err) <==> quad_disc(n, y, np, opp) < 0
            &&& (r matches Err(e) ==> e == BetError::InvalidQuote)
            &&& (r matches Ok(c) ==> is_quote_cost(n, y, np, opp, c as int) && 1 <= c <= 2
                * MONEY_MAX + 1)
        }),
{
    let ghost gn = requested_shares as int;
    let ghost gy = yes_pool as int;
    let ghost gnp = no_pool as int;
    let opp: u64 = match side {
        YesOrNo::Yes => no_pool,
        YesOrNo::No => yes_pool,
    };
    let b: i128 = yes_pool as i128 + no_pool as i128 - 100i128 * (requested_shares as i128);
    assert(b == quad_b(gn, gy, gnp));
    proof {
        assert(0 <= b * b <= 40_000_000_000_000_000_000_000_000_000_000_000i128) by (nonlinear_arith)
            requires
                -100_000_000_000_000_000i128 <= b <= 200_000_000_000_000_000i128,
            ;
        assert(400i128 * (requested_shares as i128) * (opp as i128)
            <= 40_000_000_000_000_000_000_000_000_000_000_000i128 && 400i128 * (
        requested_shares as i128) * (opp as i128) >= 0) by (nonlinear_arith)
            requires
                1 <= requested_shares as i128 <= 1_000_000_000_000_000i128,
                1 <= opp as i128 <= 100_000_000_000_000_000i128,
            ;
    }
    let disc: i128 = b * b + 400i128 * (requested_shares as i128) * (opp as i128);
    assert(disc == quad_disc(gn, gy, gnp, opp as int));
    if disc < 0 {
        // Unreachable for positive pools (lemma_disc_nonneg), kept as
        // the engine's answer should the curve ever lose its footing.
        Err(BetError::InvalidQuote)
    } else {
        proof {
            lemma_disc_nonneg(gn, gy, gnp, opp as int);
        }
        let d: u128 = disc as u128;
        let s: u128 = isqrt_u128(d);
        proof {
            // s is small enough that every later step fits.
            assert(s <= 300_000_000_000_000_000u128) by (nonlinear_arith)
                requires
                    s * s <= d,
                    d <= 80_000_000_000_000_000_000_000_000_000_000_000u128,
                ;
            // b <= s: b*b <= disc < (s+1)^2, so b < s + 1.
            assert(b <= s) by (nonlinear_arith)
                requires
                    b * b <= d,
                    (s + 1) * (s + 1) > d,
                    s >= 0,
                ;
        }
        let t: u128 = ((s as i128) - b) as u128;
        let perfect: bool = s * s == d;
        let k: u128 = if perfect {
            1
        } else {
            2
        };
        let c128: u128 = (t + k) / 2;
        proof {
            let cg = c128 as int;
            let sg = s as int;
            let bg = b as int;
            let dg = d as int;
            let rem = ((t + k) % 2) as int;
            assert(2 * cg == sg - bg + k - rem);
            let e = 2 * cg + bg;
            // e is s or s+1 when d is a perfect square, s+1 or s+2 otherwise.
            if perfect {
                assert(e == sg + 1 - rem);
                assert(e * e >= dg) by (nonlinear_arith)
                    requires
                        e >= sg >= 0,
                        sg * sg == dg,
                    ;
                if e - 2 >= 0 {
                    assert((e - 2) * (e - 2) < dg) by (nonlinear_arith)
                        requires
                            0 <= e - 2 <= sg - 1,
                            sg * sg == dg,
                        ;
                }
            } else {
                assert(e == sg + 2 - rem);
                assert(e * e >= dg) by (nonlinear_arith)
                    requires
                        e >= sg + 1,
                        sg >= 0,
                        (sg + 1) * (sg + 1) > dg,
                        sg * sg <= dg,
                    ;
                if e - 2 >= 0 {
                    assert((e - 2) * (e - 2) < dg) by (nonlinear_arith)
                        requires
                            0 <= e - 2 <= sg,
                            sg * sg < dg,
                        ;
                }
            }
            assert(at_least_root(gn, gy, gnp, opp as int, cg));
            assert(!at_least_root(gn, gy, gnp, opp as int, cg - 1));
            lemma_cost_bounds(gn, gy, gnp, side, cg);
        }
        Ok(c128 as u64)
    }
}

} // verus!
