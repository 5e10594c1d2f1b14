use vstd::prelude::*;

use crate::isqrt::{isqrt, lemma_floor_sqrt_unique, lemma_isqrt_bounds};

verus! {

/// 2^64.
pub const LIMB: u128 = 18446744073709551616;

/// Largest value that `square_wide` accepts: 2^104.
pub const WIDE_ARG_LIMIT: u128 = 20282409603651670423947251286016;

/// Largest value (exclusive) that `floor_hypot` accepts for each side: 2^101.
pub const HYPOT_ARG_LIMIT: u128 = 2535301200456458802993406410752;

/// Bound (exclusive) on the result of `floor_hypot`: 2^102.
pub const HYPOT_BOUND: u128 = 5070602400912917605986812821504;

/// The value of a two-word number: `hi * 2^128 + lo`.
pub open spec fn wide(hi: u128, lo: u128) -> int {
    hi * 340282366920938463463374607431768211456int + lo
}

/// The square of `x`, as two words.
pub fn square_wide(x: u128) -> (r: (u128, u128))
    requires
        x < WIDE_ARG_LIMIT,
    ensures
        wide(r.0, r.1) == x * x,
        r.0 < 1099511627776 * 1099511627776 * 2,
{
    let x1 = x / LIMB;
    let x0 = x % LIMB;
    assert(x1 < 1099511627776);
    assert(x1 * x1 < 1099511627776 * 1099511627776) by (nonlinear_arith)
        requires
            0 <= x1 < 1099511627776,
    ;
    assert(2 * x1 * x0 < 2 * 1099511627776 * LIMB) by (nonlinear_arith)
        requires
            0 <= x1 < 1099511627776,
            0 <= x0 < LIMB,
    ;
    let a = x1 * x1;
    let b2 = 2 * x1 * x0;
    assert(x0 * x0 <= (LIMB - 1) * (LIMB - 1)) by (nonlinear_arith)
        requires
            0 <= x0 < LIMB,
    ;
    let c = x0 * x0;
    assert(x * x == a * 340282366920938463463374607431768211456int + b2 * LIMB + c)
        by (nonlinear_arith)
        requires
            x == x1 * LIMB + x0,
            a == x1 * x1,
            b2 == 2 * x1 * x0,
            c == x0 * x0,
            LIMB == 18446744073709551616,
    ;
    let b_hi = b2 / LIMB;
    let b_lo = b2 % LIMB;
    let t = b_lo * LIMB;
    assert(b_lo * LIMB <= (LIMB - 1) * LIMB) by (nonlinear_arith)
        requires
            0 <= b_lo < LIMB,
    ;
    assert(b2 * LIMB == b_hi * 340282366920938463463374607431768211456int + t)
        by (nonlinear_arith)
        requires
            b2 == b_hi * LIMB + b_lo,
            t == b_lo * LIMB,
            LIMB == 18446744073709551616,
    ;
    if c <= u128::MAX - t {
        (a + b_hi, c + t)
    } else {
        (a + b_hi + 1, c - (u128::MAX - t) - 1)
    }
}

/// The sum of two two-word numbers.
pub fn add_wide(x: (u128, u128), y: (u128, u128)) -> (r: (u128, u128))
    requires
        x.0 + y.0 < u128::MAX,
    ensures
        wide(r.0, r.1) == wide(x.0, x.1) + wide(y.0, y.1),
        r.0 <= x.0 + y.0 + 1,
{
    if x.1 <= u128::MAX - y.1 {
        (x.0 + y.0, x.1 + y.1)
    } else {
        (x.0 + y.0 + 1, x.1 - (u128::MAX - y.1) - 1)
    }
}

/// Compares two two-word numbers.
pub fn le_wide(x: (u128, u128), y: (u128, u128)) -> (r: bool)
    ensures
        r == (wide(x.0, x.1) <= wide(y.0, y.1)),
{
    x.0 < y.0 || (x.0 == y.0 && x.1 <= y.1)
}

/// The floor of the square root of `p^2 + q^2`.
pub fn floor_hypot(p: u128, q: u128) -> (r: u128)
    requires
        p < HYPOT_ARG_LIMIT,
        q < HYPOT_ARG_LIMIT,
    ensures
        r == isqrt((p * p + q * q) as nat),
        r < HYPOT_BOUND,
{
    let ghost n: int = p * p + q * q;
    let pp = square_wide(p);
    let qq = square_wide(q);
    let nn = add_wide(pp, qq);
    let mut lo: u128 = 0;
    let mut hi: u128 = HYPOT_BOUND;
    assert(p * p + q * q < hi * hi) by (nonlinear_arith)
        requires
            0 <= p < HYPOT_ARG_LIMIT,
            0 <= q < HYPOT_ARG_LIMIT,
            hi == 2 * HYPOT_ARG_LIMIT,
    ;
    while hi - lo > 1
        invariant
            lo < hi <= HYPOT_BOUND,
            lo * lo <= n,
            n < hi * hi,
            wide(nn.0, nn.1) == n,
        decreases hi - lo,
    {
        let mid: u128 = lo + (hi - lo) / 2;
        let mm = square_wide(mid);
        if le_wide(mm, nn) {
            lo = mid;
        } else {
            hi = mid;
        }
    }
    proof {
        assert(n >= 0) by (nonlinear_arith)
            requires
                n == p * p + q * q,
        ;
        lemma_isqrt_bounds(n as nat);
        lemma_floor_sqrt_unique(n, lo as int, isqrt(n as nat) as int);
    }
    lo
}

} // verus!
