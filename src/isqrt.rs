use vstd::prelude::*;

verus! {

/// The floor of the square root of `n`.
pub open spec fn isqrt(n: nat) -> nat
    decreases n,
{
    if n == 0 {
        0
    } else {
        let r = isqrt((n - 1) as nat);
        if (r + 1) * (r + 1) <= n {
            r + 1
        } else {
            r
        }
    }
}

/// `r` is the floor of the square root of `n`.
pub open spec fn is_floor_sqrt(n: int, r: int) -> bool {
    0 <= r && r * r <= n < (r + 1) * (r + 1)
}

proof fn lemma_square_le(a: int, b: int)
    requires
        0 <= a <= b,
    ensures
        a * a <= b * b,
{
    assert(a * a <= b * b) by (nonlinear_arith)
        requires
            0 <= a <= b,
    ;
}

/// `isqrt` is the floor of the square root.
pub proof fn lemma_isqrt_bounds(n: nat)
    ensures
        is_floor_sqrt(n as int, isqrt(n) as int),
    decreases n,
{
    if n > 0 {
        lemma_isqrt_bounds((n - 1) as nat);
        let r = isqrt((n - 1) as nat) as int;
        if (r + 1) * (r + 1) <= n {
            // (r + 1)^2 <= n, and n <= r^2 + 2r + 1 < (r + 2)^2
            assert((r + 1) * (r + 1) == r * r + 2 * r + 1) by (nonlinear_arith);
            assert((r + 2) * (r + 2) == r * r + 4 * r + 4) by (nonlinear_arith);
        }
    }
}

/// The floor of the square root is unique.
pub proof fn lemma_floor_sqrt_unique(n: int, r: int, s: int)
    requires
        is_floor_sqrt(n, r),
        is_floor_sqrt(n, s),
    ensures
        r == s,
{
    if r < s {
        lemma_square_le(r + 1, s);
    } else if s < r {
        lemma_square_le(s + 1, r);
    }
}

/// The floor of the square root is monotone.
pub proof fn lemma_isqrt_monotone(a: nat, b: nat)
    requires
        a <= b,
    ensures
        isqrt(a) <= isqrt(b),
{
    lemma_isqrt_bounds(a);
    lemma_isqrt_bounds(b);
    if isqrt(a) > isqrt(b) {
        lemma_square_le(isqrt(b) as int + 1, isqrt(a) as int);
    }
}

/// Largest argument accepted by `floor_sqrt`.
pub const SQRT_ARG_LIMIT: u128 = 85070591730234615865843651857942052864;

/// Computes the floor of the square root of `n` by bisection.
pub fn floor_sqrt(n: u128) -> (r: u128)
    requires
        n < SQRT_ARG_LIMIT,
    ensures
        r == isqrt(n as nat),
        r < 9223372036854775808,
{
    let mut lo: u128 = 0;
    let mut hi: u128 = 9223372036854775808;
    assert(hi * hi == SQRT_ARG_LIMIT);
    while hi - lo > 1
        invariant
            lo < hi <= 9223372036854775808,
            lo * lo <= n,
            n < hi * hi,
        decreases hi - lo,
    {
        let mid: u128 = lo + (hi - lo) / 2;
        assert(lo < mid < hi);
        proof {
            lemma_square_le(mid as int, 9223372036854775808);
        }
        if mid * mid <= n {
            lo = mid;
        } else {
            hi = mid;
        }
    }
    proof {
        lemma_isqrt_bounds(n as nat);
        assert(hi == lo + 1);
        lemma_floor_sqrt_unique(n as int, lo as int, isqrt(n as nat) as int);
    }
    lo
}

} // verus!
