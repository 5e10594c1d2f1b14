use vstd::prelude::*;

use vstd::arithmetic::div_mod::{lemma_div_by_multiple, lemma_div_is_ordered};
use vstd::arithmetic::mul::lemma_mul_inequality;

use crate::isqrt::{isqrt, lemma_floor_sqrt_unique, lemma_isqrt_bounds, lemma_isqrt_monotone};
use crate::wide::{floor_hypot, HYPOT_ARG_LIMIT};
use crate::options::SortOrder;
use crate::result::{all_wf, BenchmarkResult, MAX_MICROS, MAX_STDDEV_MICROS};

verus! {

/// Fixed-point scale of relative speeds: `SCALE` stands for 1.0.
pub const SCALE: u64 = 1000000;

/// One result annotated with its speed relative to the fastest result.
///
/// `relative_speed` and `relative_speed_stddev` are fixed-point values
/// in units of `1 / SCALE`, rounded down.
#[derive(Clone, Copy, Debug, PartialEq, Eq, Structural)]
pub struct AnnotatedResult {
    /// Position of the result in the compared sequence.
    pub index: usize,
    pub relative_speed: u64,
    pub relative_speed_stddev: Option<u128>,
    pub is_fastest: bool,
}

/// `num / den` in fixed point, rounded down.
pub open spec fn fixed_ratio(num: int, den: int) -> int {
    num * SCALE / den
}

/// Standard deviation of the ratio `m_r / m_f`, in fixed point and
/// rounded down: `SCALE * (m_r / m_f) * sqrt((s_r / m_r)^2 + (s_f / m_f)^2)`,
/// which is `sqrt((SCALE s_r m_f)^2 + (SCALE s_f m_r)^2) / m_f^2`.
pub open spec fn speed_stddev(s_r: int, m_r: int, s_f: int, m_f: int) -> int {
    let p = SCALE * s_r * m_f;
    let q = SCALE * s_f * m_r;
    let d = m_f * m_f;
    isqrt(((p * p + q * q) / (d * d)) as nat) as int
}

/// Index of the fastest of the first `n` results: the first one with the
/// minimum mean.
pub open spec fn fastest_upto(rs: Seq<BenchmarkResult>, n: int) -> int
    decreases n,
{
    if n <= 1 {
        0
    } else {
        let f = fastest_upto(rs, n - 1);
        if rs[n - 1].mean < rs[f].mean {
            n - 1
        } else {
            f
        }
    }
}

/// Index of the fastest result: the first one with the minimum mean.
pub open spec fn fastest_index(rs: Seq<BenchmarkResult>) -> int {
    fastest_upto(rs, rs.len() as int)
}

/// Some result has a mean of zero.
pub open spec fn has_zero_mean(rs: Seq<BenchmarkResult>) -> bool {
    exists|i: int| 0 <= i < rs.len() && #[trigger] rs[i].mean == 0
}

/// The uncertainty of result `i` relative to the fastest result `f`.
pub open spec fn stddev_annotation(rs: Seq<BenchmarkResult>, f: int, i: int) -> Option<u128> {
    if i == f {
        None
    } else {
        match (rs[i].stddev, rs[f].stddev) {
            (Some(s_r), Some(s_f)) => Some(
                speed_stddev(s_r as int, rs[i].mean as int, s_f as int, rs[f].mean as int) as u128,
            ),
            _ => None,
        }
    }
}

/// The annotation of result `i` against the fastest result `f`.
pub open spec fn annotation(rs: Seq<BenchmarkResult>, f: int, i: int) -> AnnotatedResult {
    AnnotatedResult {
        index: i as usize,
        relative_speed: fixed_ratio(rs[i].mean as int, rs[f].mean as int) as u64,
        relative_speed_stddev: stddev_annotation(rs, f, i),
        is_fastest: i == f,
    }
}

/// Result `a` comes before result `b` by mean time, ties by position.
pub open spec fn before_by_mean(rs: Seq<BenchmarkResult>, a: int, b: int) -> bool {
    rs[a].mean < rs[b].mean || (rs[a].mean == rs[b].mean && a < b)
}

/// Some entry of `v` annotates result `j`.
pub open spec fn lists_index(v: Seq<AnnotatedResult>, j: int) -> bool {
    exists|k: int| 0 <= k < v.len() && (#[trigger] v[k].index) == j
}

/// `v` lists the annotations of all of `rs` in the given order.
pub open spec fn is_comparison(
    rs: Seq<BenchmarkResult>,
    sort_order: SortOrder,
    v: Seq<AnnotatedResult>,
) -> bool {
    let f = fastest_index(rs);
    &&& v.len() == rs.len()
    &&& forall|k: int|
        0 <= k < v.len() ==> (#[trigger] v[k]).index < rs.len() && v[k] == annotation(
            rs,
            f,
            v[k].index as int,
        )
    &&& forall|j: int| 0 <= j < rs.len() ==> #[trigger] lists_index(v, j)
    &&& match sort_order {
        SortOrder::Command => forall|k: int| 0 <= k < v.len() ==> (#[trigger] v[k]).index == k,
        SortOrder::MeanTime => forall|k1: int, k2: int|
            0 <= k1 < k2 < v.len() ==> before_by_mean(
                rs,
                #[trigger] v[k1].index as int,
                #[trigger] v[k2].index as int,
            ),
    }
}

proof fn lemma_fastest_upto(rs: Seq<BenchmarkResult>, n: int)
    requires
        1 <= n <= rs.len(),
    ensures
        0 <= fastest_upto(rs, n) < n,
        forall|j: int| 0 <= j < n ==> rs[fastest_upto(rs, n)].mean <= #[trigger] rs[j].mean,
        forall|j: int| 0 <= j < fastest_upto(rs, n) ==> rs[fastest_upto(rs, n)].mean < #[trigger] rs[j].mean,
    decreases n,
{
    if n > 1 {
        lemma_fastest_upto(rs, n - 1);
    }
}

/// The fastest result has the minimum mean, and every result declared
/// before it is strictly slower: of several results with the same
/// minimum mean, the first one declared is the fastest.
pub proof fn lemma_fastest_is_first_minimum(rs: Seq<BenchmarkResult>)
    requires
        rs.len() >= 1,
    ensures
        0 <= fastest_index(rs) < rs.len(),
        forall|j: int| 0 <= j < rs.len() ==> rs[fastest_index(rs)].mean <= #[trigger] rs[j].mean,
        forall|j: int| 0 <= j < fastest_index(rs) ==> rs[fastest_index(rs)].mean < #[trigger] rs[j].mean,
{
    lemma_fastest_upto(rs, rs.len() as int);
}

proof fn lemma_ratio_bound(num: int, den: int)
    requires
        0 <= num <= MAX_MICROS,
        1 <= den,
    ensures
        0 <= fixed_ratio(num, den) <= MAX_MICROS * SCALE,
{
    let e = num * SCALE / den;
    assert(0 <= num * SCALE <= MAX_MICROS * SCALE) by (nonlinear_arith)
        requires
            0 <= num <= MAX_MICROS,
    ;
    assert(e <= num * SCALE) by (nonlinear_arith)
        requires
            e == num * SCALE / den,
            num * SCALE >= 0,
            den >= 1,
    ;
}

/// The square root of `n / d^2`, rounded down, is that of `n` divided by `d`.
proof fn lemma_isqrt_div_square(n: int, d: int)
    requires
        n >= 0,
        d >= 1,
    ensures
        isqrt((n / (d * d)) as nat) as int == isqrt(n as nat) as int / d,
{
    let s = isqrt(n as nat) as int;
    lemma_isqrt_bounds(n as nat);
    let k = s / d;
    let m = n / (d * d);
    assert(d * d >= 1) by (nonlinear_arith)
        requires
            d >= 1,
    ;
    assert(k * d <= s && s < (k + 1) * d) by (nonlinear_arith)
        requires
            k == s / d,
            d >= 1,
            s >= 0,
    ;
    assert((k * d) * (k * d) <= s * s) by (nonlinear_arith)
        requires
            0 <= k * d <= s,
    ;
    assert(k * k * (d * d) <= n) by (nonlinear_arith)
        requires
            (k * d) * (k * d) <= s * s,
            s * s <= n,
    ;
    assert(k * k <= m) by (nonlinear_arith)
        requires
            k * k * (d * d) <= n,
            m == n / (d * d),
            d * d >= 1,
    ;
    assert((s + 1) * (s + 1) <= ((k + 1) * d) * ((k + 1) * d)) by (nonlinear_arith)
        requires
            0 <= s + 1 <= (k + 1) * d,
    ;
    assert(n < (k + 1) * (k + 1) * (d * d)) by (nonlinear_arith)
        requires
            n < (s + 1) * (s + 1),
            (s + 1) * (s + 1) <= ((k + 1) * d) * ((k + 1) * d),
    ;
    assert(m < (k + 1) * (k + 1)) by (nonlinear_arith)
        requires
            n < (k + 1) * (k + 1) * (d * d),
            m == n / (d * d),
            d * d >= 1,
            n >= 0,
    ;
    assert(k >= 0) by (nonlinear_arith)
        requires
            k == s / d,
            s >= 0,
            d >= 1,
    ;
    assert(m >= 0) by (nonlinear_arith)
        requires
            m == n / (d * d),
            n >= 0,
            d * d >= 1,
    ;
    lemma_isqrt_bounds(m as nat);
    lemma_floor_sqrt_unique(m, k, isqrt(m as nat) as int);
}

/// The fixed-point standard deviation of the ratio `m_r / m_f`.
pub fn compute_speed_stddev(s_r: u64, m_r: u64, s_f: u64, m_f: u64) -> (r: u128)
    requires
        s_r <= MAX_STDDEV_MICROS,
        s_f <= MAX_STDDEV_MICROS,
        m_r <= MAX_MICROS,
        1 <= m_f <= m_r,
    ensures
        r == speed_stddev(s_r as int, m_r as int, s_f as int, m_f as int),
{
    proof {
        assert(SCALE * s_r * m_f < HYPOT_ARG_LIMIT) by (nonlinear_arith)
            requires
                s_r <= MAX_STDDEV_MICROS,
                m_f <= MAX_MICROS,
        ;
        assert(SCALE * s_f * m_r < HYPOT_ARG_LIMIT) by (nonlinear_arith)
            requires
                s_f <= MAX_STDDEV_MICROS,
                m_r <= MAX_MICROS,
        ;
        assert(1 <= m_f * m_f <= MAX_MICROS * MAX_MICROS) by (nonlinear_arith)
            requires
                1 <= m_f <= MAX_MICROS,
        ;
    }
    let p = (SCALE as u128) * (s_r as u128) * (m_f as u128);
    let q = (SCALE as u128) * (s_f as u128) * (m_r as u128);
    let d = (m_f as u128) * (m_f as u128);
    let root = floor_hypot(p, q);
    proof {
        let n = p * p + q * q;
        assert(n >= 0) by (nonlinear_arith)
            requires
                n == p * p + q * q,
        ;
        lemma_isqrt_div_square(n, d as int);
    }
    root / d
}

/// The fixed-point ratio `num / den`.
pub fn compute_fixed_ratio(num: u64, den: u64) -> (r: u64)
    requires
        num <= MAX_MICROS,
        1 <= den,
    ensures
        r == fixed_ratio(num as int, den as int),
        r <= MAX_MICROS * SCALE,
{
    proof {
        lemma_ratio_bound(num as int, den as int);
        assert(num * SCALE <= MAX_MICROS * SCALE) by (nonlinear_arith)
            requires
                num <= MAX_MICROS,
        ;
    }
    ((num as u128) * (SCALE as u128) / (den as u128)) as u64
}

/// Finds the fastest result: the first one with the minimum mean.
pub fn fastest_of(results: &Vec<BenchmarkResult>) -> (f: usize)
    requires
        results@.len() >= 1,
    ensures
        f == fastest_index(results@),
        f < results@.len(),
{
    let mut f: usize = 0;
    let mut i: usize = 1;
    while i < results.len()
        invariant
            1 <= i <= results@.len(),
            f == fastest_upto(results@, i as int),
            f < i,
        decreases results@.len() - i,
    {
        if results[i].mean < results[f].mean {
            f = i;
        }
        i = i + 1;
    }
    f
}

fn annotate(results: &Vec<BenchmarkResult>, f: usize, i: usize) -> (a: AnnotatedResult)
    requires
        all_wf(results@),
        f == fastest_index(results@),
        i < results@.len(),
        results@[f as int].mean > 0,
    ensures
        a == annotation(results@, f as int, i as int),
{
    proof {
        lemma_fastest_is_first_minimum(results@);
        assert(results@[i as int].wf());
        assert(results@[f as int].wf());
    }
    let r = &results[i];
    let fastest = &results[f];
    let relative_speed = compute_fixed_ratio(r.mean, fastest.mean);
    let relative_speed_stddev = if i == f {
        None
    } else {
        match (r.stddev, fastest.stddev) {
            (Some(s_r), Some(s_f)) => Some(compute_speed_stddev(s_r, r.mean, s_f, fastest.mean)),
            _ => None,
        }
    };
    AnnotatedResult { index: i, relative_speed, relative_speed_stddev, is_fastest: i == f }
}

/// Compares every result with the fastest one.
///
/// Returns `None` when the fastest mean is zero, as ratios to it are then
/// undefined. Otherwise returns one annotation per result, in command
/// order or by ascending mean time (ties in command order).
pub fn compute_with_check(results: &Vec<BenchmarkResult>, sort_order: SortOrder) -> (r: Option<
    Vec<AnnotatedResult>,
>)
    requires
        results@.len() >= 1,
        all_wf(results@),
    ensures
        r is None <==> has_zero_mean(results@),
        r is None <==> results@[fastest_index(results@)].mean == 0,
        r matches Some(v) ==> is_comparison(results@, sort_order, v@),
{
    proof {
        lemma_fastest_is_first_minimum(results@);
    }
    let f = fastest_of(results);
    if results[f].mean == 0 {
        return None;
    }
    let n = results.len();
    let mut v: Vec<AnnotatedResult> = Vec::new();
    let mut i: usize = 0;
    match sort_order {
        SortOrder::Command => {
            while i < n
                invariant
                    n == results@.len(),
                    all_wf(results@),
                    f == fastest_index(results@),
                    results@[f as int].mean > 0,
                    i <= n,
                    v@.len() == i,
                    forall|k: int|
                        0 <= k < i ==> #[trigger] v@[k] == annotation(results@, f as int, k),
                decreases n - i,
            {
                let a = annotate(results, f, i);
                v.push(a);
                i = i + 1;
            }
            proof {
                assert forall|j: int| 0 <= j < n implies #[trigger] lists_index(v@, j) by {
                    assert(v@[j].index == j);
                }
            }
        },
        SortOrder::MeanTime => {
            while i < n
                invariant
                    n == results@.len(),
                    all_wf(results@),
                    f == fastest_index(results@),
                    results@[f as int].mean > 0,
                    i <= n,
                    v@.len() == i,
                    forall|k: int|
                        0 <= k < v@.len() ==> (#[trigger] v@[k]).index < i && v@[k] == annotation(
                            results@,
                            f as int,
                            v@[k].index as int,
                        ),
                    forall|k1: int, k2: int|
                        0 <= k1 < k2 < v@.len() ==> before_by_mean(
                            results@,
                            #[trigger] v@[k1].index as int,
                            #[trigger] v@[k2].index as int,
                        ),
                    forall|j: int| 0 <= j < i ==> #[trigger] lists_index(v@, j),
                decreases n - i,
            {
                let a = annotate(results, f, i);
                let mean = results[i].mean;
                let mut p: usize = 0;
                while p < v.len() && results[v[p].index].mean <= mean
                    invariant
                        n == results@.len(),
                        i < n,
                        p <= v@.len(),
                        forall|k: int| 0 <= k < v@.len() ==> (#[trigger] v@[k]).index < i,
                        forall|k: int| 0 <= k < p ==> results@[(#[trigger] v@[k]).index as int].mean <= mean,
                    decreases v@.len() - p,
                {
                    p = p + 1;
                }
                proof {
                    assert forall|k: int| p <= k < v@.len() implies results@[(#[trigger] v@[k]).index as int].mean > mean by {
                        if k > p {
                            assert(before_by_mean(results@, v@[p as int].index as int, v@[k].index as int));
                        }
                    }
                }
                let ghost old_v = v@;
                v.insert(p, a);
                proof {
                    assert forall|k: int| 0 <= k < v@.len() implies (#[trigger] v@[k]).index < i + 1 && v@[k] == annotation(
                            results@,
                            f as int,
                            v@[k].index as int,
                        ) by {
                        if k < p {
                            assert(v@[k] == old_v[k]);
                        } else if k > p {
                            assert(v@[k] == old_v[k - 1]);
                        }
                    }
                    assert forall|k1: int, k2: int|
                        0 <= k1 < k2 < v@.len() implies before_by_mean(
                            results@,
                            #[trigger] v@[k1].index as int,
                            #[trigger] v@[k2].index as int,
                        ) by {
                        if k1 < p && k2 < p {
                            assert(v@[k1] == old_v[k1] && v@[k2] == old_v[k2]);
                        } else if k1 < p && k2 == p {
                            assert(v@[k1] == old_v[k1]);
                        } else if k1 < p {
                            assert(v@[k1] == old_v[k1] && v@[k2] == old_v[k2 - 1]);
                        } else if k1 == p {
                            assert(v@[k2] == old_v[k2 - 1]);
                        } else {
                            assert(v@[k1] == old_v[k1 - 1] && v@[k2] == old_v[k2 - 1]);
                        }
                    }
                    assert forall|j: int| 0 <= j < i + 1 implies #[trigger] lists_index(v@, j) by {
                        if j == i {
                            assert(v@[p as int].index == j);
                        } else {
                            assert(lists_index(old_v, j));
                            let k0 = choose|k: int| 0 <= k < old_v.len() && (#[trigger] old_v[k].index) == j;
                            if k0 < p {
                                assert(v@[k0].index == j);
                            } else {
                                assert(v@[k0 + 1].index == j);
                            }
                        }
                    }
                }
                i = i + 1;
            }
        },
    }
    Some(v)
}

proof fn lemma_ratio_at_least_one(m_i: int, m_f: int)
    requires
        1 <= m_f <= m_i <= MAX_MICROS,
    ensures
        SCALE <= fixed_ratio(m_i, m_f) <= MAX_MICROS * SCALE,
        m_i == m_f ==> fixed_ratio(m_i, m_f) == SCALE,
{
    lemma_mul_inequality(m_f, m_i, SCALE as int);
    lemma_div_is_ordered(m_f * SCALE, m_i * SCALE, m_f);
    lemma_div_by_multiple(SCALE as int, m_f);
    assert(m_f * SCALE == SCALE * m_f) by (nonlinear_arith);
    lemma_ratio_bound(m_i, m_f);
}

/// With at least two results and a positive fastest mean, every relative
/// speed is at least 1.0, the fastest result's is exactly 1.0, and the
/// fastest result is the only one marked fastest.
pub proof fn lemma_relative_speeds_at_least_one(rs: Seq<BenchmarkResult>)
    requires
        rs.len() >= 2,
        all_wf(rs),
        rs[fastest_index(rs)].mean > 0,
    ensures
        forall|i: int|
            0 <= i < rs.len() ==> (#[trigger] annotation(rs, fastest_index(rs), i)).relative_speed
                >= SCALE,
        annotation(rs, fastest_index(rs), fastest_index(rs)).relative_speed == SCALE,
        forall|i: int|
            0 <= i < rs.len() ==> ((#[trigger] annotation(rs, fastest_index(rs), i)).is_fastest
                <==> i == fastest_index(rs)),
{
    let f = fastest_index(rs);
    lemma_fastest_is_first_minimum(rs);
    assert forall|i: int| 0 <= i < rs.len() implies (#[trigger] annotation(
        rs,
        f,
        i,
    )).relative_speed >= SCALE by {
        assert(rs[i].wf());
        lemma_ratio_at_least_one(rs[i].mean as int, rs[f].mean as int);
    }
    assert(rs[f].wf());
    lemma_ratio_at_least_one(rs[f].mean as int, rs[f].mean as int);
}

/// Increasing the standard deviation of the compared result, with both
/// means and the fastest result's standard deviation fixed, never
/// decreases the standard deviation of its relative speed.
pub proof fn lemma_speed_stddev_monotone(s1: int, s2: int, m_r: int, s_f: int, m_f: int)
    requires
        0 <= s1 <= s2,
        0 <= s_f,
        1 <= m_f <= m_r,
    ensures
        speed_stddev(s1, m_r, s_f, m_f) <= speed_stddev(s2, m_r, s_f, m_f),
{
    let p1 = SCALE * s1 * m_f;
    let p2 = SCALE * s2 * m_f;
    let q = SCALE * s_f * m_r;
    let d = m_f * m_f;
    assert(0 <= p1 <= p2) by (nonlinear_arith)
        requires
            p1 == SCALE * s1 * m_f,
            p2 == SCALE * s2 * m_f,
            0 <= s1 <= s2,
            m_f >= 1,
    ;
    assert(p1 * p1 <= p2 * p2) by (nonlinear_arith)
        requires
            0 <= p1 <= p2,
    ;
    assert(q * q >= 0) by (nonlinear_arith);
    assert(d * d >= 1) by (nonlinear_arith)
        requires
            d == m_f * m_f,
            m_f >= 1,
    ;
    lemma_div_is_ordered(p1 * p1 + q * q, p2 * p2 + q * q, d * d);
    assert((p1 * p1 + q * q) / (d * d) >= 0) by (nonlinear_arith)
        requires
            p1 * p1 + q * q >= 0,
            d * d >= 1,
    ;
    lemma_isqrt_monotone(
        ((p1 * p1 + q * q) / (d * d)) as nat,
        ((p2 * p2 + q * q) / (d * d)) as nat,
    );
}

/// A result without a standard deviation gets no uncertainty of its
/// relative speed, whatever the fastest result's standard deviation.
pub proof fn lemma_no_stddev_no_uncertainty(rs: Seq<BenchmarkResult>, i: int)
    requires
        0 <= i < rs.len(),
        rs[i].stddev is None,
    ensures
        annotation(rs, fastest_index(rs), i).relative_speed_stddev is None,
{
}

/// Sorted by mean time, the fastest result comes first and no other entry
/// is marked fastest.
pub proof fn lemma_fastest_leads_by_mean(rs: Seq<BenchmarkResult>, v: Seq<AnnotatedResult>)
    requires
        rs.len() >= 1,
        is_comparison(rs, SortOrder::MeanTime, v),
    ensures
        v[0].index == fastest_index(rs),
        v[0].is_fastest,
        forall|k: int| 0 < k < v.len() ==> !(#[trigger] v[k]).is_fastest,
{
    let f = fastest_index(rs);
    lemma_fastest_is_first_minimum(rs);
    assert(lists_index(v, f));
    let k0 = choose|k: int| 0 <= k < v.len() && (#[trigger] v[k].index) == f;
    if k0 > 0 {
        assert(before_by_mean(rs, v[0].index as int, v[k0].index as int));
        assert(v[0].index < rs.len());
        assert(rs[f].mean <= rs[v[0].index as int].mean);
    }
    assert(v[0] == annotation(rs, f, v[0].index as int));
    assert forall|k: int| 0 < k < v.len() implies !(#[trigger] v[k]).is_fastest by {
        assert(before_by_mean(rs, v[0].index as int, v[k].index as int));
        assert(v[k] == annotation(rs, f, v[k].index as int));
    }
}

} // verus!
