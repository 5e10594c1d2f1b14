use vstd::prelude::*;

use crate::isqrt::{floor_sqrt, isqrt, lemma_isqrt_bounds};
use crate::result::{BenchmarkResult, MAX_MICROS, MAX_STDDEV_MICROS};

verus! {

/// Largest number of measured runs that one reduction accepts.
pub const MAX_RUNS: usize = 4294967295;

/// The measurements of one execution, in microseconds.
#[derive(Clone, Copy, Debug, PartialEq, Eq, Structural)]
pub struct Sample {
    pub wall: u64,
    pub user: u64,
    pub system: u64,
    /// Absent when the process could not report one, e.g. when it was killed.
    pub exit_code: Option<i32>,
}

/// Every time of the sample is in the supported range.
pub open spec fn sample_ok(s: Sample) -> bool {
    s.wall <= MAX_MICROS && s.user <= MAX_MICROS && s.system <= MAX_MICROS
}

/// How many times a command is run.
#[derive(Clone, Copy, Debug, PartialEq, Eq, Structural)]
pub struct RunPolicy {
    /// Runs whose timings are discarded, before the measured ones.
    pub warmup_count: u64,
    /// Least number of measured runs.
    pub min_runs: u64,
    /// Least total measured wall time, in microseconds; zero for none.
    pub min_benchmarking_time: u64,
    /// A fixed number of measured runs, overriding the two bounds above.
    pub exact_runs: Option<u64>,
    /// Whether a run may exit with a non-zero code.
    pub permit_nonzero_exit: bool,
    /// Mean times below this many microseconds are marked as unreliable.
    pub too_fast_threshold: u64,
}

/// Another measured run is needed after `runs` runs that took `elapsed`
/// microseconds in total. At least one run is always made.
pub open spec fn needs_another_run_spec(policy: RunPolicy, runs: u64, elapsed: u64) -> bool {
    match policy.exact_runs {
        Some(k) => runs < k || runs == 0,
        None => runs == 0 || runs < policy.min_runs || elapsed < policy.min_benchmarking_time,
    }
}

/// Decides whether another measured run is needed.
pub fn needs_another_run(policy: &RunPolicy, runs: u64, elapsed: u64) -> (r: bool)
    ensures
        r == needs_another_run_spec(*policy, runs, elapsed),
{
    match policy.exact_runs {
        Some(k) => runs < k || runs == 0,
        None => runs == 0 || runs < policy.min_runs || elapsed < policy.min_benchmarking_time,
    }
}

/// Whether a run with this exit code may count: a code of zero always
/// may, any other outcome only when non-zero exits are permitted.
pub fn exit_code_accepted(policy: &RunPolicy, exit_code: Option<i32>) -> (r: bool)
    ensures
        r == (policy.permit_nonzero_exit || exit_code == Some(0i32)),
{
    policy.permit_nonzero_exit || match exit_code {
        Some(c) => c == 0,
        None => false,
    }
}

/// Whether a mean time is too small to be measured reliably.
pub fn is_too_fast(policy: &RunPolicy, mean: u64) -> (r: bool)
    ensures
        r == (mean < policy.too_fast_threshold),
{
    mean < policy.too_fast_threshold
}

/// `a - b`, or zero where `b` is larger.
pub open spec fn saturating_diff(a: u64, b: u64) -> u64 {
    if a >= b {
        (a - b) as u64
    } else {
        0
    }
}

/// Corrects a sample for the executor's own spawning overhead, measured
/// during calibration; a time never drops below zero.
pub fn subtract_overhead(s: Sample, overhead: Sample) -> (r: Sample)
    ensures
        r.wall == saturating_diff(s.wall, overhead.wall),
        r.user == saturating_diff(s.user, overhead.user),
        r.system == saturating_diff(s.system, overhead.system),
        r.exit_code == s.exit_code,
        sample_ok(s) ==> sample_ok(r),
{
    Sample {
        wall: s.wall.saturating_sub(overhead.wall),
        user: s.user.saturating_sub(overhead.user),
        system: s.system.saturating_sub(overhead.system),
        exit_code: s.exit_code,
    }
}

/// The wall times of the samples.
pub open spec fn walls(s: Seq<Sample>) -> Seq<int> {
    s.map_values(|x: Sample| x.wall as int)
}

/// The user times of the samples.
pub open spec fn users(s: Seq<Sample>) -> Seq<int> {
    s.map_values(|x: Sample| x.user as int)
}

/// The system times of the samples.
pub open spec fn systems(s: Seq<Sample>) -> Seq<int> {
    s.map_values(|x: Sample| x.system as int)
}

pub open spec fn sum(xs: Seq<int>) -> int
    decreases xs.len(),
{
    if xs.len() == 0 {
        0
    } else {
        sum(xs.drop_last()) + xs.last()
    }
}

/// The sum of the squared deviations from `m`.
pub open spec fn sq_dev_sum(xs: Seq<int>, m: int) -> int
    decreases xs.len(),
{
    if xs.len() == 0 {
        0
    } else {
        sq_dev_sum(xs.drop_last(), m) + (xs.last() - m) * (xs.last() - m)
    }
}

pub open spec fn min_of(xs: Seq<int>) -> int
    decreases xs.len(),
{
    if xs.len() <= 1 {
        xs[0]
    } else {
        let m = min_of(xs.drop_last());
        if xs.last() < m {
            xs.last()
        } else {
            m
        }
    }
}

pub open spec fn max_of(xs: Seq<int>) -> int
    decreases xs.len(),
{
    if xs.len() <= 1 {
        xs[0]
    } else {
        let m = max_of(xs.drop_last());
        if xs.last() > m {
            xs.last()
        } else {
            m
        }
    }
}

/// The mean, rounded down.
pub open spec fn mean_of(xs: Seq<int>) -> int {
    sum(xs) / xs.len() as int
}

/// The sample standard deviation (with `n - 1` in the denominator),
/// rounded down; absent for fewer than two values.
pub open spec fn stddev_of(xs: Seq<int>) -> Option<int> {
    if xs.len() < 2 {
        None
    } else {
        Some(isqrt((sq_dev_sum(xs, mean_of(xs)) / (xs.len() - 1)) as nat) as int)
    }
}

/// The median of sorted values: the middle one, or the mean of the two
/// middle ones rounded down.
pub open spec fn median_of_sorted(t: Seq<u64>) -> int {
    let h = t.len() as int / 2;
    if t.len() % 2 == 1 {
        t[h] as int
    } else {
        (t[h - 1] + t[h]) / 2
    }
}

pub open spec fn is_sorted(t: Seq<u64>) -> bool {
    forall|i: int, j: int| 0 <= i < j < t.len() ==> t[i] <= t[j]
}

/// The wall times of the samples, as they are kept in a result.
pub open spec fn wall_values(s: Seq<Sample>) -> Seq<u64> {
    s.map_values(|x: Sample| x.wall)
}

/// The exit codes of the samples.
pub open spec fn exit_codes_of(s: Seq<Sample>) -> Seq<Option<i32>> {
    s.map_values(|x: Sample| x.exit_code)
}

/// `t` holds the values of `v` in ascending order.
pub open spec fn is_sorted_copy(t: Seq<u64>, v: Seq<u64>) -> bool {
    is_sorted(t) && t.to_multiset() == v.to_multiset()
}

/// Relies on `slice::sort_unstable`: the values end up in ascending order,
/// and no value is added or lost.
#[verifier::external_body]
fn sort_values(v: &mut Vec<u64>)
    ensures
        is_sorted_copy(final(v)@, old(v)@),
{
    v.sort_unstable();
}

proof fn lemma_min_max(xs: Seq<int>)
    requires
        xs.len() >= 1,
    ensures
        forall|i: int| 0 <= i < xs.len() ==> min_of(xs) <= #[trigger] xs[i] <= max_of(xs),
    decreases xs.len(),
{
    if xs.len() > 1 {
        lemma_min_max(xs.drop_last());
        assert forall|i: int| 0 <= i < xs.len() implies min_of(xs) <= #[trigger] xs[i] <= max_of(xs) by {
            if i < xs.len() - 1 {
                assert(xs[i] == xs.drop_last()[i]);
            }
        }
    }
}

proof fn lemma_sum_bounds(xs: Seq<int>, lo: int, hi: int)
    requires
        forall|i: int| 0 <= i < xs.len() ==> lo <= #[trigger] xs[i] <= hi,
    ensures
        xs.len() * lo <= sum(xs) <= xs.len() * hi,
    decreases xs.len(),
{
    if xs.len() > 0 {
        let ys = xs.drop_last();
        assert forall|i: int| 0 <= i < ys.len() implies lo <= #[trigger] ys[i] <= hi by {
            assert(ys[i] == xs[i]);
        }
        lemma_sum_bounds(ys, lo, hi);
        assert(xs.len() * lo == ys.len() * lo + lo) by (nonlinear_arith)
            requires
                xs.len() == ys.len() + 1,
        ;
        assert(xs.len() * hi == ys.len() * hi + hi) by (nonlinear_arith)
            requires
                xs.len() == ys.len() + 1,
        ;
    }
}

/// Sums, minimum and maximum of the samples.
fn summarize(samples: &Vec<Sample>) -> (r: (u128, u128, u128, u64, u64))
    requires
        1 <= samples@.len() <= MAX_RUNS,
        forall|i: int| 0 <= i < samples@.len() ==> sample_ok(#[trigger] samples@[i]),
    ensures
        r.0 == sum(walls(samples@)),
        r.1 == sum(users(samples@)),
        r.2 == sum(systems(samples@)),
        r.3 == min_of(walls(samples@)),
        r.4 == max_of(walls(samples@)),
        r.3 <= r.4 <= MAX_MICROS,
        r.0 <= samples@.len() * MAX_MICROS,
        r.1 <= samples@.len() * MAX_MICROS,
        r.2 <= samples@.len() * MAX_MICROS,
{
    let ghost w = walls(samples@);
    let ghost u = users(samples@);
    let ghost y = systems(samples@);
    let n = samples.len();
    let mut sw: u128 = samples[0].wall as u128;
    let mut su: u128 = samples[0].user as u128;
    let mut ss: u128 = samples[0].system as u128;
    let mut lo: u64 = samples[0].wall;
    let mut hi: u64 = samples[0].wall;
    proof {
        assert(w.subrange(0, 1).drop_last() =~= Seq::<int>::empty());
        assert(u.subrange(0, 1).drop_last() =~= Seq::<int>::empty());
        assert(y.subrange(0, 1).drop_last() =~= Seq::<int>::empty());
        assert(sum(Seq::<int>::empty()) == 0);
        assert(w.subrange(0, 1).last() == w[0]);
        assert(u.subrange(0, 1).last() == u[0]);
        assert(y.subrange(0, 1).last() == y[0]);
        assert(sum(w.subrange(0, 1)) == w[0]);
        assert(sum(u.subrange(0, 1)) == u[0]);
        assert(sum(y.subrange(0, 1)) == y[0]);
    }
    let mut i: usize = 1;
    while i < n
        invariant
            n == samples@.len(),
            1 <= i <= n <= MAX_RUNS,
            forall|k: int| 0 <= k < samples@.len() ==> sample_ok(#[trigger] samples@[k]),
            w == walls(samples@),
            u == users(samples@),
            y == systems(samples@),
            sw == sum(w.subrange(0, i as int)),
            su == sum(u.subrange(0, i as int)),
            ss == sum(y.subrange(0, i as int)),
            lo == min_of(w.subrange(0, i as int)),
            hi == max_of(w.subrange(0, i as int)),
            lo <= hi <= MAX_MICROS,
            sw <= i * MAX_MICROS,
            su <= i * MAX_MICROS,
            ss <= i * MAX_MICROS,
        decreases n - i,
    {
        let x = samples[i];
        proof {
            assert(sample_ok(samples@[i as int]));
            assert(w.subrange(0, i + 1).drop_last() =~= w.subrange(0, i as int));
            assert(u.subrange(0, i + 1).drop_last() =~= u.subrange(0, i as int));
            assert(y.subrange(0, i + 1).drop_last() =~= y.subrange(0, i as int));
        }
        sw = sw + x.wall as u128;
        su = su + x.user as u128;
        ss = ss + x.system as u128;
        if x.wall < lo {
            lo = x.wall;
        }
        if x.wall > hi {
            hi = x.wall;
        }
        i = i + 1;
    }
    proof {
        assert(w.subrange(0, n as int) =~= w);
        assert(u.subrange(0, n as int) =~= u);
        assert(y.subrange(0, n as int) =~= y);
    }
    (sw, su, ss, lo, hi)
}

fn squared_deviations(samples: &Vec<Sample>, mean: u64) -> (r: u128)
    requires
        1 <= samples@.len() <= MAX_RUNS,
        forall|i: int| 0 <= i < samples@.len() ==> sample_ok(#[trigger] samples@[i]),
        mean <= MAX_MICROS,
    ensures
        r == sq_dev_sum(walls(samples@), mean as int),
        r <= samples@.len() * (MAX_MICROS * MAX_MICROS),
{
    let ghost w = walls(samples@);
    let n = samples.len();
    let mut acc: u128 = 0;
    let mut i: usize = 0;
    while i < n
        invariant
            n == samples@.len(),
            i <= n <= MAX_RUNS,
            mean <= MAX_MICROS,
            forall|k: int| 0 <= k < samples@.len() ==> sample_ok(#[trigger] samples@[k]),
            w == walls(samples@),
            acc == sq_dev_sum(w.subrange(0, i as int), mean as int),
            acc <= i * (MAX_MICROS * MAX_MICROS),
        decreases n - i,
    {
        let x = samples[i].wall;
        proof {
            assert(sample_ok(samples@[i as int]));
            assert(w.subrange(0, i + 1).drop_last() =~= w.subrange(0, i as int));
            assert(w.subrange(0, i + 1).last() == x);
        }
        let d: u64 = if x >= mean {
            x - mean
        } else {
            mean - x
        };
        proof {
            assert(d * d <= MAX_MICROS * MAX_MICROS) by (nonlinear_arith)
                requires
                    d <= MAX_MICROS,
            ;
            assert((x - mean) * (x - mean) == d * d) by (nonlinear_arith)
                requires
                    d == x - mean || d == mean - x,
            ;
        }
        proof {
            assert(acc + d * d <= (i + 1) * (MAX_MICROS * MAX_MICROS)) by (nonlinear_arith)
                requires
                    acc <= i * (MAX_MICROS * MAX_MICROS),
                    d * d <= MAX_MICROS * MAX_MICROS,
            ;
            assert((i + 1) * (MAX_MICROS * MAX_MICROS) <= MAX_RUNS * (MAX_MICROS * MAX_MICROS))
                by (nonlinear_arith)
                requires
                    i + 1 <= MAX_RUNS,
            ;
        }
        acc = acc + (d as u128) * (d as u128);
        i = i + 1;
    }
    proof {
        assert(w.subrange(0, n as int) =~= w);
    }
    acc
}

proof fn lemma_sorted_copy_in_range(t: Seq<u64>, samples: Seq<Sample>)
    requires
        samples.len() >= 1,
        is_sorted_copy(t, wall_values(samples)),
    ensures
        t.len() == samples.len(),
        forall|k: int|
            0 <= k < t.len() ==> min_of(walls(samples)) <= #[trigger] t[k] <= max_of(walls(samples)),
{
    let wv = wall_values(samples);
    t.to_multiset_ensures();
    wv.to_multiset_ensures();
    lemma_min_max(walls(samples));
    assert forall|k: int| 0 <= k < t.len() implies min_of(walls(samples)) <= #[trigger] t[k]
        <= max_of(walls(samples)) by {
        assert(t.contains(t[k]));
        assert(t.to_multiset().count(t[k]) > 0);
        assert(wv.contains(t[k]));
        let i = choose|i: int| 0 <= i < wv.len() && wv[i] == t[k];
        assert(walls(samples)[i] == t[k]);
    }
}

/// Reduces the samples of the measured runs of one command to a result.
///
/// The result satisfies its invariant whenever the parameter names are
/// distinct.
pub fn reduce(
    command: String,
    command_with_unused_parameters: String,
    parameters: Vec<(String, String)>,
    samples: &Vec<Sample>,
    keep_times: bool,
) -> (r: BenchmarkResult)
    requires
        1 <= samples@.len() <= MAX_RUNS,
        forall|i: int| 0 <= i < samples@.len() ==> sample_ok(#[trigger] samples@[i]),
    ensures
        r.command == command,
        r.command_with_unused_parameters == command_with_unused_parameters,
        r.parameters == parameters,
        r.mean == mean_of(walls(samples@)),
        r.stddev == match stddev_of(walls(samples@)) {
            Some(d) => Some(d as u64),
            None => None::<u64>,
        },
        exists|t: Seq<u64>|
            is_sorted_copy(t, wall_values(samples@)) && r.median == #[trigger] median_of_sorted(t),
        r.min == min_of(walls(samples@)),
        r.max == max_of(walls(samples@)),
        r.user == mean_of(users(samples@)),
        r.system == mean_of(systems(samples@)),
        r.exit_codes@ == exit_codes_of(samples@),
        keep_times ==> (r.times matches Some(t) && t@ == wall_values(samples@)),
        !keep_times ==> r.times is None,
        (forall|i: int, j: int|
            0 <= i < j < parameters@.len() ==> parameters@[i].0@ != parameters@[j].0@) ==> r.wf(),
{
    let ghost w = walls(samples@);
    let n = samples.len();
    let (sw, su, ss, min, max) = summarize(samples);
    proof {
        lemma_min_max(w);
        lemma_sum_bounds(w, min as int, max as int);
        lemma_sum_bounds(users(samples@), 0, MAX_MICROS as int);
        lemma_sum_bounds(systems(samples@), 0, MAX_MICROS as int);
        assert(min <= sw / (n as u128) <= max) by (nonlinear_arith)
            requires
                n * min <= sw <= n * max,
                n >= 1,
        ;
        assert(su / (n as u128) <= MAX_MICROS) by (nonlinear_arith)
            requires
                su <= n * MAX_MICROS,
                n >= 1,
        ;
        assert(ss / (n as u128) <= MAX_MICROS) by (nonlinear_arith)
            requires
                ss <= n * MAX_MICROS,
                n >= 1,
        ;
    }
    let mean = (sw / (n as u128)) as u64;
    let user = (su / (n as u128)) as u64;
    let system = (ss / (n as u128)) as u64;
    let stddev = if n < 2 {
        None
    } else {
        let sq = squared_deviations(samples, mean);
        let nm1 = (n - 1) as u128;
        let var = sq / nm1;
        proof {
            assert(var <= 2 * (MAX_MICROS * MAX_MICROS)) by (nonlinear_arith)
                requires
                    sq <= n * (MAX_MICROS * MAX_MICROS),
                    n >= 2,
                    nm1 == n - 1,
                    var == sq / nm1,
            ;
        }
        let d = floor_sqrt(var);
        proof {
            lemma_isqrt_bounds(var as nat);
            assert(d <= MAX_STDDEV_MICROS) by (nonlinear_arith)
                requires
                    d * d <= var,
                    var <= 2 * (MAX_MICROS * MAX_MICROS),
                    d >= 0,
            ;
        }
        Some(d as u64)
    };
    let mut values: Vec<u64> = Vec::new();
    let mut exit_codes: Vec<Option<i32>> = Vec::new();
    let mut i: usize = 0;
    while i < n
        invariant
            n == samples@.len(),
            i <= n,
            values@ == wall_values(samples@).subrange(0, i as int),
            exit_codes@ == exit_codes_of(samples@).subrange(0, i as int),
        decreases n - i,
    {
        values.push(samples[i].wall);
        exit_codes.push(samples[i].exit_code);
        i = i + 1;
        proof {
            assert(values@ =~= wall_values(samples@).subrange(0, i as int));
            assert(exit_codes@ =~= exit_codes_of(samples@).subrange(0, i as int));
        }
    }
    proof {
        assert(values@ =~= wall_values(samples@));
        assert(exit_codes@ =~= exit_codes_of(samples@));
    }
    let mut sorted = values.clone();
    sort_values(&mut sorted);
    let ghost t = sorted@;
    proof {
        lemma_sorted_copy_in_range(t, samples@);
    }
    let h = n / 2;
    proof {
        assert(t.len() == n);
        if n % 2 == 0 {
            assert(t[h - 1] <= max && t[h as int] <= max);
        }
    }
    let median = if n % 2 == 1 {
        sorted[h]
    } else {
        (sorted[h - 1] + sorted[h]) / 2
    };
    proof {
        assert(median_of_sorted(t) == median);
        assert(min <= median <= max) by {
            if n % 2 == 0 {
                assert(min <= t[h - 1] <= max && min <= t[h as int] <= max);
            } else {
                assert(min <= t[h as int] <= max);
            }
        }
        assert(values@.len() == exit_codes@.len());
    }
    let times = if keep_times {
        Some(values)
    } else {
        None
    };
    BenchmarkResult {
        command,
        command_with_unused_parameters,
        mean,
        stddev,
        median,
        user,
        system,
        min,
        max,
        times,
        exit_codes,
        parameters,
    }
}

} // verus!
