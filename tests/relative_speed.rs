use hyperfine_core::isqrt::floor_sqrt;
use hyperfine_core::options::SortOrder;
use hyperfine_core::relative_speed::{
    compute_fixed_ratio, compute_speed_stddev, compute_with_check, fastest_of, SCALE,
};
use hyperfine_core::result::BenchmarkResult;

fn result(name: &str, mean: u64, stddev: Option<u64>) -> BenchmarkResult {
    BenchmarkResult {
        command: name.to_string(),
        command_with_unused_parameters: name.to_string(),
        mean,
        stddev,
        median: mean,
        user: 0,
        system: 0,
        min: mean,
        max: mean,
        times: None,
        exit_codes: vec![Some(0)],
        parameters: vec![],
    }
}

const SECOND: u64 = 1_000_000;

#[test]
fn two_commands_example() {
    let results = vec![
        result("a", SECOND, Some(2 * SECOND)),
        result("b", 11 * SECOND, Some(12 * SECOND)),
    ];
    let v = compute_with_check(&results, SortOrder::Command).unwrap();
    assert_eq!(v.len(), 2);
    assert_eq!(v[0].index, 0);
    assert!(v[0].is_fastest);
    assert_eq!(v[0].relative_speed, SCALE);
    assert_eq!(v[0].relative_speed_stddev, None);
    assert_eq!(v[1].index, 1);
    assert!(!v[1].is_fastest);
    assert_eq!(v[1].relative_speed, 11 * SCALE);
    // 11 * sqrt((12/11)^2 + (2/1)^2) = 25.0599...
    assert_eq!(v[1].relative_speed_stddev, Some(25_059_928));
}

#[test]
fn zero_fastest_mean_cannot_be_compared() {
    let results = vec![result("a", 0, None), result("b", 5, Some(1))];
    assert!(compute_with_check(&results, SortOrder::Command).is_none());
    assert!(compute_with_check(&results, SortOrder::MeanTime).is_none());
    let results = vec![result("a", 7, Some(1)), result("b", 0, Some(0))];
    assert!(compute_with_check(&results, SortOrder::MeanTime).is_none());
}

#[test]
fn tie_goes_to_first_declared() {
    let results = vec![
        result("a", 30, None),
        result("b", 10, Some(1)),
        result("c", 10, Some(2)),
    ];
    assert_eq!(fastest_of(&results), 1);
    for _ in 0..3 {
        let v = compute_with_check(&results, SortOrder::Command).unwrap();
        let fastest: Vec<usize> = v.iter().filter(|a| a.is_fastest).map(|a| a.index).collect();
        assert_eq!(fastest, vec![1]);
        assert_eq!(v[2].relative_speed, SCALE);
        assert!(!v[2].is_fastest);
    }
}

#[test]
fn relative_speeds_at_least_one() {
    let results = vec![
        result("a", 250, Some(3)),
        result("b", 100, Some(4)),
        result("c", 101, None),
        result("d", 900, Some(50)),
    ];
    let v = compute_with_check(&results, SortOrder::Command).unwrap();
    for a in &v {
        assert!(a.relative_speed >= SCALE);
        assert_eq!(a.is_fastest, a.index == 1);
    }
    assert_eq!(v[0].relative_speed, 2_500_000);
    assert_eq!(v[2].relative_speed, 1_010_000);
    assert_eq!(v[3].relative_speed, 9_000_000);
}

#[test]
fn sorted_by_mean_time() {
    let results = vec![
        result("a", 250, None),
        result("b", 100, None),
        result("c", 250, None),
        result("d", 50, None),
    ];
    let v = compute_with_check(&results, SortOrder::MeanTime).unwrap();
    let order: Vec<usize> = v.iter().map(|a| a.index).collect();
    assert_eq!(order, vec![3, 1, 0, 2]);
    assert!(v[0].is_fastest);
    assert_eq!(v[1].relative_speed, 2 * SCALE);
    assert_eq!(v[3].relative_speed, 5 * SCALE);
}

#[test]
fn missing_stddev_gives_no_uncertainty() {
    let results = vec![result("a", 10, Some(3)), result("b", 20, None)];
    let v = compute_with_check(&results, SortOrder::Command).unwrap();
    assert_eq!(v[1].relative_speed_stddev, None);
    let results = vec![result("a", 10, None), result("b", 20, Some(5))];
    let v = compute_with_check(&results, SortOrder::Command).unwrap();
    assert_eq!(v[1].relative_speed_stddev, None);
}

#[test]
fn larger_stddev_never_lowers_uncertainty() {
    assert_eq!(compute_speed_stddev(5, 20, 3, 10), 781_024);
    assert_eq!(compute_speed_stddev(9, 20, 3, 10), 1_081_665);
    let mut last = 0;
    for s in 0..40 {
        let d = compute_speed_stddev(s, 20, 3, 10);
        assert!(d >= last);
        last = d;
    }
}

#[test]
fn fixed_ratio_and_square_root() {
    assert_eq!(compute_fixed_ratio(1_000_000, 11_000), 90_909_090);
    assert_eq!(floor_sqrt(0), 0);
    assert_eq!(floor_sqrt(15), 3);
    assert_eq!(floor_sqrt(16), 4);
    assert_eq!(floor_sqrt(628), 25);
}

#[test]
fn single_result_is_its_own_fastest() {
    let results = vec![result("a", 42, None)];
    let v = compute_with_check(&results, SortOrder::MeanTime).unwrap();
    assert_eq!(v.len(), 1);
    assert!(v[0].is_fastest);
    assert_eq!(v[0].relative_speed, SCALE);
}

#[test]
fn large_ratio_keeps_uncertainty_precise() {
    // Fastest: 1 us without spread; other: 3 s with a spread of 1 us.
    // 3e6 * (1e-6 / 3) = 1.0
    assert_eq!(compute_speed_stddev(1, 3_000_000, 0, 1), SCALE as u128);
    let results = vec![result("a", 1, Some(0)), result("b", 3_000_000, Some(1))];
    let v = compute_with_check(&results, SortOrder::Command).unwrap();
    assert_eq!(v[1].relative_speed, 3_000_000 * SCALE);
    assert_eq!(v[1].relative_speed_stddev, Some(SCALE as u128));
}

#[test]
fn millisecond_example() {
    // means 11 ms and 1 s, stddevs 12 ms and 2 s: 90.91 +- 207.11
    assert_eq!(compute_fixed_ratio(1_000_000, 11_000), 90_909_090);
    assert_eq!(compute_speed_stddev(2_000_000, 1_000_000, 12_000, 11_000), 207_106_844);
}
