use hyperfine_core::benchmark::{
    exit_code_accepted, is_too_fast, needs_another_run, reduce, subtract_overhead, RunPolicy,
    Sample,
};

fn sample(wall: u64, user: u64, system: u64) -> Sample {
    Sample { wall, user, system, exit_code: Some(0) }
}

fn policy() -> RunPolicy {
    RunPolicy {
        warmup_count: 0,
        min_runs: 3,
        min_benchmarking_time: 1_000,
        exact_runs: None,
        permit_nonzero_exit: false,
        too_fast_threshold: 5_000,
    }
}

#[test]
fn reduce_even_number_of_runs() {
    let samples = vec![sample(3, 1, 1), sample(1, 2, 0), sample(2, 3, 1), sample(10, 6, 2)];
    let r = reduce("cmd".to_string(), "cmd".to_string(), vec![], &samples, true);
    assert_eq!(r.mean, 4);
    assert_eq!(r.min, 1);
    assert_eq!(r.max, 10);
    assert_eq!(r.median, 2);
    assert_eq!(r.stddev, Some(4));
    assert_eq!(r.user, 3);
    assert_eq!(r.system, 1);
    assert_eq!(r.times, Some(vec![3, 1, 2, 10]));
    assert_eq!(r.exit_codes, vec![Some(0); 4]);
    assert!(r.is_valid());
}

#[test]
fn reduce_odd_number_of_runs() {
    let samples = vec![sample(5, 0, 0), sample(1, 0, 0), sample(3, 0, 0)];
    let r = reduce("a".to_string(), "a x=1".to_string(), vec![], &samples, false);
    assert_eq!(r.median, 3);
    assert_eq!(r.mean, 3);
    assert_eq!(r.stddev, Some(2));
    assert_eq!(r.times, None);
    assert_eq!(r.command, "a");
    assert_eq!(r.command_with_unused_parameters, "a x=1");
}

#[test]
fn single_sample_has_no_stddev() {
    let samples = vec![Sample { wall: 1_500, user: 10, system: 20, exit_code: None }];
    let r = reduce("a".to_string(), "a".to_string(), vec![], &samples, true);
    assert_eq!(r.stddev, None);
    assert_eq!(r.mean, 1_500);
    assert_eq!(r.median, 1_500);
    assert_eq!(r.exit_codes, vec![None]);
}

#[test]
fn duplicate_parameter_names_are_invalid() {
    let samples = vec![sample(5, 0, 0)];
    let params = vec![("x".to_string(), "1".to_string()), ("x".to_string(), "2".to_string())];
    let r = reduce("a".to_string(), "a".to_string(), params, &samples, true);
    assert!(!r.is_valid());
    let params = vec![("x".to_string(), "1".to_string()), ("y".to_string(), "2".to_string())];
    let r = reduce("a".to_string(), "a".to_string(), params, &samples, true);
    assert!(r.is_valid());
}

#[test]
fn stopping_rule() {
    let p = policy();
    assert!(needs_another_run(&p, 0, 5_000));
    assert!(needs_another_run(&p, 2, 5_000));
    assert!(needs_another_run(&p, 3, 999));
    assert!(!needs_another_run(&p, 3, 1_000));
    let exact = RunPolicy { exact_runs: Some(2), ..p };
    assert!(needs_another_run(&exact, 1, 0));
    assert!(!needs_another_run(&exact, 2, 0));
    let zero = RunPolicy { exact_runs: Some(0), ..p };
    assert!(needs_another_run(&zero, 0, 0));
}

#[test]
fn exit_code_policy() {
    let p = policy();
    assert!(exit_code_accepted(&p, Some(0)));
    assert!(!exit_code_accepted(&p, Some(1)));
    assert!(!exit_code_accepted(&p, None));
    let lenient = RunPolicy { permit_nonzero_exit: true, ..p };
    assert!(exit_code_accepted(&lenient, Some(2)));
    assert!(exit_code_accepted(&lenient, None));
}

#[test]
fn too_fast_threshold() {
    let p = policy();
    assert!(is_too_fast(&p, 4_999));
    assert!(!is_too_fast(&p, 5_000));
}

#[test]
fn overhead_is_subtracted_without_going_negative() {
    let s = Sample { wall: 100, user: 5, system: 3, exit_code: Some(1) };
    let o = Sample { wall: 30, user: 10, system: 3, exit_code: Some(0) };
    let r = subtract_overhead(s, o);
    assert_eq!(r, Sample { wall: 70, user: 0, system: 0, exit_code: Some(1) });
}
