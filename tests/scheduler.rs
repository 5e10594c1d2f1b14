use hyperfine_core::options::{
    CommandFailurePolicy, ExecutorKind, Options, OutputStyleOption, SortOrder,
};
use hyperfine_core::result::BenchmarkResult;
use hyperfine_core::scheduler::{Event, Scheduler, SpeedComparison, Step};

fn result(name: &str, mean: u64, stddev: Option<u64>) -> BenchmarkResult {
    BenchmarkResult {
        command: name.to_string(),
        command_with_unused_parameters: name.to_string(),
        mean,
        stddev,
        median: mean,
        user: 0,
        system: 0,
        min: mean,
        max: mean,
        times: Some(vec![mean]),
        exit_codes: vec![Some(0)],
        parameters: vec![],
    }
}

fn options(order: SortOrder, style: OutputStyleOption) -> Options {
    Options {
        executor_kind: ExecutorKind::Mock(None),
        sort_order_exports: SortOrder::Command,
        sort_order_speed_comparison: order,
        output_style: style,
        command_failure_policy: CommandFailurePolicy::Abort,
    }
}

#[test]
fn partial_export_after_every_command() {
    let n = 3;
    let mut s = Scheduler::new(n, options(SortOrder::MeanTime, OutputStyleOption::Full));
    assert_eq!(s.run_benchmarks(), Step::Calibrate);
    assert_eq!(s.advance(Event::Calibrated), Step::RunBenchmark(0));
    for i in 0..n {
        let step = s.advance(Event::BenchmarkFinished(result("cmd", 10 * (i as u64 + 1), None)));
        assert_eq!(
            step,
            Step::Export { count: i + 1, sort_order: SortOrder::Command, partial: true }
        );
        assert_eq!(s.results().len(), i + 1);
        for (k, r) in s.results().iter().enumerate() {
            assert_eq!(r.mean, 10 * (k as u64 + 1));
        }
        let next = s.advance(Event::Exported);
        if i + 1 < n {
            assert_eq!(next, Step::RunBenchmark(i + 1));
        } else {
            assert_eq!(next, Step::Finished);
        }
    }
    assert_eq!(
        s.final_export(),
        Step::Export { count: 3, sort_order: SortOrder::Command, partial: false }
    );
}

#[test]
fn failed_command_keeps_earlier_results() {
    let mut s = Scheduler::new(3, options(SortOrder::Command, OutputStyleOption::Full));
    s.run_benchmarks();
    s.advance(Event::Calibrated);
    s.advance(Event::BenchmarkFinished(result("a", 5, None)));
    s.advance(Event::Exported);
    assert_eq!(s.advance(Event::BenchmarkFailed), Step::Abort);
    assert_eq!(s.results().len(), 1);
    assert_eq!(s.results()[0].mean, 5);
}

#[test]
fn calibration_failure_aborts() {
    let mut s = Scheduler::new(2, options(SortOrder::Command, OutputStyleOption::Full));
    s.run_benchmarks();
    assert_eq!(s.advance(Event::CalibrationFailed), Step::Abort);
    assert_eq!(s.results().len(), 0);
}

#[test]
fn export_failure_aborts() {
    let mut s = Scheduler::new(2, options(SortOrder::Command, OutputStyleOption::Full));
    s.run_benchmarks();
    s.advance(Event::Calibrated);
    s.advance(Event::BenchmarkFinished(result("a", 5, None)));
    assert_eq!(s.advance(Event::ExportFailed), Step::Abort);
    assert_eq!(s.results().len(), 1);
}

#[test]
fn invalid_result_aborts() {
    let mut s = Scheduler::new(1, options(SortOrder::Command, OutputStyleOption::Full));
    s.run_benchmarks();
    s.advance(Event::Calibrated);
    let mut bad = result("a", 5, None);
    bad.min = 6;
    assert_eq!(s.advance(Event::BenchmarkFinished(bad)), Step::Abort);
    assert_eq!(s.results().len(), 0);
}

#[test]
fn no_commands_finishes_after_calibration() {
    let mut s = Scheduler::new(0, options(SortOrder::Command, OutputStyleOption::Full));
    s.run_benchmarks();
    assert_eq!(s.advance(Event::Calibrated), Step::Finished);
}

#[test]
fn event_out_of_turn_aborts() {
    let mut s = Scheduler::new(1, options(SortOrder::Command, OutputStyleOption::Full));
    assert_eq!(s.advance(Event::Exported), Step::Abort);
}

fn run_all(s: &mut Scheduler, results: Vec<BenchmarkResult>) {
    s.run_benchmarks();
    s.advance(Event::Calibrated);
    for r in results {
        s.advance(Event::BenchmarkFinished(r));
        s.advance(Event::Exported);
    }
}

#[test]
fn single_sample_single_command_prints_nothing() {
    let mut s = Scheduler::new(1, options(SortOrder::MeanTime, OutputStyleOption::Full));
    run_all(&mut s, vec![result("only", 1_000, None)]);
    assert_eq!(s.results()[0].stddev, None);
    assert!(matches!(s.print_relative_speed_comparison(), SpeedComparison::Skipped));
}

#[test]
fn zero_mean_prints_diagnostic() {
    let mut s = Scheduler::new(2, options(SortOrder::Command, OutputStyleOption::Full));
    run_all(&mut s, vec![result("a", 0, None), result("b", 3, None)]);
    assert!(matches!(s.print_relative_speed_comparison(), SpeedComparison::Undefined));
}

#[test]
fn disabled_output_prints_nothing() {
    let mut s = Scheduler::new(2, options(SortOrder::Command, OutputStyleOption::Disabled));
    run_all(&mut s, vec![result("a", 2, None), result("b", 3, None)]);
    assert!(matches!(s.print_relative_speed_comparison(), SpeedComparison::Skipped));
}

#[test]
fn summary_names_fastest_first() {
    let mut s = Scheduler::new(3, options(SortOrder::MeanTime, OutputStyleOption::Full));
    run_all(
        &mut s,
        vec![result("a", 300, Some(3)), result("b", 100, Some(1)), result("c", 200, None)],
    );
    match s.print_relative_speed_comparison() {
        SpeedComparison::Summary { fastest, others } => {
            assert_eq!(fastest.index, 1);
            assert!(fastest.is_fastest);
            let order: Vec<usize> = others.iter().map(|a| a.index).collect();
            assert_eq!(order, vec![2, 0]);
            assert_eq!(others[0].relative_speed, 2_000_000);
            assert_eq!(others[1].relative_speed, 3_000_000);
            assert!(others[1].relative_speed_stddev.is_some());
            assert_eq!(others[0].relative_speed_stddev, None);
        }
        _ => panic!("expected a summary"),
    }
}

#[test]
fn table_in_command_order() {
    let mut s = Scheduler::new(2, options(SortOrder::Command, OutputStyleOption::Full));
    run_all(&mut s, vec![result("a", 4, None), result("b", 2, None)]);
    match s.print_relative_speed_comparison() {
        SpeedComparison::Table(v) => {
            assert_eq!(v.len(), 2);
            assert_eq!(v[0].index, 0);
            assert_eq!(v[0].relative_speed, 2_000_000);
            assert!(v[1].is_fastest);
        }
        _ => panic!("expected a table"),
    }
}

#[test]
fn skipped_failure_goes_on_with_next_command() {
    let mut o = options(SortOrder::Command, OutputStyleOption::Full);
    o.command_failure_policy = CommandFailurePolicy::Skip;
    let mut s = Scheduler::new(3, o);
    s.run_benchmarks();
    s.advance(Event::Calibrated);
    s.advance(Event::BenchmarkFinished(result("a", 5, None)));
    assert_eq!(s.advance(Event::Exported), Step::RunBenchmark(1));
    assert_eq!(s.advance(Event::BenchmarkFailed), Step::RunBenchmark(2));
    assert_eq!(s.results().len(), 1);
    assert_eq!(
        s.advance(Event::BenchmarkFinished(result("c", 7, None))),
        Step::Export { count: 2, sort_order: SortOrder::Command, partial: true }
    );
    assert_eq!(s.results()[0].mean, 5);
    assert_eq!(s.results()[1].mean, 7);
    assert_eq!(s.advance(Event::Exported), Step::Finished);
    assert_eq!(
        s.final_export(),
        Step::Export { count: 2, sort_order: SortOrder::Command, partial: false }
    );
}

#[test]
fn skipped_failure_of_last_command_finishes() {
    let mut o = options(SortOrder::Command, OutputStyleOption::Full);
    o.command_failure_policy = CommandFailurePolicy::Skip;
    let mut s = Scheduler::new(1, o);
    s.run_benchmarks();
    s.advance(Event::Calibrated);
    assert_eq!(s.advance(Event::BenchmarkFailed), Step::Finished);
    assert_eq!(s.results().len(), 0);
}
