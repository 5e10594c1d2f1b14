use vstd::prelude::*;

use crate::options::{CommandFailurePolicy, OutputStyleOption, Options, SortOrder};
use crate::relative_speed::{
    compute_with_check, has_zero_mean, is_comparison, lemma_fastest_leads_by_mean, AnnotatedResult,
};
use crate::result::{all_wf, BenchmarkResult};

verus! {

/// Where a run stands.
#[derive(Clone, Copy, Debug, PartialEq, Eq, Structural)]
pub enum Phase {
    Initializing,
    Calibrating,
    /// Waiting for the benchmark of the command with this index.
    Running(usize),
    /// Waiting for the partial export after the command with this index.
    Exporting(usize),
    Done,
    Failed,
}

/// What the driver of a run reports back after performing a `Step`.
pub enum Event {
    /// The run is to begin.
    Start,
    Calibrated,
    /// The executor could not spawn anything.
    CalibrationFailed,
    BenchmarkFinished(BenchmarkResult),
    /// A command failed, e.g. with a non-zero exit code that was not permitted.
    BenchmarkFailed,
    Exported,
    ExportFailed,
}

/// What the driver of a run is to do next.
#[derive(Clone, Copy, Debug, PartialEq, Eq, Structural)]
pub enum Step {
    /// Calibrate the executor that the options select.
    Calibrate,
    /// Benchmark the command with this index.
    RunBenchmark(usize),
    /// Export the first `count` results.
    Export { count: usize, sort_order: SortOrder, partial: bool },
    /// All commands were benchmarked and exported.
    Finished,
    /// The run is over with an error.
    Abort,
}

/// The next phase, results and step of a run of `n` commands.
pub open spec fn transition(
    phase: Phase,
    n: nat,
    results: Seq<BenchmarkResult>,
    export_order: SortOrder,
    failure_policy: CommandFailurePolicy,
    event: Event,
) -> (Phase, Seq<BenchmarkResult>, Step) {
    match (phase, event) {
        (Phase::Initializing, Event::Start) => (Phase::Calibrating, results, Step::Calibrate),
        (Phase::Calibrating, Event::Calibrated) => if n == 0 {
            (Phase::Done, results, Step::Finished)
        } else {
            (Phase::Running(0), results, Step::RunBenchmark(0))
        },
        (Phase::Running(i), Event::BenchmarkFinished(r)) => if r.wf() {
            (
                Phase::Exporting(i),
                results.push(r),
                Step::Export {
                    count: (results.len() + 1) as usize,
                    sort_order: export_order,
                    partial: true,
                },
            )
        } else {
            (Phase::Failed, results, Step::Abort)
        },
        (Phase::Running(i), Event::BenchmarkFailed) => match failure_policy {
            CommandFailurePolicy::Abort => (Phase::Failed, results, Step::Abort),
            CommandFailurePolicy::Skip => if i + 1 < n {
                (Phase::Running((i + 1) as usize), results, Step::RunBenchmark((i + 1) as usize))
            } else {
                (Phase::Done, results, Step::Finished)
            },
        },
        (Phase::Exporting(i), Event::Exported) => if i + 1 < n {
            (Phase::Running((i + 1) as usize), results, Step::RunBenchmark((i + 1) as usize))
        } else {
            (Phase::Done, results, Step::Finished)
        },
        _ => (Phase::Failed, results, Step::Abort),
    }
}

/// What the relative speed comparison shows.
pub enum SpeedComparison {
    /// Nothing: output is disabled, or there are fewer than two results.
    Skipped,
    /// The fastest mean is zero: a diagnostic is shown instead.
    Undefined,
    /// The fastest result, then the others by ascending mean time.
    Summary { fastest: AnnotatedResult, others: Vec<AnnotatedResult> },
    /// Every result in command order.
    Table(Vec<AnnotatedResult>),
}

/// Drives a run: benchmarks the commands in order and keeps their results.
pub struct Scheduler {
    num_commands: usize,
    options: Options,
    results: Vec<BenchmarkResult>,
    phase: Phase,
}

impl Scheduler {
    #[verifier::type_invariant]
    spec fn inv(&self) -> bool {
        &&& all_wf(self.results@)
        &&& phase_holds(self.phase, self.num_commands as nat, self.results@.len())
    }

    /// The results collected so far, in command order.
    pub closed spec fn results_view(&self) -> Seq<BenchmarkResult> {
        self.results@
    }

    pub closed spec fn phase_view(&self) -> Phase {
        self.phase
    }

    pub closed spec fn num_commands_view(&self) -> nat {
        self.num_commands as nat
    }

    pub closed spec fn options_view(&self) -> Options {
        self.options
    }

    /// A scheduler for `num_commands` commands that has not started.
    pub fn new(num_commands: usize, options: Options) -> (s: Scheduler)
        ensures
            s.results_view().len() == 0,
            s.phase_view() == Phase::Initializing,
            s.num_commands_view() == num_commands,
            s.options_view() == options,
    {
        Scheduler { num_commands, options, results: Vec::new(), phase: Phase::Initializing }
    }

    /// The options of the run.
    pub fn options(&self) -> (r: &Options)
        ensures
            *r == self.options_view(),
    {
        &self.options
    }

    /// The results collected so far.
    pub fn results(&self) -> (r: &Vec<BenchmarkResult>)
        ensures
            r@ == self.results_view(),
            all_wf(r@),
            phase_holds(self.phase_view(), self.num_commands_view(), r@.len()),
    {
        proof {
            use_type_invariant(self);
        }
        &self.results
    }

    /// Moves the run on by one event and returns what is to be done next.
    pub fn advance(&mut self, event: Event) -> (step: Step)
        ensures
            (final(self).phase_view(), final(self).results_view(), step) == transition(
                old(self).phase_view(),
                old(self).num_commands_view(),
                old(self).results_view(),
                old(self).options_view().sort_order_exports,
                old(self).options_view().command_failure_policy,
                event,
            ),
            final(self).num_commands_view() == old(self).num_commands_view(),
            final(self).options_view() == old(self).options_view(),
    {
        proof {
            use_type_invariant(&*self);
        }
        let ghost ev = event;
        match (self.phase, event) {
            (Phase::Initializing, Event::Start) => {
                self.phase = Phase::Calibrating;
                Step::Calibrate
            },
            (Phase::Calibrating, Event::Calibrated) => {
                if self.num_commands == 0 {
                    self.phase = Phase::Done;
                    Step::Finished
                } else {
                    self.phase = Phase::Running(0);
                    Step::RunBenchmark(0)
                }
            },
            (Phase::Running(i), Event::BenchmarkFinished(r)) => {
                if r.is_valid() {
                    // The results are taken out for the push, so that the
                    // invariant holds at every point.
                    self.phase = Phase::Failed;
                    let mut taken: Vec<BenchmarkResult> = Vec::new();
                    core::mem::swap(&mut self.results, &mut taken);
                    taken.push(r);
                    core::mem::swap(&mut self.results, &mut taken);
                    self.phase = Phase::Exporting(i);
                    Step::Export {
                        count: self.results.len(),
                        sort_order: self.options.sort_order_exports,
                        partial: true,
                    }
                } else {
                    self.phase = Phase::Failed;
                    Step::Abort
                }
            },
            (Phase::Running(i), Event::BenchmarkFailed) => {
                match self.options.command_failure_policy {
                    CommandFailurePolicy::Abort => {
                        self.phase = Phase::Failed;
                        Step::Abort
                    },
                    CommandFailurePolicy::Skip => {
                        if i + 1 < self.num_commands {
                            self.phase = Phase::Running(i + 1);
                            Step::RunBenchmark(i + 1)
                        } else {
                            self.phase = Phase::Done;
                            Step::Finished
                        }
                    },
                }
            },
            (Phase::Exporting(i), Event::Exported) => {
                if i + 1 < self.num_commands {
                    self.phase = Phase::Running(i + 1);
                    Step::RunBenchmark(i + 1)
                } else {
                    self.phase = Phase::Done;
                    Step::Finished
                }
            },
            _ => {
                self.phase = Phase::Failed;
                Step::Abort
            },
        }
    }

    /// Starts the run: the executor is calibrated first.
    pub fn run_benchmarks(&mut self) -> (step: Step)
        ensures
            (final(self).phase_view(), final(self).results_view(), step) == transition(
                old(self).phase_view(),
                old(self).num_commands_view(),
                old(self).results_view(),
                old(self).options_view().sort_order_exports,
                old(self).options_view().command_failure_policy,
                Event::Start,
            ),
            old(self).phase_view() == Phase::Initializing ==> step == Step::Calibrate,
            final(self).num_commands_view() == old(self).num_commands_view(),
            final(self).options_view() == old(self).options_view(),
    {
        self.advance(Event::Start)
    }

    /// The last export of the run: all results, not partial.
    pub fn final_export(&self) -> (step: Step)
        ensures
            step == (Step::Export {
                count: self.results_view().len() as usize,
                sort_order: self.options_view().sort_order_exports,
                partial: false,
            }),
    {
        Step::Export {
            count: self.results.len(),
            sort_order: self.options.sort_order_exports,
            partial: false,
        }
    }

    /// Decides what the relative speed comparison shows.
    pub fn print_relative_speed_comparison(&self) -> (r: SpeedComparison)
        ensures
            r is Skipped <==> (self.options_view().output_style == OutputStyleOption::Disabled
                || self.results_view().len() < 2),
            !(r is Skipped) ==> (r is Undefined <==> has_zero_mean(self.results_view())),
            r matches SpeedComparison::Summary { fastest, others } ==> {
                &&& self.options_view().sort_order_speed_comparison == SortOrder::MeanTime
                &&& is_comparison(self.results_view(), SortOrder::MeanTime, seq![fastest] + others@)
                &&& fastest.is_fastest
                &&& forall|k: int| 0 <= k < others@.len() ==> !(#[trigger] others@[k]).is_fastest
            },
            r matches SpeedComparison::Table(v) ==> {
                &&& self.options_view().sort_order_speed_comparison == SortOrder::Command
                &&& is_comparison(self.results_view(), SortOrder::Command, v@)
            },
            !(r is Skipped) && !(r is Undefined) ==> match self.options_view().sort_order_speed_comparison {
                SortOrder::MeanTime => r is Summary,
                SortOrder::Command => r is Table,
            },
    {
        proof {
            use_type_invariant(self);
        }
        if self.options.output_style == OutputStyleOption::Disabled {
            return SpeedComparison::Skipped;
        }
        if self.results.len() < 2 {
            return SpeedComparison::Skipped;
        }
        let order = self.options.sort_order_speed_comparison;
        match compute_with_check(&self.results, order) {
            None => SpeedComparison::Undefined,
            Some(v) => {
                match order {
                    SortOrder::MeanTime => {
                        let mut others = v;
                        let ghost all = others@;
                        proof {
                            lemma_fastest_leads_by_mean(self.results@, all);
                        }
                        let fastest = others.remove(0);
                        proof {
                            assert(all =~= seq![fastest] + others@);
                            assert forall|k: int| 0 <= k < others@.len() implies !(#[trigger] others@[k]).is_fastest by {
                                assert(others@[k] == all[k + 1]);
                            }
                        }
                        SpeedComparison::Summary { fastest, others }
                    },
                    SortOrder::Command => SpeedComparison::Table(v),
                }
            },
        }
    }
}

/// After the benchmark of command `i` finishes, the export that follows
/// covers the results that came before, unchanged, and the new one. A
/// failed benchmark leaves the results unchanged: the run ends, or, where
/// failures are skipped, goes on with the next command.
pub proof fn lemma_partial_export_is_prefix(
    i: usize,
    n: nat,
    results: Seq<BenchmarkResult>,
    export_order: SortOrder,
    failure_policy: CommandFailurePolicy,
    r: BenchmarkResult,
)
    requires
        i < n <= usize::MAX,
        results.len() <= i,
        r.wf(),
    ensures
        ({
            let (phase, new_results, step) = transition(
                Phase::Running(i),
                n,
                results,
                export_order,
                failure_policy,
                Event::BenchmarkFinished(r),
            );
            &&& step == (Step::Export {
                count: (results.len() + 1) as usize,
                sort_order: export_order,
                partial: true,
            })
            &&& new_results.len() == results.len() + 1
            &&& new_results.subrange(0, results.len() as int) == results
            &&& new_results[results.len() as int] == r
        }),
        ({
            let (phase, new_results, step) = transition(
                Phase::Running(i),
                n,
                results,
                export_order,
                failure_policy,
                Event::BenchmarkFailed,
            );
            &&& new_results == results
            &&& failure_policy == CommandFailurePolicy::Abort ==> step == Step::Abort
            &&& failure_policy == CommandFailurePolicy::Skip ==> step == (if i + 1 < n {
                Step::RunBenchmark((i + 1) as usize)
            } else {
                Step::Finished
            })
        }),
{
    let new_results = results.push(r);
    assert(new_results.subrange(0, results.len() as int) =~= results);
}

/// The number of results that a phase of a run of `n` commands holds.
pub open spec fn phase_holds(phase: Phase, n: nat, count: nat) -> bool {
    match phase {
        Phase::Initializing => count == 0,
        Phase::Calibrating => count == 0,
        Phase::Running(i) => i < n && count <= i,
        Phase::Exporting(i) => i < n && 1 <= count <= i + 1,
        Phase::Done => count <= n,
        Phase::Failed => count <= n,
    }
}

/// Whatever the event, the results already collected stay as they are
/// and at most one is appended; every export that follows covers exactly
/// the results held after the event, and the phase still accounts for them.
pub proof fn lemma_results_only_grow(
    phase: Phase,
    n: nat,
    results: Seq<BenchmarkResult>,
    export_order: SortOrder,
    failure_policy: CommandFailurePolicy,
    event: Event,
)
    requires
        n <= usize::MAX,
        phase_holds(phase, n, results.len()),
    ensures
        ({
            let (new_phase, new_results, step) = transition(
                phase,
                n,
                results,
                export_order,
                failure_policy,
                event,
            );
            &&& new_results.len() <= results.len() + 1
            &&& new_results.subrange(0, results.len() as int) == results
            &&& phase_holds(new_phase, n, new_results.len())
            &&& match step {
                Step::Export { count, partial, .. } => count == new_results.len() && partial,
                _ => true,
            }
        }),
{
    let (new_phase, new_results, step) = transition(
        phase,
        n,
        results,
        export_order,
        failure_policy,
        event,
    );
    assert(new_results.subrange(0, results.len() as int) =~= results);
}

} // verus!
