use vstd::prelude::*;

verus! {

/// How commands are spawned for the whole run.
pub enum ExecutorKind {
    /// Spawn the program and its arguments directly, without a shell.
    Raw,
    /// Spawn the given shell and hand it the command string.
    Shell(String),
    /// Spawn nothing and report deterministic timings; the optional
    /// string configures the mock.
    Mock(Option<String>),
}

/// The order in which results are listed.
#[derive(Clone, Copy, Debug, PartialEq, Eq, Structural)]
pub enum SortOrder {
    /// The order in which the commands were declared.
    Command,
    /// Ascending mean time.
    MeanTime,
}

/// How results are shown on the terminal.
#[derive(Clone, Copy, Debug, PartialEq, Eq, Structural)]
pub enum OutputStyleOption {
    Basic,
    Full,
    NoColor,
    Color,
    Disabled,
}

/// What a run does when a command fails.
#[derive(Clone, Copy, Debug, PartialEq, Eq, Structural)]
pub enum CommandFailurePolicy {
    /// End the whole run.
    Abort,
    /// Go on with the next command; the failed one leaves no result.
    Skip,
}

/// The read-only configuration of one run.
pub struct Options {
    pub executor_kind: ExecutorKind,
    pub sort_order_exports: SortOrder,
    pub sort_order_speed_comparison: SortOrder,
    pub output_style: OutputStyleOption,
    pub command_failure_policy: CommandFailurePolicy,
}

} // verus!
