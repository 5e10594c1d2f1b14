use vstd::prelude::*;

verus! {

/// Largest supported time value, in microseconds (about twelve days).
pub const MAX_MICROS: u64 = 1099511627776;

/// Largest supported standard deviation, in microseconds.
pub const MAX_STDDEV_MICROS: u64 = 2199023255552;

/// The reduced outcome of benchmarking one command.
///
/// All times are whole microseconds.
pub struct BenchmarkResult {
    /// The command as it was executed (parameters substituted).
    pub command: String,
    /// The command annotated with the parameter bindings it did not use.
    pub command_with_unused_parameters: String,
    pub mean: u64,
    /// Absent when only one sample was taken.
    pub stddev: Option<u64>,
    pub median: u64,
    pub user: u64,
    pub system: u64,
    pub min: u64,
    pub max: u64,
    /// The wall time of each measured run, when they are kept.
    pub times: Option<Vec<u64>>,
    /// The exit code of each measured run, in order.
    pub exit_codes: Vec<Option<i32>>,
    /// Parameter name and bound value, one entry per name.
    pub parameters: Vec<(String, String)>,
}

impl BenchmarkResult {
    /// Checks the invariant at run time.
    pub fn is_valid(&self) -> (b: bool)
        ensures
            b == self.wf(),
    {
        if !(self.min <= self.mean && self.mean <= self.max && self.min <= self.median
            && self.median <= self.max && self.max <= MAX_MICROS && self.user <= MAX_MICROS
            && self.system <= MAX_MICROS) {
            return false;
        }
        match self.stddev {
            Some(s) => {
                if s > MAX_STDDEV_MICROS {
                    return false;
                }
            },
            None => {},
        }
        match &self.times {
            Some(t) => {
                if t.len() != self.exit_codes.len() {
                    return false;
                }
            },
            None => {},
        }
        let n = self.parameters.len();
        let mut i: usize = 0;
        while i < n
            invariant
                n == self.parameters@.len(),
                i <= n,
                forall|a: int, b: int|
                    0 <= a < b < n && a < i ==> self.parameters@[a].0@ != self.parameters@[b].0@,
            decreases n - i,
        {
            let mut j: usize = i + 1;
            while j < n
                invariant
                    n == self.parameters@.len(),
                    i < n,
                    i < j <= n,
                    forall|a: int, b: int|
                        0 <= a < b < n && a < i ==> self.parameters@[a].0@ != self.parameters@[b].0@,
                    forall|b: int| i < b < j ==> self.parameters@[i as int].0@ != self.parameters@[b].0@,
                decreases n - j,
            {
                if self.parameters[i].0 == self.parameters[j].0 {
                    return false;
                }
                j = j + 1;
            }
            i = i + 1;
        }
        true
    }

    /// The invariant of a result record.
    pub open spec fn wf(&self) -> bool {
        &&& self.min <= self.mean <= self.max
        &&& self.min <= self.median <= self.max
        &&& self.max <= MAX_MICROS
        &&& self.user <= MAX_MICROS
        &&& self.system <= MAX_MICROS
        &&& match self.stddev {
            Some(s) => s <= MAX_STDDEV_MICROS,
            None => true,
        }
        &&& match self.times {
            Some(t) => t@.len() == self.exit_codes@.len(),
            None => true,
        }
        &&& forall|i: int, j: int|
            0 <= i < j < self.parameters@.len() ==> self.parameters@[i].0@ != self.parameters@[j].0@
    }
}

/// Every record of the sequence satisfies its invariant.
pub open spec fn all_wf(rs: Seq<BenchmarkResult>) -> bool {
    forall|i: int| 0 <= i < rs.len() ==> #[trigger] rs[i].wf()
}

} // verus!
