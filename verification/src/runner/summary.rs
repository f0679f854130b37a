//! What the runner keeps of the summary of one benchmark run.
use vstd::prelude::*;

verus! {

/// The summary of a benchmark run, as far as the summaries of all benchmarks read it: whether
/// any of its metrics regressed. Its other contents are written out by the formatter of the
/// runner and read by nothing here.
#[derive(Debug, Clone, Copy, PartialEq, Eq, Structural)]
pub struct BenchmarkSummary {
    /// A metric of the benchmark regressed
    pub regressed: bool,
}

impl BenchmarkSummary {
    /// Return true if any metric of the benchmark regressed
    pub fn is_regressed(&self) -> (r: bool)
        ensures
            r == self.regressed,
    {
        self.regressed
    }
}

} // verus!
