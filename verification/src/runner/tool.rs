//! The output paths of the valgrind tools.
use vstd::prelude::*;

verus! {

/// The baseline a benchmark run compares with: the previous run (`old`), or a named baseline
#[derive(Debug, Clone, PartialEq, Eq)]
pub enum BaselineKind {
    /// The output of the previous run
    Old,
    /// A baseline with a name
    Name(String),
}

/// The kind of an output file of a tool
#[derive(Debug, Clone, PartialEq, Eq)]
pub enum ToolOutputPathKind {
    /// The output file of this run
    Out,
    /// The output file of the previous run
    OldOut,
    /// The log file of this run
    Log,
    /// The log file of the previous run
    OldLog,
    /// The output file of a named baseline
    Base(String),
    /// The log file of a named baseline
    BaseLog(String),
}

/// The output path of a tool: its kind, the baseline, the directory and the name of the
/// benchmark
#[derive(Debug, Clone, PartialEq, Eq)]
pub struct ToolOutputPath {
    pub kind: ToolOutputPathKind,
    pub baseline_kind: BaselineKind,
    pub dir: String,
    pub name: String,
}

} // verus!
