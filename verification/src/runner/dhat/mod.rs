//! The model and the analysis of DHAT output.
pub mod format;
pub mod json_model;
pub mod json_parser;
pub mod logfile_parser;
pub mod model;
pub mod tree;

use vstd::prelude::*;

verus! {

/// The summary of a log file: the command, the pid and the fields of the header
#[derive(Debug, Clone)]
pub struct LogfileSummary {
    pub command: String,
    pub pid: i32,
    pub fields: Vec<(String, String)>,
}

} // verus!
