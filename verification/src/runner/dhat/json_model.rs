//! The model of the json output file of DHAT.
use vstd::prelude::*;

verus! {

/// The json output file of DHAT
#[derive(Debug, Clone)]
pub struct Dhat {
    pub dhat_file_version: usize,
    pub mode: String,
    pub verb: String,
    pub has_block_lifetimes: bool,
    pub has_block_accesses: bool,
    pub byte_unit: Option<String>,
    pub bytes_unit: Option<String>,
    pub block_unit: Option<String>,
    pub time_unit: String,
    pub time_unit_m: String,
    pub time_threshold: usize,
    pub command: String,
    pub pid: i32,
    pub time_end: u64,
    pub time_global_max: u64,
    pub program_points: Vec<ProgramPoint>,
    pub frame_table: Vec<String>,
}

/// A program point of the json output file of DHAT
#[derive(Debug, Clone)]
pub struct ProgramPoint {
    pub total_bytes: u64,
    pub total_blocks: u64,
    pub total_lifetimes: Option<u64>,
    pub maximum_bytes: Option<u64>,
    pub maximum_blocks: Option<u64>,
    pub bytes_at_max: Option<u64>,
    pub blocks_at_max: Option<u64>,
    pub bytes_at_end: Option<u64>,
    pub blocks_at_end: Option<u64>,
    pub blocks_read: Option<u64>,
    pub blocks_write: Option<u64>,
    pub accesses: Option<Vec<i64>>,
    pub frames: Vec<usize>,
}

} // verus!
