//! The runner: parsers, models and configuration of the benchmark runs.
pub mod args;
pub mod bin_bench;
pub mod cachegrind;
pub mod callgrind;
pub mod common;
pub mod costs;
pub mod dhat;
pub mod flamegraph;
pub mod launch;
pub mod summary;
pub mod tool;
