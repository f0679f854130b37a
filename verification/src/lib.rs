//! Verified core of a benchmark runner for Valgrind tools.
pub mod api;
pub mod callgrind;
pub mod collections;
pub mod error;
pub mod internal;
pub mod runner;
pub mod ordering;
pub mod paths;
pub mod pattern;
pub mod text;
pub mod util;
