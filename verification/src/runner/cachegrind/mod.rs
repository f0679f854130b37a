//! Cachegrind: the parsers of the header and of the summary of its output files.
pub mod parser;
pub mod summary_parser;
