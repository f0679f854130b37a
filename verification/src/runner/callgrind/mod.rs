//! Callgrind: output models, parsers and the cache summary.
pub mod args;
pub mod cache;
pub mod flamegraph;
pub mod flamegraph_parser;
pub mod hashmap_parser;
pub mod model;
pub mod order;
pub mod output;
pub mod parser;
pub mod sentinel_parser;
pub mod summary_parser;
