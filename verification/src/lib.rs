//! Normalises the leading block of ES-module `import` lines of a source file.
//!
//! The lines are parsed into declarations, which are merged by module, or
//! freed of repeated lines, and sorted, as the rules of the optimizer say;
//! the result is written as a canonical import block in front of the
//! untouched rest of the file.

pub mod chars;
pub mod dedup;
pub mod format;
pub mod laws;
pub mod lines;
pub mod merge;
pub mod model;
pub mod optimizer;
pub mod order;
pub mod parse;
pub mod round_trip;
pub mod text;
pub mod utf8_order;

pub use optimizer::{run_test_case, ImportOptimizer};
