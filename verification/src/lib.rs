//! Reads two benchmark reports, an old and a new one, pairs the measurements
//! that both hold, and gives each pair as a diff.
//!
//! A report is text. Its table is the last block of the text; the first line
//! of the table is a header, and every other line holds the fields
//! `name mode count score <passed over> error units`, separated by white
//! space. A line that does not read is left out and gives a failure; it
//! never stops the reading of the other lines.
//!
//! Scores are kept as the text that the report gives for them, which always
//! writes a floating-point number: the library holds no floating-point
//! value and leaves their arithmetic to its caller.

pub mod block;
pub mod config;
pub mod diff;
pub mod failure;
pub mod fields;
pub mod measurement;
pub mod mode;
pub mod number;
pub mod record;
pub mod report;
pub mod text;

pub use crate::block::{parse_block, parse_report};
pub use crate::config::Config;
pub use crate::diff::{calculate_delta, compare_benchmark_results, Diff};
pub use crate::failure::ParseFailure;
pub use crate::measurement::Measurement;
pub use crate::mode::Mode;
pub use crate::record::{parse_row, Record};
pub use crate::report::{compare_reports, Comparison};
