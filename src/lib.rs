//! Measures the quality of an approximate nearest-neighbour index against an
//! exact brute-force baseline.
//!
//! The library holds the logic of a benchmark run: the `fvecs` vector-file
//! parser, the exact bounded top-k search, recall evaluation, the
//! nearest-rank order statistics and the decisions of the batch loop.
//! Floating-point arithmetic, clocks and the index itself are supplied by the
//! caller as plain values.

mod error;
pub mod fvecs;
pub mod harness;
pub mod recall;
pub mod search;
pub mod stats;

pub use error::{Error, FormatError};
pub use fvecs::{read_fvecs, VectorSet};
pub use harness::{identifiers, AttributeValue, BatchRun, Step};
pub use recall::{calculate_recall, Recall};
pub use search::nearest;
pub use stats::{bessel_divisor, from_order_key, order_key, order_statistics, OrderStats};
