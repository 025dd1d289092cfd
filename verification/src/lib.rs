//! Deduplication of tabular records: rows of string fields are filtered
//! first by exact structural equality (first occurrence wins), then by a
//! Jaccard set-overlap similarity against a caller-supplied threshold.

pub mod errors;
pub mod exact;
pub mod output;
pub mod probabilistic;
pub mod similarity;
