//! The named failure kinds surfaced at the system boundary. The core
//! deduplication itself is total; these cover the validated inputs around
//! it: an unreadable input source, an output format the writer does not
//! support, and a malformed similarity threshold.

use vstd::prelude::*;

verus! {

/// A named boundary failure.
#[derive(Clone, Copy, PartialEq, Eq, Structural, Debug)]
pub enum DedupeError {
    /// The input source could not be read.
    InputUnreadable,
    /// The requested output format is not supported.
    UnsupportedOutputFormat,
    /// The supplied similarity threshold does not denote a value in [0, 1].
    InvalidThreshold,
}

} // verus!
