//! Common error type.

use vstd::prelude::*;

verus! {

/// Ways in which a vector file can be malformed.
#[derive(Debug, Clone, Copy, PartialEq, Eq, Structural)]
pub enum FormatError {
    /// The input ends in the middle of a record, or holds no record at all.
    Truncated,
    /// A record declares a dimension other than that of the first record.
    DimensionMismatch,
}

/// Common error type.
#[derive(Debug, Clone, Copy, PartialEq, Eq, Structural)]
pub enum Error {
    /// The vector file is malformed.
    Format(FormatError),
    /// A query vector's length differs from the data set's dimension.
    DimensionMismatch,
    /// A distance is not a finite number.
    NumericError,
    /// Two result sequences that must be compared differ in length.
    LengthMismatch,
    /// A computation was asked of an empty sequence.
    EmptyInput,
    /// Fewer samples than a statistic needs.
    InsufficientSamples,
    /// An index result lacks the identifier attribute.
    MissingAttribute,
    /// An index result's identifier attribute is not an unsigned 64-bit integer.
    AttributeTypeMismatch,
    /// The index failed to answer a query.
    IndexQueryFailure,
}

} // verus!
