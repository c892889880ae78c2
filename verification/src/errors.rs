//! Error taxonomy for the column projector.
//!
//! Every error is fatal at the point of detection: specification and
//! configuration errors arise before any row is read, projection errors
//! abort the stream at the offending record.

use vstd::prelude::*;

verus! {

/// A configuration was rejected before any I/O began.
#[derive(Debug, Clone, Copy, PartialEq, Eq)]
pub enum ConfigError {
    /// The requested delimiter is not exactly one byte.
    BadDelimiter,
}

/// A column specification string was rejected.
#[derive(Debug, Clone, Copy, PartialEq, Eq)]
pub enum ParseError {
    /// A token is not a decimal number (or does not fit in `usize`).
    InvalidNumber,
    /// A range token does not have exactly two parts.
    InvalidRange,
    /// A selected column is zero; columns are 1-based.
    InvalidColumn,
}

/// A requested header field name was not found in the header record.
#[derive(Debug, PartialEq, Eq)]
pub enum ResolutionError {
    /// Carries the name that the header does not contain.
    UnknownField(Vec<u8>),
}

/// A record is malformed relative to a resolved reorder specification.
#[derive(Debug, Clone, Copy, PartialEq, Eq)]
pub enum ProjectionError {
    /// Carries the 1-based column index that lies beyond the record's width.
    ColumnOutOfRange(usize),
}

} // verus!
