use vstd::prelude::*;

verus! {

/// A query was given a scalar outside its valid domain. Each variant names
/// the domain that was violated; for bin ids the violated bound is carried,
/// so a caller can report the grid's limit without re-deriving it.
#[derive(Debug, PartialEq, Eq)]
pub enum IsinError {
    /// A bin id fell outside `[1, max_bin]`.
    InvalidBinRange { max_bin: usize },
    /// A latitude fell outside `[-90, 90]` degrees.
    InvalidLatitude,
    /// A longitude fell outside `[-180, 180]` degrees.
    InvalidLongitude,
}

/// Grid construction was given an invalid parameter; no partial table is
/// produced.
#[derive(Debug, PartialEq, Eq)]
pub enum ConfigError {
    /// The grid was given no rows at all.
    NoRows,
    /// Some row was given a bin count of zero.
    EmptyRow,
    /// The bin counts add up to more bins than a `usize` can number.
    TooManyBins,
}

} // verus!
