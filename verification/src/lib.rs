//! Equal-area integerized sinusoidal (ISIN) binning grid.
//!
//! The grid partitions the globe into latitude rows of equal angular height;
//! each row holds a number of bins proportional to the cosine of its center
//! latitude, so every bin covers approximately the same surface area. Bins
//! are numbered row-major with 1-based ids, contiguously and without gaps.
//!
//! This crate holds the integer geometry of the grid: the per-row table of
//! bin counts and cumulative base-bin offsets, the lookup from a bin id to
//! its row by binary search, and the placement of a (row, column) cell at a
//! bin id. The trigonometric step that chooses each row's bin count, and the
//! floating-point conversions between angles and rows or columns, live with
//! the callers; they hand this crate plain integers.

pub mod errors;
pub mod grid;
pub mod satellites;
