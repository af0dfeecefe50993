//! Error type for malformed inputs.

use vstd::prelude::*;

verus! {

/// Raised when a caller-supplied distance matrix is malformed: the matrix is
/// not square, or it is too large for distance sums to be computed exactly.
///
/// An empty input is not an error: a search over zero cities yields the empty
/// tour with distance zero.
#[derive(Clone, Copy, Debug, PartialEq, Eq, Structural)]
pub enum ShapeError {
    /// Some row's length differs from the number of rows.
    NotSquare,
    /// The matrix has more rows, or a larger entry, than the engine's exact
    /// integer arithmetic admits.
    TooLarge,
}

impl ShapeError {
    /// A short human-readable description.
    pub fn describe(&self) -> (s: &'static str)
        ensures
            *self is NotSquare ==> s@ == "distance matrix is not square"@,
            *self is TooLarge ==> s@ == "distance matrix is too large"@,
    {
        match self {
            ShapeError::NotSquare => "distance matrix is not square",
            ShapeError::TooLarge => "distance matrix is too large",
        }
    }
}

} // verus!
