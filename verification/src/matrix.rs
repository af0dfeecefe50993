//! Pairwise distances between cities.
//!
//! A [`DistanceMatrix`] is pure data: an `N x N` table whose entry `(i, j)` is
//! the cost of travelling from city `i` to city `j`. Distances are held as
//! unsigned integers so that tour lengths can be summed exactly; a caller with
//! fractional costs scales them to a fixed-point grid of its choice before
//! building the matrix. Nothing here requires the matrix to be symmetric or to
//! have a zero diagonal, so asymmetric and non-Euclidean costs are admitted.

use vstd::prelude::*;

use crate::error::ShapeError;

verus! {

/// Largest admissible distance entry. Bounding every entry lets every tour
/// length (at most `MAX_CITIES + 1` edges) be summed in a `u64` without
/// overflow.
pub const MAX_DISTANCE: u64 = 0xFFFF_FFFF;

/// Largest admissible number of cities; small enough that `n * n` index
/// arithmetic cannot overflow a `usize` on any supported machine.
pub const MAX_CITIES: usize = 46340;

/// The rows of a `Vec<Vec<u64>>`, as a sequence of sequences.
pub open spec fn rows_view(rows: Seq<Vec<u64>>) -> Seq<Seq<u64>> {
    Seq::new(rows.len(), |i: int| rows[i]@)
}

/// Every row is exactly as long as the list of rows.
pub open spec fn square_shape(rows: Seq<Seq<u64>>) -> bool {
    forall|i: int| 0 <= i < rows.len() ==> (#[trigger] rows[i]).len() == rows.len()
}

/// The matrix is small enough for exact `u64` tour arithmetic: at most
/// `MAX_CITIES` rows, every entry at most `MAX_DISTANCE`.
pub open spec fn within_limits(rows: Seq<Seq<u64>>) -> bool {
    &&& rows.len() <= MAX_CITIES
    &&& forall|i: int, j: int|
        0 <= i < rows.len() && 0 <= j < rows.len() ==> #[trigger] rows[i][j] <= MAX_DISTANCE
}

/// An `N x N` table of pairwise distances, built once and read-only
/// thereafter.
#[derive(Debug)]
pub struct DistanceMatrix {
    rows: Vec<Vec<u64>>,
}

impl View for DistanceMatrix {
    type V = Seq<Seq<u64>>;

    closed spec fn view(&self) -> Seq<Seq<u64>> {
        rows_view(self.rows@)
    }
}

impl DistanceMatrix {
    /// The matrix is square and within the engine's arithmetic limits.
    pub open spec fn wf(self) -> bool {
        &&& square_shape(self@)
        &&& within_limits(self@)
    }

    /// Number of cities.
    pub open spec fn dim(self) -> nat {
        self@.len()
    }

    /// The distance from city `i` to city `j`; zero outside the square.
    pub open spec fn dist(self, i: int, j: int) -> u64 {
        if 0 <= i < self@.len() && 0 <= j < self@.len() {
            self@[i][j]
        } else {
            0
        }
    }

    /// The matrix agrees with its transpose, as a Euclidean one always does.
    pub open spec fn symmetric(self) -> bool {
        forall|i: int, j: int|
            0 <= i < self@.len() && 0 <= j < self@.len() ==> self.dist(i, j) == self.dist(j, i)
    }

    /// Builds a matrix from its rows. Returns `Ok` exactly when the input is
    /// square and within the engine's limits; the matrix then holds exactly
    /// the given entries.
    pub fn from_rows(rows: Vec<Vec<u64>>) -> (res: Result<DistanceMatrix, ShapeError>)
        ensures
            res is Ok <==> square_shape(rows_view(rows@)) && within_limits(rows_view(rows@)),
            res matches Ok(m) ==> m.wf() && m@ == rows_view(rows@) && m.dim() == rows@.len(),
            res == Err::<DistanceMatrix, ShapeError>(ShapeError::NotSquare) <==> !square_shape(
                rows_view(rows@),
            ),
            res == Err::<DistanceMatrix, ShapeError>(ShapeError::TooLarge) <==> square_shape(
                rows_view(rows@),
            ) && !within_limits(rows_view(rows@)),
    {
        let ghost v = rows_view(rows@);
        let n = rows.len();
        let mut i: usize = 0;
        while i < n
            invariant
                n == v.len(),
                v == rows_view(rows@),
                n == rows@.len(),
                0 <= i <= n,
                forall|k: int| 0 <= k < i ==> (#[trigger] v[k]).len() == n,
            decreases n - i,
        {
            if rows[i].len() != n {
                assert(v[i as int].len() != n);
                return Err(ShapeError::NotSquare);
            }
            i = i + 1;
        }
        assert(square_shape(v));
        if n > MAX_CITIES {
            return Err(ShapeError::TooLarge);
        }
        let mut i: usize = 0;
        while i < n
            invariant
                n == v.len(),
                v == rows_view(rows@),
                n == rows@.len(),
                square_shape(v),
                0 <= i <= n,
                forall|k: int, l: int|
                    0 <= k < i && 0 <= l < n ==> #[trigger] v[k][l] <= MAX_DISTANCE,
            decreases n - i,
        {
            let row = &rows[i];
            assert(row@ == v[i as int]);
            let row_len = row.len();
            let mut j: usize = 0;
            while j < row_len
                invariant
                    n == v.len(),
                    v == rows_view(rows@),
                    n == rows@.len(),
                    square_shape(v),
                    0 <= i < n,
                    0 <= j <= row_len,
                    row == &rows[i as int],
                    row@ == v[i as int],
                    row_len == row@.len(),
                    forall|l: int| 0 <= l < j ==> #[trigger] v[i as int][l] <= MAX_DISTANCE,
                decreases row_len - j,
            {
                if row[j] > MAX_DISTANCE {
                    assert(v[i as int][j as int] > MAX_DISTANCE);
                    return Err(ShapeError::TooLarge);
                }
                j = j + 1;
            }
            i = i + 1;
        }
        let m = DistanceMatrix { rows };
        assert(m@ == v);
        Ok(m)
    }

    /// Number of cities.
    pub fn n(&self) -> (r: usize)
        ensures
            r == self.dim(),
    {
        self.rows.len()
    }

    /// Tests whether the matrix agrees with its transpose. A symmetric matrix
    /// lets the engine recompute a 2-opt candidate's length incrementally.
    pub fn is_symmetric(&self) -> (b: bool)
        requires
            self.wf(),
        ensures
            b == self.symmetric(),
    {
        let n = self.n();
        let mut i: usize = 0;
        while i < n
            invariant
                self.wf(),
                n == self.dim(),
                0 <= i <= n,
                forall|k: int, l: int|
                    0 <= k < i && 0 <= l < n ==> self.dist(k, l) == self.dist(l, k),
            decreases n - i,
        {
            let mut j: usize = 0;
            while j < n
                invariant
                    self.wf(),
                    n == self.dim(),
                    0 <= i < n,
                    0 <= j <= n,
                    forall|k: int, l: int|
                        0 <= k < i && 0 <= l < n ==> self.dist(k, l) == self.dist(l, k),
                    forall|l: int| 0 <= l < j ==> self.dist(i as int, l) == self.dist(l, i as int),
                decreases n - j,
            {
                if self.at(i, j) != self.at(j, i) {
                    return false;
                }
                j = j + 1;
            }
            i = i + 1;
        }
        true
    }

    /// The distance from city `i` to city `j`.
    pub fn at(&self, i: usize, j: usize) -> (r: u64)
        requires
            self.wf(),
            i < self.dim(),
            j < self.dim(),
        ensures
            r == self.dist(i as int, j as int),
            r <= MAX_DISTANCE,
    {
        let row = &self.rows[i];
        assert(row@ == self@[i as int]);
        assert(row@.len() == self@.len());
        row[j]
    }
}

/// Matrix construction is deterministic: two matrices built from the same
/// rows hold the same entries. This is immediate from the exact contract of
/// [`DistanceMatrix::from_rows`], which pins every entry of its result.
pub proof fn lemma_from_rows_deterministic(
    a: DistanceMatrix,
    b: DistanceMatrix,
    rows: Seq<Seq<u64>>,
)
    requires
        a@ == rows,
        b@ == rows,
    ensures
        a@ == b@,
        forall|i: int, j: int| a.dist(i, j) == b.dist(i, j),
{
}

} // verus!
