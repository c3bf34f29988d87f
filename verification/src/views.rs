//! How machine vectors are read as sequences of mathematical integers.

use vstd::prelude::*;

verus! {

/// The entries of a row of a matrix, as integers.
pub open spec fn entries_of(s: Seq<i64>) -> Seq<int> {
    Seq::new(s.len(), |j: int| s[j] as int)
}

/// A vector of signs, as integers.
pub open spec fn signs_of(s: Seq<i8>) -> Seq<int> {
    Seq::new(s.len(), |j: int| s[j] as int)
}

/// A vector of wide sums, as integers.
pub open spec fn sums_of(s: Seq<i128>) -> Seq<int> {
    Seq::new(s.len(), |j: int| s[j] as int)
}

/// The rows of a nested vector, as a matrix of integers.
pub open spec fn grid_of(rows: Seq<Vec<i64>>) -> Seq<Seq<int>> {
    Seq::new(rows.len(), |i: int| entries_of(rows[i]@))
}

} // verus!
