//! A dense matrix of integers, stored row by row.

use crate::linear::{dot_prefix, is_grid, sq_norm, sq_norm_prefix};
use crate::norm_lemmas::{lemma_dot_self_monotone, lemma_sq_norm_monotone};
use crate::views::{entries_of, grid_of};
use vstd::prelude::*;

verus! {

/// The largest squared norm the engine works with. Up to it every entry of
/// a matrix is below 2^62 in magnitude, so that the difference of two such
/// matrices fits `i64` entries, and every sum the engine forms fits an
/// `i128`.
pub const NORM_LIMIT: u128 = 0x0fff_ffff_ffff_ffff_ffff_ffff_ffff_ffff;

/// A matrix of `i64` entries with a fixed number of rows and columns.
pub struct Matrix {
    rows: usize,
    cols: usize,
    data: Vec<Vec<i64>>,
}

impl View for Matrix {
    type V = Seq<Seq<int>>;

    /// The matrix as rows of integers.
    closed spec fn view(&self) -> Seq<Seq<int>> {
        grid_of(self.data@)
    }
}

impl Matrix {
    /// The number of rows.
    pub closed spec fn nrows(&self) -> nat {
        self.rows as nat
    }

    /// The number of columns.
    pub closed spec fn ncols(&self) -> nat {
        self.cols as nat
    }

    /// The stored rows agree with the recorded shape.
    pub closed spec fn shaped(&self) -> bool {
        &&& self.data.len() == self.rows
        &&& forall|i: int| 0 <= i < self.rows ==> (#[trigger] self.data[i]).len() == self.cols
    }

    /// Well-formedness: the view is a grid of `nrows` by `ncols`.
    pub open spec fn wf(&self) -> bool {
        &&& self.shaped()
        &&& is_grid(self@, self.nrows() as int, self.ncols() as int)
    }

    /// The number of rows.
    pub fn rows(&self) -> (n: usize)
        ensures
            n == self.nrows(),
    {
        self.rows
    }

    /// The number of columns.
    pub fn cols(&self) -> (m: usize)
        ensures
            m == self.ncols(),
    {
        self.cols
    }

    /// The entry in row `i`, column `j`.
    pub fn get(&self, i: usize, j: usize) -> (x: i64)
        requires
            self.wf(),
            i < self.nrows(),
            j < self.ncols(),
        ensures
            x as int == self@[i as int][j as int],
    {
        self.data[i][j]
    }

    /// Row `i`.
    pub fn row(&self, i: usize) -> (a: &Vec<i64>)
        requires
            self.wf(),
            i < self.nrows(),
        ensures
            a.len() == self.ncols(),
            entries_of(a@) == self@[i as int],
    {
        &self.data[i]
    }

    /// Writes `x` into row `i`, column `j`; nothing else changes.
    pub fn set(&mut self, i: usize, j: usize, x: i64)
        requires
            old(self).wf(),
            i < old(self).nrows(),
            j < old(self).ncols(),
        ensures
            final(self).wf(),
            final(self).nrows() == old(self).nrows(),
            final(self).ncols() == old(self).ncols(),
            final(self)@ == old(self)@.update(i as int, old(self)@[i as int].update(j as int, x as int)),
    {
        self.data[i][j] = x;
        assert(self@ =~~= old(self)@.update(
            i as int,
            old(self)@[i as int].update(j as int, x as int),
        ));
    }

    /// A matrix of `rows` by `cols` with every entry equal to `value`.
    pub fn filled(rows: usize, cols: usize, value: i64) -> (m: Matrix)
        ensures
            m.wf(),
            m.nrows() == rows,
            m.ncols() == cols,
            forall|i: int, j: int| 0 <= i < rows && 0 <= j < cols ==> m@[i][j] == value,
    {
        let mut data: Vec<Vec<i64>> = Vec::new();
        let mut i: usize = 0;
        while i < rows
            invariant
                i <= rows,
                data.len() == i,
                forall|k: int| 0 <= k < i ==> (#[trigger] data[k]).len() == cols,
                forall|k: int, j: int| 0 <= k < i && 0 <= j < cols ==> (#[trigger] data[k][j]) == value,
            decreases rows - i,
        {
            let mut row: Vec<i64> = Vec::new();
            let mut j: usize = 0;
            while j < cols
                invariant
                    j <= cols,
                    row.len() == j,
                    forall|l: int| 0 <= l < j ==> row[l] == value,
                decreases cols - j,
            {
                row.push(value);
                j += 1;
            }
            data.push(row);
            i += 1;
        }
        Matrix { rows, cols, data }
    }

    /// The matrix whose rows are the given vectors, or `None` where they
    /// differ in length. Without rows the matrix has no columns.
    pub fn from_rows(rows: Vec<Vec<i64>>) -> (res: Option<Matrix>)
        ensures
            res.is_some() <==> forall|i: int|
                0 <= i < rows.len() ==> (#[trigger] rows[i]).len() == rows[0].len(),
            res matches Some(m) ==> {
                &&& m.wf()
                &&& m.nrows() == rows.len()
                &&& m.ncols() == (if rows.len() == 0 { 0 } else { rows[0].len() })
                &&& m@ == grid_of(rows@)
            },
    {
        let n = rows.len();
        let cols: usize = if n == 0 { 0 } else { rows[0].len() };
        let mut i: usize = 0;
        while i < n
            invariant
                i <= n,
                n == rows.len(),
                n > 0 ==> cols == rows[0].len(),
                forall|k: int| 0 <= k < i ==> (#[trigger] rows[k]).len() == cols,
            decreases n - i,
        {
            if rows[i].len() != cols {
                return None;
            }
            i += 1;
        }
        Some(Matrix { rows: n, cols, data: rows })
    }

    /// A copy of the rows, each as a vector of its own.
    pub fn to_rows(&self) -> (rows: Vec<Vec<i64>>)
        requires
            self.wf(),
        ensures
            rows.len() == self.nrows(),
            grid_of(rows@) == self@,
    {
        let mut out: Vec<Vec<i64>> = Vec::new();
        let mut i: usize = 0;
        while i < self.rows
            invariant
                self.wf(),
                i <= self.rows,
                out.len() == i,
                forall|k: int| 0 <= k < i ==> (#[trigger] out[k])@ == self.data[k]@,
            decreases self.rows - i,
        {
            let mut row: Vec<i64> = Vec::new();
            let mut j: usize = 0;
            while j < self.cols
                invariant
                    self.wf(),
                    i < self.rows,
                    j <= self.cols,
                    row.len() == j,
                    forall|l: int| 0 <= l < j ==> row[l] == self.data[i as int][l],
                decreases self.cols - j,
            {
                row.push(self.data[i][j]);
                j += 1;
            }
            assert(row@ =~= self.data[i as int]@);
            out.push(row);
            i += 1;
        }
        assert(grid_of(out@) =~~= self@);
        out
    }

    /// A copy of the matrix.
    pub fn copy(&self) -> (m: Matrix)
        requires
            self.wf(),
        ensures
            m.wf(),
            m.nrows() == self.nrows(),
            m.ncols() == self.ncols(),
            m@ == self@,
    {
        let data = self.to_rows();
        assert(forall|i: int| 0 <= i < self.rows ==> (#[trigger] data[i]).len() == self.cols) by {
            assert forall|i: int| 0 <= i < self.rows implies (#[trigger] data[i]).len()
                == self.cols by {
                assert(grid_of(data@)[i].len() == self@[i].len());
            }
        }
        Matrix { rows: self.rows, cols: self.cols, data }
    }

    /// The squared L2 norm of the matrix, or `None` where it is above
    /// `NORM_LIMIT`.
    pub fn squared_norm(&self) -> (res: Option<u128>)
        requires
            self.wf(),
        ensures
            res.is_some() <==> sq_norm(self@) <= NORM_LIMIT,
            res matches Some(s) ==> s == sq_norm(self@),
    {
        let mut total: u128 = 0;
        let mut i: usize = 0;
        while i < self.rows
            invariant
                self.wf(),
                i <= self.rows,
                total == sq_norm_prefix(self@, i as int),
                total <= NORM_LIMIT,
            decreases self.rows - i,
        {
            let mut j: usize = 0;
            let ghost a = self@[i as int];
            let ghost before = total as int;
            while j < self.cols
                invariant
                    self.wf(),
                    i < self.rows,
                    j <= self.cols,
                    a == self@[i as int],
                    total == before + dot_prefix(a, a, j as int),
                    total <= NORM_LIMIT,
                    before == sq_norm_prefix(self@, i as int),
                decreases self.cols - j,
            {
                let x: i128 = self.data[i][j] as i128;
                assert(-0x8000_0000_0000_0000 <= x <= 0x7fff_ffff_ffff_ffff);
                assert(0 <= x * x <= 0x4000_0000_0000_0000_0000_0000_0000_0000) by (nonlinear_arith)
                    requires
                        -0x8000_0000_0000_0000 <= x <= 0x7fff_ffff_ffff_ffff,
                ;
                let sq: u128 = (x * x) as u128;
                assert(a[j as int] == x);
                let next: u128 = total + sq;
                if next > NORM_LIMIT {
                    proof {
                        lemma_dot_self_monotone(a, j + 1, a.len() as int);
                        lemma_sq_norm_monotone(self@, i + 1, self@.len() as int);
                    }
                    return None;
                }
                total = next;
                j += 1;
            }
            i += 1;
        }
        Some(total)
    }
}

} // verus!
