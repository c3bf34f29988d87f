//! Block-tiled products and updates.
//!
//! The rows of a matrix are cut into tiles of a configured size, the last
//! one possibly shorter. Every tile is a unit of work of its own: it reads
//! only its rows and writes only its part of the result, so tiles can be
//! taken in any order. What comes out does not depend on the tile size.

use crate::linear::{
    col_dot_range, dot, dot_prefix, is_sign, is_sign_vec, mat_vec, rank_one_sub, row_less, vec_mat,
};
use crate::matrix::Matrix;
use crate::norm_lemmas::lemma_mul_sign;
use crate::views::{entries_of, signs_of, sums_of};
use vstd::prelude::*;

verus! {

/// The last row, exclusive, of the tile that starts at row `lo`.
pub open spec fn tile_end(lo: int, tile: int, n: int) -> int {
    if n - lo <= tile {
        n
    } else {
        lo + tile
    }
}

/// The last row, exclusive, of the tile that starts at row `lo`: a full
/// tile where that many rows are left, else all that are left.
pub fn tile_end_of(lo: usize, tile: usize, n: usize) -> (hi: usize)
    requires
        lo <= n,
    ensures
        hi == tile_end(lo as int, tile as int, n as int),
        lo <= hi <= n,
        tile > 0 && lo < n ==> lo < hi,
{
    if n - lo <= tile {
        n
    } else {
        lo + tile
    }
}

/// A share of a column sum splits at any row between its ends.
pub proof fn lemma_col_dot_split(r: Seq<Seq<int>>, u: Seq<int>, j: int, lo: int, mid: int, hi: int)
    requires
        lo <= mid <= hi,
    ensures
        col_dot_range(r, u, j, lo, hi) == col_dot_range(r, u, j, lo, mid) + col_dot_range(
            r,
            u,
            j,
            mid,
            hi,
        ),
    decreases hi - mid,
{
    if mid < hi {
        lemma_col_dot_split(r, u, j, lo, mid, hi - 1);
    }
}

/// A weight times two signs is the weight or its negation.
pub proof fn lemma_signed_weight(w: int, c: int, s: int)
    requires
        is_sign(c),
        is_sign(s),
    ensures
        w * c * s == (if c == s { w } else { -w }),
{
    assert(w * c * s == (if c == s { w } else { -w })) by (nonlinear_arith)
        requires
            c == 1 || c == -1,
            s == 1 || s == -1,
    ;
}

/// The dot product of a row with a sign vector.
pub fn row_dot(a: &Vec<i64>, v: &Vec<i8>) -> (sum: i128)
    requires
        a.len() == v.len(),
        is_sign_vec(signs_of(v@)),
    ensures
        sum as int == dot(entries_of(a@), signs_of(v@)),
{
    let ghost ea = entries_of(a@);
    let ghost sv = signs_of(v@);
    let mut acc: i128 = 0;
    let mut j: usize = 0;
    while j < a.len()
        invariant
            j <= a.len(),
            a.len() == v.len(),
            ea == entries_of(a@),
            sv == signs_of(v@),
            is_sign_vec(sv),
            acc as int == dot_prefix(ea, sv, j as int),
            -(j as int) * 0x8000_0000_0000_0000 <= acc as int <= (j as int) * 0x8000_0000_0000_0000,
        decreases a.len() - j,
    {
        let x: i128 = a[j] as i128;
        proof {
            assert(is_sign(sv[j as int]));
            lemma_mul_sign(ea[j as int], sv[j as int]);
        }
        if v[j] == 1 {
            acc = acc + x;
        } else {
            acc = acc - x;
        }
        j += 1;
    }
    acc
}

/// One tile of the product of a matrix with a sign vector: entries
/// `lo..hi` of `out` become the dot products of rows `lo..hi` with `v`.
/// The rest of `out` is left as it was.
pub fn mat_vec_tile(r: &Matrix, v: &Vec<i8>, lo: usize, hi: usize, out: &mut Vec<i128>)
    requires
        r.wf(),
        v.len() == r.ncols(),
        is_sign_vec(signs_of(v@)),
        lo <= hi <= r.nrows(),
        old(out).len() == r.nrows(),
    ensures
        final(out).len() == old(out).len(),
        forall|i: int| lo <= i < hi ==> (#[trigger] final(out)[i]) as int == dot(r@[i], signs_of(v@)),
        forall|i: int|
            0 <= i < final(out).len() && !(lo <= i < hi) ==> (#[trigger] final(out)[i]) == old(
                out,
            )[i],
{
    let mut i: usize = lo;
    while i < hi
        invariant
            r.wf(),
            v.len() == r.ncols(),
            is_sign_vec(signs_of(v@)),
            lo <= i <= hi <= r.nrows(),
            out.len() == r.nrows(),
            forall|k: int| lo <= k < i ==> (#[trigger] out[k]) as int == dot(r@[k], signs_of(v@)),
            forall|k: int| 0 <= k < out.len() && !(lo <= k < i) ==> (#[trigger] out[k]) == old(out)[k],
        decreases hi - i,
    {
        let sum = row_dot(r.row(i), v);
        out[i] = sum;
        i += 1;
    }
}

/// A vector of `n` zeros.
pub fn zeros(n: usize) -> (out: Vec<i128>)
    ensures
        out.len() == n,
        forall|i: int| 0 <= i < n ==> (#[trigger] out[i]) == 0,
{
    let mut out: Vec<i128> = Vec::new();
    let mut i: usize = 0;
    while i < n
        invariant
            i <= n,
            out.len() == i,
            forall|k: int| 0 <= k < i ==> (#[trigger] out[k]) == 0,
        decreases n - i,
    {
        out.push(0);
        i += 1;
    }
    out
}

/// The product of a matrix with a sign vector, computed tile by tile. The
/// result is the plain product, whatever the tile size.
pub fn mat_vec_tiled(r: &Matrix, v: &Vec<i8>, tile: usize) -> (out: Vec<i128>)
    requires
        r.wf(),
        v.len() == r.ncols(),
        is_sign_vec(signs_of(v@)),
        tile > 0,
    ensures
        out.len() == r.nrows(),
        sums_of(out@) == mat_vec(r@, signs_of(v@)),
{
    let n = r.rows();
    let mut out = zeros(n);
    let mut lo: usize = 0;
    while lo < n
        invariant
            r.wf(),
            n == r.nrows(),
            v.len() == r.ncols(),
            is_sign_vec(signs_of(v@)),
            tile > 0,
            lo <= n,
            out.len() == n,
            forall|k: int| 0 <= k < lo ==> (#[trigger] out[k]) as int == dot(r@[k], signs_of(v@)),
        decreases n - lo,
    {
        let hi = tile_end_of(lo, tile, n);
        mat_vec_tile(r, v, lo, hi, &mut out);
        lo = hi;
    }
    assert(sums_of(out@) =~= mat_vec(r@, signs_of(v@)));
    out
}

/// The product of a matrix with a sign vector, computed row after row
/// without tiles.
pub fn mat_vec_direct(r: &Matrix, v: &Vec<i8>) -> (out: Vec<i128>)
    requires
        r.wf(),
        v.len() == r.ncols(),
        is_sign_vec(signs_of(v@)),
    ensures
        out.len() == r.nrows(),
        sums_of(out@) == mat_vec(r@, signs_of(v@)),
{
    let n = r.rows();
    let mut out: Vec<i128> = Vec::new();
    let mut i: usize = 0;
    while i < n
        invariant
            r.wf(),
            n == r.nrows(),
            v.len() == r.ncols(),
            is_sign_vec(signs_of(v@)),
            i <= n,
            out.len() == i,
            forall|k: int| 0 <= k < i ==> (#[trigger] out[k]) as int == dot(r@[k], signs_of(v@)),
        decreases n - i,
    {
        out.push(row_dot(r.row(i), v));
        i += 1;
    }
    assert(sums_of(out@) =~= mat_vec(r@, signs_of(v@)));
    out
}

/// One tile of the product of a sign vector with a matrix: entry `j` of
/// the result is the sum of `u[i] * r[i][j]` over the rows `lo..hi` alone.
pub fn vec_mat_tile(r: &Matrix, u: &Vec<i8>, lo: usize, hi: usize) -> (part: Vec<i128>)
    requires
        r.wf(),
        u.len() == r.nrows(),
        is_sign_vec(signs_of(u@)),
        lo <= hi <= r.nrows(),
    ensures
        part.len() == r.ncols(),
        forall|j: int|
            0 <= j < part.len() ==> (#[trigger] part[j]) as int == col_dot_range(
                r@,
                signs_of(u@),
                j,
                lo as int,
                hi as int,
            ),
        forall|j: int|
            0 <= j < part.len() ==> -(hi - lo) * 0x8000_0000_0000_0000 <= (#[trigger] part[j]) as int
                <= (hi - lo) * 0x8000_0000_0000_0000,
{
    let m = r.cols();
    let ghost su = signs_of(u@);
    let mut part = zeros(m);
    let mut i: usize = lo;
    while i < hi
        invariant
            r.wf(),
            m == r.ncols(),
            u.len() == r.nrows(),
            su == signs_of(u@),
            is_sign_vec(su),
            lo <= i <= hi <= r.nrows(),
            part.len() == m,
            forall|j: int|
                0 <= j < m ==> (#[trigger] part[j]) as int == col_dot_range(
                    r@,
                    su,
                    j,
                    lo as int,
                    i as int,
                ),
            forall|j: int|
                0 <= j < m ==> -(i - lo) * 0x8000_0000_0000_0000 <= (#[trigger] part[j]) as int <= (i
                    - lo) * 0x8000_0000_0000_0000,
        decreases hi - i,
    {
        let plus = u[i] == 1;
        let mut j: usize = 0;
        while j < m
            invariant
                r.wf(),
                m == r.ncols(),
                u.len() == r.nrows(),
                su == signs_of(u@),
                is_sign_vec(su),
                lo <= i < hi <= r.nrows(),
                plus == (u[i as int] == 1),
                j <= m,
                part.len() == m,
                forall|l: int|
                    0 <= l < m ==> (#[trigger] part[l]) as int == col_dot_range(
                        r@,
                        su,
                        l,
                        lo as int,
                        if l < j { i + 1 } else { i as int },
                    ),
                forall|l: int|
                    0 <= l < m ==> -(i + 1 - lo) * 0x8000_0000_0000_0000 <= (#[trigger] part[l]) as int
                        <= (i + 1 - lo) * 0x8000_0000_0000_0000,
                forall|l: int|
                    j <= l < m ==> -(i - lo) * 0x8000_0000_0000_0000 <= (#[trigger] part[l]) as int
                        <= (i - lo) * 0x8000_0000_0000_0000,
            decreases m - j,
        {
            let x: i128 = r.get(i, j) as i128;
            let old_sum: i128 = part[j];
            proof {
                assert(is_sign(su[i as int]));
                lemma_mul_sign(r@[i as int][j as int], su[i as int]);
            }
            if plus {
                part[j] = old_sum + x;
            } else {
                part[j] = old_sum - x;
            }
            j += 1;
        }
        i += 1;
    }
    part
}

/// The product of a sign vector with a matrix, computed tile by tile: each
/// tile of rows is summed on its own, then the sums are combined. The
/// result is the plain product, whatever the tile size.
pub fn vec_mat_tiled(r: &Matrix, u: &Vec<i8>, tile: usize) -> (out: Vec<i128>)
    requires
        r.wf(),
        u.len() == r.nrows(),
        is_sign_vec(signs_of(u@)),
        tile > 0,
    ensures
        out.len() == r.ncols(),
        sums_of(out@) == vec_mat(signs_of(u@), r@, r.ncols() as int),
{
    let n = r.rows();
    let m = r.cols();
    let ghost su = signs_of(u@);
    let mut out = zeros(m);
    let mut lo: usize = 0;
    while lo < n
        invariant
            r.wf(),
            n == r.nrows(),
            m == r.ncols(),
            u.len() == n,
            su == signs_of(u@),
            is_sign_vec(su),
            tile > 0,
            lo <= n,
            out.len() == m,
            forall|j: int|
                0 <= j < m ==> (#[trigger] out[j]) as int == col_dot_range(r@, su, j, 0, lo as int),
            forall|j: int|
                0 <= j < m ==> -lo * 0x8000_0000_0000_0000 <= (#[trigger] out[j]) as int <= lo
                    * 0x8000_0000_0000_0000,
        decreases n - lo,
    {
        let hi = tile_end_of(lo, tile, n);
        let part = vec_mat_tile(r, u, lo, hi);
        let mut j: usize = 0;
        while j < m
            invariant
                m == r.ncols(),
                lo <= hi <= n,
                j <= m,
                out.len() == m,
                part.len() == m,
                forall|l: int|
                    0 <= l < m ==> (#[trigger] part[l]) as int == col_dot_range(
                        r@,
                        su,
                        l,
                        lo as int,
                        hi as int,
                    ),
                forall|l: int|
                    0 <= l < m ==> -(hi - lo) * 0x8000_0000_0000_0000 <= (#[trigger] part[l]) as int
                        <= (hi - lo) * 0x8000_0000_0000_0000,
                forall|l: int|
                    0 <= l < m ==> (#[trigger] out[l]) as int == col_dot_range(
                        r@,
                        su,
                        l,
                        0,
                        if l < j { hi as int } else { lo as int },
                    ),
                forall|l: int|
                    j <= l < m ==> -lo * 0x8000_0000_0000_0000 <= (#[trigger] out[l]) as int <= lo
                        * 0x8000_0000_0000_0000,
                forall|l: int|
                    0 <= l < j ==> -hi * 0x8000_0000_0000_0000 <= (#[trigger] out[l]) as int <= hi
                        * 0x8000_0000_0000_0000,
            decreases m - j,
        {
            proof {
                lemma_col_dot_split(r@, su, j as int, 0, lo as int, hi as int);
            }
            let a: i128 = out[j];
            let b: i128 = part[j];
            out[j] = a + b;
            j += 1;
        }
        lo = hi;
    }
    assert(sums_of(out@) =~= vec_mat(su, r@, m as int));
    out
}

/// One tile of a rank-one update: `w * u[i] * v[j]` is taken from every
/// entry of the rows `lo..hi`. The other rows are neither read nor written.
pub fn rank_one_update_tile(r: &mut Matrix, w: i64, u: &Vec<i8>, v: &Vec<i8>, lo: usize, hi: usize)
    requires
        old(r).wf(),
        u.len() == old(r).nrows(),
        v.len() == old(r).ncols(),
        is_sign_vec(signs_of(u@)),
        is_sign_vec(signs_of(v@)),
        lo <= hi <= old(r).nrows(),
        forall|i: int, j: int|
            lo <= i < hi && 0 <= j < old(r).ncols() ==> i64::MIN <= #[trigger] rank_one_sub(
                old(r)@,
                w as int,
                signs_of(u@),
                signs_of(v@),
            )[i][j] <= i64::MAX,
    ensures
        final(r).wf(),
        final(r).nrows() == old(r).nrows(),
        final(r).ncols() == old(r).ncols(),
        forall|i: int|
            lo <= i < hi ==> #[trigger] final(r)@[i] == row_less(
                old(r)@[i],
                w as int,
                signs_of(u@)[i],
                signs_of(v@),
            ),
        forall|i: int| 0 <= i < old(r).nrows() && !(lo <= i < hi) ==> #[trigger] final(r)@[i] == old(r)@[i],
{
    let m = r.cols();
    let ghost su = signs_of(u@);
    let ghost sv = signs_of(v@);
    let ghost goal = rank_one_sub(old(r)@, w as int, su, sv);
    let mut i: usize = lo;
    while i < hi
        invariant
            r.wf(),
            r.nrows() == old(r).nrows(),
            r.ncols() == old(r).ncols(),
            old(r).wf(),
            m == r.ncols(),
            u.len() == r.nrows(),
            v.len() == m,
            su == signs_of(u@),
            sv == signs_of(v@),
            is_sign_vec(su),
            is_sign_vec(sv),
            goal == rank_one_sub(old(r)@, w as int, su, sv),
            lo <= i <= hi <= r.nrows(),
            forall|k: int, j: int|
                lo <= k < hi && 0 <= j < m ==> i64::MIN <= #[trigger] goal[k][j] <= i64::MAX,
            forall|k: int| lo <= k < i ==> #[trigger] r@[k] == goal[k],
            forall|k: int| 0 <= k < r.nrows() && !(lo <= k < i) ==> #[trigger] r@[k] == old(r)@[k],
        decreases hi - i,
    {
        let same_as = u[i];
        let mut j: usize = 0;
        while j < m
            invariant
                r.wf(),
                r.nrows() == old(r).nrows(),
                r.ncols() == old(r).ncols(),
                old(r).wf(),
                m == r.ncols(),
                u.len() == r.nrows(),
                v.len() == m,
                su == signs_of(u@),
                sv == signs_of(v@),
                is_sign_vec(su),
                is_sign_vec(sv),
                same_as == u[i as int],
                goal == rank_one_sub(old(r)@, w as int, su, sv),
                lo <= i < hi <= r.nrows(),
                j <= m,
                forall|k: int, l: int|
                    lo <= k < hi && 0 <= l < m ==> i64::MIN <= #[trigger] goal[k][l] <= i64::MAX,
                forall|k: int| lo <= k < i ==> #[trigger] r@[k] == goal[k],
                forall|k: int|
                    0 <= k < r.nrows() && !(lo <= k <= i) ==> #[trigger] r@[k] == old(r)@[k],
                forall|l: int| 0 <= l < j ==> #[trigger] r@[i as int][l] == goal[i as int][l],
                forall|l: int| j <= l < m ==> #[trigger] r@[i as int][l] == old(r)@[i as int][l],
            decreases m - j,
        {
            let x: i128 = r.get(i, j) as i128;
            let t: i128 = if v[j] == same_as { w as i128 } else { -(w as i128) };
            proof {
                assert(is_sign(su[i as int]));
                assert(is_sign(sv[j as int]));
                lemma_signed_weight(w as int, su[i as int], sv[j as int]);
                assert(goal[i as int][j as int] == old(r)@[i as int][j as int] - (w as int)
                    * su[i as int] * sv[j as int]);
            }
            let y: i128 = x - t;
            r.set(i, j, y as i64);
            j += 1;
        }
        assert(r@[i as int] =~= goal[i as int]);
        i += 1;
    }
}

/// The rank-one update `r -= w * (u outer v)`, applied tile by tile.
pub fn rank_one_update(r: &mut Matrix, w: i64, u: &Vec<i8>, v: &Vec<i8>, tile: usize)
    requires
        old(r).wf(),
        u.len() == old(r).nrows(),
        v.len() == old(r).ncols(),
        is_sign_vec(signs_of(u@)),
        is_sign_vec(signs_of(v@)),
        tile > 0,
        forall|i: int, j: int|
            0 <= i < old(r).nrows() && 0 <= j < old(r).ncols() ==> i64::MIN
                <= #[trigger] rank_one_sub(old(r)@, w as int, signs_of(u@), signs_of(v@))[i][j]
                <= i64::MAX,
    ensures
        final(r).wf(),
        final(r).nrows() == old(r).nrows(),
        final(r).ncols() == old(r).ncols(),
        final(r)@ == rank_one_sub(old(r)@, w as int, signs_of(u@), signs_of(v@)),
{
    let n = r.rows();
    let ghost goal = rank_one_sub(old(r)@, w as int, signs_of(u@), signs_of(v@));
    let mut lo: usize = 0;
    while lo < n
        invariant
            r.wf(),
            old(r).wf(),
            r.nrows() == old(r).nrows(),
            r.ncols() == old(r).ncols(),
            n == r.nrows(),
            u.len() == n,
            v.len() == r.ncols(),
            is_sign_vec(signs_of(u@)),
            is_sign_vec(signs_of(v@)),
            tile > 0,
            lo <= n,
            goal == rank_one_sub(old(r)@, w as int, signs_of(u@), signs_of(v@)),
            forall|i: int, j: int|
                0 <= i < n && 0 <= j < r.ncols() ==> i64::MIN <= #[trigger] goal[i][j] <= i64::MAX,
            forall|k: int| 0 <= k < lo ==> #[trigger] r@[k] == goal[k],
            forall|k: int| lo <= k < n ==> #[trigger] r@[k] == old(r)@[k],
        decreases n - lo,
    {
        let hi = tile_end_of(lo, tile, n);
        let ghost before = r@;
        proof {
            let mid = rank_one_sub(before, w as int, signs_of(u@), signs_of(v@));
            assert forall|i: int, j: int| lo <= i < hi && 0 <= j < r.ncols() implies i64::MIN
                <= #[trigger] mid[i][j] <= i64::MAX by {
                assert(before[i] == old(r)@[i]);
                assert(mid[i][j] == goal[i][j]);
            }
        }
        rank_one_update_tile(r, w, u, v, lo, hi);
        proof {
            assert forall|k: int| 0 <= k < hi implies #[trigger] r@[k] == goal[k] by {
                if k >= lo {
                    assert(before[k] == old(r)@[k]);
                }
            }
        }
        lo = hi;
    }
    assert(r@ =~= goal);
}

} // verus!
