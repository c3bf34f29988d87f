//! The mathematics the engine is stated in: sign vectors, dot products,
//! squared norms and rank-one updates over unbounded integers.

use vstd::prelude::*;

verus! {

/// A sign is +1 or -1.
pub open spec fn is_sign(x: int) -> bool {
    x == 1 || x == -1
}

/// Every entry of `v` is a sign.
pub open spec fn is_sign_vec(v: Seq<int>) -> bool {
    forall|i: int| 0 <= i < v.len() ==> is_sign(#[trigger] v[i])
}

/// `r` has `n` rows of `m` entries each.
pub open spec fn is_grid(r: Seq<Seq<int>>, n: int, m: int) -> bool {
    r.len() == n && forall|i: int| 0 <= i < n ==> (#[trigger] r[i]).len() == m
}

/// The sum of `a[j] * b[j]` over `j < k`.
pub open spec fn dot_prefix(a: Seq<int>, b: Seq<int>, k: int) -> int
    decreases k,
{
    if k <= 0 {
        0
    } else {
        dot_prefix(a, b, k - 1) + a[k - 1] * b[k - 1]
    }
}

/// The dot product of `a` and `b`, taken over the length of `a`.
pub open spec fn dot(a: Seq<int>, b: Seq<int>) -> int {
    dot_prefix(a, b, a.len() as int)
}

/// The sum of `u[i] * r[i][j]` over the rows `lo <= i < hi`: the share of
/// the rows `lo..hi` in entry `j` of the product of `u` with `r`.
pub open spec fn col_dot_range(r: Seq<Seq<int>>, u: Seq<int>, j: int, lo: int, hi: int) -> int
    decreases hi - lo,
{
    if hi <= lo {
        0
    } else {
        col_dot_range(r, u, j, lo, hi - 1) + u[hi - 1] * r[hi - 1][j]
    }
}

/// The product `r * v`: entry `i` is the dot product of row `i` with `v`.
pub open spec fn mat_vec(r: Seq<Seq<int>>, v: Seq<int>) -> Seq<int> {
    Seq::new(r.len(), |i: int| dot(r[i], v))
}

/// The product of `u` with `r`, a vector of `m` entries: entry `j` is the
/// sum of `u[i] * r[i][j]` over all rows.
pub open spec fn vec_mat(u: Seq<int>, r: Seq<Seq<int>>, m: int) -> Seq<int> {
    Seq::new(m as nat, |j: int| col_dot_range(r, u, j, 0, r.len() as int))
}

/// The bilinear form: the sum of `u[i] * r[i][j] * v[j]` over all entries.
pub open spec fn bilinear(u: Seq<int>, r: Seq<Seq<int>>, v: Seq<int>) -> int {
    dot(u, mat_vec(r, v))
}

/// The sum of the squares of the entries in the first `k` rows.
pub open spec fn sq_norm_prefix(r: Seq<Seq<int>>, k: int) -> int
    decreases k,
{
    if k <= 0 {
        0
    } else {
        sq_norm_prefix(r, k - 1) + dot(r[k - 1], r[k - 1])
    }
}

/// The squared L2 norm: the sum of the squares of all entries.
pub open spec fn sq_norm(r: Seq<Seq<int>>) -> int {
    sq_norm_prefix(r, r.len() as int)
}

/// Row `a` with `w * c * v[j]` taken from entry `j`.
pub open spec fn row_less(a: Seq<int>, w: int, c: int, v: Seq<int>) -> Seq<int> {
    Seq::new(a.len(), |j: int| a[j] - w * c * v[j])
}

/// The matrix `r - w * (u outer v)`.
pub open spec fn rank_one_sub(r: Seq<Seq<int>>, w: int, u: Seq<int>, v: Seq<int>) -> Seq<Seq<int>> {
    Seq::new(r.len(), |i: int| row_less(r[i], w, u[i], v))
}

/// The quotient of `s` by `d`, rounded toward zero.
pub open spec fn trunc_div(s: int, d: int) -> int {
    if s >= 0 {
        s / d
    } else {
        -((-s) / d)
    }
}

/// By how much the squared norm of a matrix with `area` entries falls when
/// `w * (u outer v)` is taken from it, where `s` is the bilinear form of
/// the matrix at `u`, `v`.
pub open spec fn norm_drop(w: int, s: int, area: int) -> int {
    2 * (w * s) - (w * w) * area
}

} // verus!
