//! Facts about squared norms: bounds on entries and sums, and what a
//! rank-one update does to the norm.

use crate::linear::{
    bilinear, dot, dot_prefix, is_grid, is_sign, is_sign_vec, mat_vec, norm_drop, rank_one_sub,
    row_less, sq_norm, sq_norm_prefix, trunc_div,
};
use vstd::prelude::*;

verus! {

/// The square of an integer is at least its magnitude.
pub proof fn lemma_square_dominates(x: int)
    ensures
        x * x >= x,
        x * x >= -x,
        x * x >= 0,
{
    assert(x * x >= x && x * x >= -x && x * x >= 0) by (nonlinear_arith);
}

/// A product with a sign is the factor or its negation.
pub proof fn lemma_mul_sign(x: int, s: int)
    requires
        is_sign(s),
    ensures
        x * s == (if s == 1 { x } else { -x }),
        s * x == x * s,
        s * s == 1,
{
    assert(x * s == (if s == 1 { x } else { -x }) && s * x == x * s && s * s == 1)
        by (nonlinear_arith)
        requires s == 1 || s == -1;
}

/// The sum of squares of a prefix is nonnegative and grows with the prefix.
pub proof fn lemma_dot_self_monotone(a: Seq<int>, k: int, l: int)
    requires
        k <= l,
    ensures
        0 <= dot_prefix(a, a, k) <= dot_prefix(a, a, l),
    decreases l,
{
    if l <= 0 {
    } else if k == l {
        lemma_dot_self_monotone(a, k - 1, l - 1);
        lemma_square_dominates(a[l - 1]);
    } else {
        lemma_dot_self_monotone(a, k, l - 1);
        lemma_square_dominates(a[l - 1]);
    }
}

/// The square of one entry is at most the sum of squares of the row.
pub proof fn lemma_entry_le_dot_self(a: Seq<int>, j: int)
    requires
        0 <= j < a.len(),
    ensures
        a[j] * a[j] <= dot(a, a),
{
    lemma_dot_self_monotone(a, j, j);
    lemma_dot_self_monotone(a, j + 1, a.len() as int);
}

/// Against a sign vector, a dot product is bounded by the sum of squares.
pub proof fn lemma_dot_sign_bound(a: Seq<int>, v: Seq<int>, k: int)
    requires
        k <= a.len(),
        k <= v.len(),
        is_sign_vec(v),
    ensures
        -dot_prefix(a, a, k) <= dot_prefix(a, v, k) <= dot_prefix(a, a, k),
    decreases k,
{
    if k > 0 {
        lemma_dot_sign_bound(a, v, k - 1);
        lemma_square_dominates(a[k - 1]);
        lemma_mul_sign(a[k - 1], v[k - 1]);
    }
}

/// The squared norm of a prefix of rows is nonnegative and grows with the
/// prefix.
pub proof fn lemma_sq_norm_monotone(r: Seq<Seq<int>>, k: int, l: int)
    requires
        k <= l,
    ensures
        0 <= sq_norm_prefix(r, k) <= sq_norm_prefix(r, l),
    decreases l,
{
    if l <= 0 {
    } else if k == l {
        lemma_sq_norm_monotone(r, k - 1, l - 1);
        lemma_dot_self_monotone(r[l - 1], 0, r[l - 1].len() as int);
    } else {
        lemma_sq_norm_monotone(r, k, l - 1);
        lemma_dot_self_monotone(r[l - 1], 0, r[l - 1].len() as int);
    }
}

/// The square of one entry is at most the squared norm of the matrix.
pub proof fn lemma_entry_le_sq_norm(r: Seq<Seq<int>>, i: int, j: int)
    requires
        0 <= i < r.len(),
        0 <= j < r[i].len(),
    ensures
        r[i][j] * r[i][j] <= sq_norm(r),
{
    lemma_entry_le_dot_self(r[i], j);
    lemma_sq_norm_monotone(r, i, i);
    lemma_sq_norm_monotone(r, i + 1, r.len() as int);
}

/// Where the squared norm is at most 2^124, every entry is below 2^62 in
/// magnitude.
pub proof fn lemma_entries_fit(r: Seq<Seq<int>>, i: int, j: int)
    requires
        0 <= i < r.len(),
        0 <= j < r[i].len(),
        sq_norm(r) < 0x1000_0000_0000_0000_0000_0000_0000_0000,
    ensures
        -0x4000_0000_0000_0000 < r[i][j] < 0x4000_0000_0000_0000,
{
    lemma_entry_le_sq_norm(r, i, j);
    let x = r[i][j];
    assert(-0x4000_0000_0000_0000 < x < 0x4000_0000_0000_0000) by (nonlinear_arith)
        requires
            x * x < 0x1000_0000_0000_0000_0000_0000_0000_0000,
    ;
}

/// Against sign vectors, a partial bilinear form is bounded by the squared
/// norm of the rows it runs over.
pub proof fn lemma_bilinear_prefix_bound(u: Seq<int>, r: Seq<Seq<int>>, v: Seq<int>, k: int)
    requires
        0 <= k <= r.len(),
        k <= u.len(),
        is_grid(r, r.len() as int, v.len() as int),
        is_sign_vec(u),
        is_sign_vec(v),
    ensures
        -sq_norm_prefix(r, k) <= dot_prefix(u, mat_vec(r, v), k) <= sq_norm_prefix(r, k),
    decreases k,
{
    if k > 0 {
        lemma_bilinear_prefix_bound(u, r, v, k - 1);
        let a = r[k - 1];
        lemma_dot_sign_bound(a, v, a.len() as int);
        lemma_mul_sign(mat_vec(r, v)[k - 1], u[k - 1]);
        assert(u[k - 1] * mat_vec(r, v)[k - 1] == mat_vec(r, v)[k - 1] * u[k - 1])
            by (nonlinear_arith);
    }
}

/// The square of one updated entry.
proof fn lemma_entry_less_sq(x: int, w: int, c: int, s: int)
    requires
        is_sign(c),
        is_sign(s),
    ensures
        (x - w * c * s) * (x - w * c * s) == x * x - 2 * ((w * c) * (x * s)) + w * w,
{
    assert((x - w * c * s) * (x - w * c * s) == x * x - 2 * ((w * c) * (x * s)) + w * w)
        by (nonlinear_arith)
        requires
            c == 1 || c == -1,
            s == 1 || s == -1,
    ;
}

/// The sum of squares of an updated row.
pub proof fn lemma_row_less_sq(a: Seq<int>, w: int, c: int, v: Seq<int>, k: int)
    requires
        0 <= k <= a.len(),
        v.len() == a.len(),
        is_sign(c),
        is_sign_vec(v),
    ensures
        dot_prefix(row_less(a, w, c, v), row_less(a, w, c, v), k) == dot_prefix(a, a, k) - 2 * ((w
            * c) * dot_prefix(a, v, k)) + (w * w) * k,
    decreases k,
{
    if k > 0 {
        lemma_row_less_sq(a, w, c, v, k - 1);
        let b = row_less(a, w, c, v);
        let x = a[k - 1];
        let s = v[k - 1];
        let t = w * c;
        let d = dot_prefix(a, v, k - 1);
        assert(b[k - 1] == x - w * c * s);
        lemma_entry_less_sq(x, w, c, s);
        assert(t * (d + x * s) == t * d + t * (x * s)) by (nonlinear_arith);
        assert((w * w) * k == (w * w) * (k - 1) + w * w) by (nonlinear_arith);
    } else {
        assert((w * w) * k == 0) by (nonlinear_arith)
            requires k == 0;
        assert((w * c) * 0 == 0) by (nonlinear_arith);
    }
}

/// The squared norm of the first `k` rows after a rank-one update.
pub proof fn lemma_sq_norm_less_prefix(r: Seq<Seq<int>>, w: int, u: Seq<int>, v: Seq<int>, k: int)
    requires
        0 <= k <= r.len(),
        u.len() == r.len(),
        is_grid(r, r.len() as int, v.len() as int),
        is_sign_vec(u),
        is_sign_vec(v),
    ensures
        sq_norm_prefix(rank_one_sub(r, w, u, v), k) == sq_norm_prefix(r, k) - 2 * (w * dot_prefix(
            u,
            mat_vec(r, v),
            k,
        )) + (w * w) * (k * v.len()),
    decreases k,
{
    let m = v.len() as int;
    if k > 0 {
        lemma_sq_norm_less_prefix(r, w, u, v, k - 1);
        let a = r[k - 1];
        let c = u[k - 1];
        let p = mat_vec(r, v);
        let e = dot_prefix(u, p, k - 1);
        let d = dot(a, v);
        lemma_row_less_sq(a, w, c, v, m);
        assert(rank_one_sub(r, w, u, v)[k - 1] == row_less(a, w, c, v));
        assert(row_less(a, w, c, v).len() == m);
        assert(p[k - 1] == d);
        assert((w * c) * d == w * (c * d)) by (nonlinear_arith);
        assert(w * (e + c * d) == w * e + w * (c * d)) by (nonlinear_arith);
        assert((w * w) * (k * m) == (w * w) * ((k - 1) * m) + (w * w) * m) by (nonlinear_arith);
    } else {
        assert((w * w) * (k * m) == 0) by (nonlinear_arith)
            requires k == 0;
        assert(w * 0 == 0) by (nonlinear_arith);
    }
}

/// What a rank-one update does to the squared norm: it falls by
/// `norm_drop`, whatever the weight.
pub proof fn lemma_sq_norm_after_update(r: Seq<Seq<int>>, w: int, u: Seq<int>, v: Seq<int>)
    requires
        u.len() == r.len(),
        is_grid(r, r.len() as int, v.len() as int),
        is_sign_vec(u),
        is_sign_vec(v),
    ensures
        sq_norm(rank_one_sub(r, w, u, v)) == sq_norm(r) - norm_drop(
            w,
            bilinear(u, r, v),
            (r.len() * v.len()) as int,
        ),
{
    lemma_sq_norm_less_prefix(r, w, u, v, r.len() as int);
}

/// With the weight that the engine picks, the quotient of the bilinear form
/// by the number of entries rounded toward zero, the norm never rises, and
/// it falls by at least the square of the weight.
pub proof fn lemma_norm_drop_of_quotient(s: int, area: int)
    requires
        area > 0,
    ensures
        norm_drop(trunc_div(s, area), s, area) >= trunc_div(s, area) * trunc_div(s, area) >= 0,
{
    let w = trunc_div(s, area);
    if s >= 0 {
        assert(w == s / area);
        assert(0 <= w && w * area <= s) by (nonlinear_arith)
            requires
                w == s / area,
                s >= 0,
                area > 0,
        ;
    } else {
        assert(-w == (-s) / area);
        assert(w <= 0 && (-w) * area <= -s) by (nonlinear_arith)
            requires
                -w == (-s) / area,
                s < 0,
                area > 0,
        ;
    }
    assert(2 * (w * s) - (w * w) * area >= w * w && w * w >= 0) by (nonlinear_arith)
        requires
            area > 0,
            (0 <= w && w * area <= s) || (w <= 0 && (-w) * area <= -s),
    ;
}

} // verus!
