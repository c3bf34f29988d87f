//! The search for one cut: an alternating maximisation that starts from a
//! random column pattern and ends at a fixed point of the alternation, or
//! when the cap on rounds is reached.

use crate::cut::Cut;
use crate::generator::{sign_from_draw, Generator};
use crate::linear::{
    bilinear, dot_prefix, is_sign, is_sign_vec, mat_vec, rank_one_sub, sq_norm, trunc_div,
};
use crate::matrix::{Matrix, NORM_LIMIT};
use crate::norm_lemmas::{
    lemma_bilinear_prefix_bound, lemma_mul_sign, lemma_norm_drop_of_quotient,
    lemma_sq_norm_after_update, lemma_sq_norm_monotone,
};
use crate::search::{
    extends, found_cut, fresh_signs, lemma_fresh_stable, lemma_resolved_stable, lemma_round_signs,
    lemma_round_stable, lemma_zeros_before_grows, resolved, resolved_sign, round, search, settle,
    zeros_before, zeros_in, Search,
};
use crate::tiled::{mat_vec_tiled, vec_mat_tiled};
use crate::views::{signs_of, sums_of};
use vstd::prelude::*;

verus! {

/// The cap on the rounds of one search that an engine starts with.
pub const DEFAULT_ROUND_CAP: usize = 32;

/// Draws a vector of `len` signs.
pub fn draw_signs(len: usize, gen: &mut Generator) -> (s: Vec<i8>)
    ensures
        s.len() == len,
        extends(final(gen).history(), old(gen).history()),
        final(gen).history().len() == old(gen).history().len() + len,
        signs_of(s@) == fresh_signs(
            len as int,
            final(gen).history(),
            old(gen).history().len() as int,
        ),
{
    let ghost start = gen.history().len() as int;
    let mut s: Vec<i8> = Vec::new();
    let mut j: usize = 0;
    while j < len
        invariant
            j <= len,
            s.len() == j,
            start == old(gen).history().len(),
            extends(gen.history(), old(gen).history()),
            gen.history().len() == start + j,
            forall|k: int| 0 <= k < j ==> (#[trigger] s[k]) as int == crate::generator::sign_of_draw(
                gen.history()[start + k],
            ),
        decreases len - j,
    {
        let b = gen.draw();
        s.push(sign_from_draw(b));
        j += 1;
    }
    assert(signs_of(s@) =~= fresh_signs(len as int, gen.history(), start));
    s
}

/// The signs of a projection: +1 for a positive entry, -1 for a negative
/// one, and for each zero entry a draw of its own.
pub fn resolve_signs(p: &Vec<i128>, gen: &mut Generator) -> (s: Vec<i8>)
    ensures
        s.len() == p.len(),
        extends(final(gen).history(), old(gen).history()),
        final(gen).history().len() == old(gen).history().len() + zeros_in(sums_of(p@)),
        signs_of(s@) == resolved(
            sums_of(p@),
            final(gen).history(),
            old(gen).history().len() as int,
        ),
{
    let ghost start = gen.history().len() as int;
    let ghost sp = sums_of(p@);
    let mut s: Vec<i8> = Vec::new();
    let mut i: usize = 0;
    while i < p.len()
        invariant
            i <= p.len(),
            s.len() == i,
            sp == sums_of(p@),
            start == old(gen).history().len(),
            extends(gen.history(), old(gen).history()),
            gen.history().len() == start + zeros_before(sp, i as int),
            forall|k: int|
                0 <= k < i ==> (#[trigger] s[k]) as int == resolved_sign(sp, gen.history(), start, k),
        decreases p.len() - i,
    {
        let x = p[i];
        let ghost before = gen.history();
        proof {
            lemma_zeros_before_grows(sp, 0, i as int);
        }
        if x > 0 {
            s.push(1);
        } else if x < 0 {
            s.push(-1);
        } else {
            let b = gen.draw();
            s.push(sign_from_draw(b));
            proof {
                assert forall|k: int| 0 <= k < i implies (#[trigger] s[k]) as int == resolved_sign(
                    sp,
                    gen.history(),
                    start,
                    k,
                ) by {
                    lemma_zeros_before_grows(sp, k, i as int);
                    lemma_zeros_before_grows(sp, 0, k);
                    assert(s[k] as int == resolved_sign(sp, before, start, k));
                }
            }
        }
        i += 1;
    }
    assert(signs_of(s@) =~= resolved(sp, gen.history(), start));
    s
}

/// Whether two sign vectors are equal.
pub fn same_signs(a: &Vec<i8>, b: &Vec<i8>) -> (same: bool)
    ensures
        same == (signs_of(a@) == signs_of(b@)),
{
    if a.len() != b.len() {
        assert(signs_of(a@).len() != signs_of(b@).len());
        return false;
    }
    let mut i: usize = 0;
    while i < a.len()
        invariant
            i <= a.len(),
            a.len() == b.len(),
            forall|k: int| 0 <= k < i ==> a[k] == b[k],
        decreases a.len() - i,
    {
        if a[i] != b[i] {
            assert(signs_of(a@)[i as int] != signs_of(b@)[i as int]);
            return false;
        }
        i += 1;
    }
    assert(signs_of(a@) =~= signs_of(b@));
    true
}

/// One round of the alternation from the column signs `v`: first the row
/// signs are set to the signs of `r * v`, then the column signs to the
/// signs of the product of the new row signs with `r`. Returns the row
/// signs and the column signs.
pub fn search_round(r: &Matrix, v: &Vec<i8>, tile: usize, gen: &mut Generator) -> (res: (
    Vec<i8>,
    Vec<i8>,
))
    requires
        r.wf(),
        v.len() == r.ncols(),
        is_sign_vec(signs_of(v@)),
        tile > 0,
    ensures
        res.0.len() == r.nrows(),
        res.1.len() == r.ncols(),
        is_sign_vec(signs_of(res.0@)),
        is_sign_vec(signs_of(res.1@)),
        extends(final(gen).history(), old(gen).history()),
        round(r@, signs_of(v@), old(gen).history().len() as int, final(gen).history()) == (Search {
            u: signs_of(res.0@),
            v: signs_of(res.1@),
            pos: final(gen).history().len() as int,
        }),
{
    let ghost pos = gen.history().len() as int;
    let p = mat_vec_tiled(r, v, tile);
    let u = resolve_signs(&p, gen);
    let ghost h1 = gen.history();
    let q = vec_mat_tiled(r, &u, tile);
    let new_v = resolve_signs(&q, gen);
    proof {
        let h2 = gen.history();
        lemma_resolved_stable(sums_of(p@), h1, h2, pos, h1.len() as int);
        lemma_round_signs(r@, signs_of(v@), pos, h2);
        assert(sums_of(q@).len() == r.ncols());
    }
    (u, new_v)
}

/// The weight of the pattern `u`, `v` on `r`: the bilinear form of `r` at
/// `u`, `v`, divided by the number of entries and rounded toward zero.
pub fn weight_of(r: &Matrix, u: &Vec<i8>, v: &Vec<i8>, tile: usize) -> (w: i64)
    requires
        r.wf(),
        r.nrows() > 0,
        r.ncols() > 0,
        u.len() == r.nrows(),
        v.len() == r.ncols(),
        is_sign_vec(signs_of(u@)),
        is_sign_vec(signs_of(v@)),
        tile > 0,
        sq_norm(r@) <= NORM_LIMIT,
    ensures
        w as int == trunc_div(bilinear(signs_of(u@), r@, signs_of(v@)), (r.nrows() * r.ncols()) as int),
{
    let n = r.rows();
    let m = r.cols();
    let ghost su = signs_of(u@);
    let ghost sv = signs_of(v@);
    let ghost pv = mat_vec(r@, sv);
    let p = mat_vec_tiled(r, v, tile);
    let mut s: i128 = 0;
    let mut i: usize = 0;
    while i < n
        invariant
            r.wf(),
            n == r.nrows(),
            u.len() == n,
            v.len() == r.ncols(),
            su == signs_of(u@),
            sv == signs_of(v@),
            is_sign_vec(su),
            is_sign_vec(sv),
            pv == mat_vec(r@, sv),
            sums_of(p@) == pv,
            p.len() == n,
            i <= n,
            sq_norm(r@) <= NORM_LIMIT,
            s as int == dot_prefix(su, pv, i as int),
            -NORM_LIMIT <= s as int <= NORM_LIMIT,
        decreases n - i,
    {
        proof {
            lemma_bilinear_prefix_bound(su, r@, sv, i as int);
            lemma_bilinear_prefix_bound(su, r@, sv, i + 1);
            lemma_sq_norm_monotone(r@, i as int, n as int);
            lemma_sq_norm_monotone(r@, i + 1, n as int);
            assert(is_sign(su[i as int]));
            assert(sums_of(p@)[i as int] == p[i as int]);
            lemma_mul_sign(pv[i as int], su[i as int]);
        }
        if u[i] == 1 {
            s = s + p[i];
        } else {
            s = s - p[i];
        }
        i += 1;
    }
    let ghost area = (n * m) as int;
    let ghost wq = trunc_div(s as int, area);
    proof {
        assert(su.len() == pv.len());
        assert(s as int == bilinear(su, r@, sv));
        assert(0 < n * m <= 0xffff_ffff_ffff_ffff * 0xffff_ffff_ffff_ffff) by (nonlinear_arith)
            requires
                0 < n <= 0xffff_ffff_ffff_ffff,
                0 < m <= 0xffff_ffff_ffff_ffff,
        ;
        lemma_norm_drop_of_quotient(s as int, area);
        lemma_sq_norm_after_update(r@, wq, su, sv);
        lemma_sq_norm_monotone(rank_one_sub(r@, wq, su, sv), 0, r@.len() as int);
        assert(-0x8000_0000_0000_0000 < wq < 0x8000_0000_0000_0000) by (nonlinear_arith)
            requires
                wq * wq <= 0x0fff_ffff_ffff_ffff_ffff_ffff_ffff_ffff,
        ;
    }
    let area_wide: u128 = (n as u128) * (m as u128);
    if s >= 0 {
        let q: u128 = (s as u128) / area_wide;
        q as i64
    } else {
        let q: u128 = ((-s) as u128) / area_wide;
        -(q as i64)
    }
}

/// Searches `r` for one cut. The column signs start as fresh draws. One
/// round of the alternation is always made; further rounds follow until a
/// round changes neither vector or `round_cap` rounds have been made. Each
/// tie is resolved by a draw of its own. The weight is that of the final
/// pattern.
pub fn find_cut(r: &Matrix, tile: usize, round_cap: usize, gen: &mut Generator) -> (cut: Cut)
    requires
        r.wf(),
        r.nrows() > 0,
        r.ncols() > 0,
        tile > 0,
        sq_norm(r@) <= NORM_LIMIT,
    ensures
        extends(final(gen).history(), old(gen).history()),
        cut@ == found_cut(
            r@,
            r.ncols() as int,
            final(gen).history(),
            old(gen).history().len() as int,
            round_cap as int,
        ),
        final(gen).history().len() == search(
            r@,
            r.ncols() as int,
            final(gen).history(),
            old(gen).history().len() as int,
            round_cap as int,
        ).pos,
        cut@.fits(r.nrows() as int, r.ncols() as int),
{
    let m = r.cols();
    let ghost pos0 = gen.history().len() as int;
    let ghost mi = m as int;
    let ghost cap = round_cap as int;
    let v0 = draw_signs(m, gen);
    let ghost h1 = gen.history();
    let first = search_round(r, &v0, tile, gen);
    let mut u = first.0;
    let mut v = first.1;
    let mut left: usize = if round_cap <= 1 { 0 } else { round_cap - 1 };
    let mut settled = false;
    proof {
        let h2 = gen.history();
        assert forall|t: Seq<bool>| #[trigger] extends(t, h2) implies search(r@, mi, t, pos0, cap)
            == settle(
            r@,
            Search { u: signs_of(u@), v: signs_of(v@), pos: h2.len() as int },
            t,
            left as nat,
        ) by {
            lemma_fresh_stable(mi, h1, t, pos0, h1.len() as int);
            lemma_round_stable(r@, signs_of(v0@), pos0 + mi, h2, t, h2.len() as int);
        }
    }
    while left > 0 && !settled
        invariant
            r.wf(),
            r.nrows() > 0,
            r.ncols() > 0,
            tile > 0,
            m == r.ncols(),
            mi == m as int,
            cap == round_cap as int,
            pos0 == old(gen).history().len(),
            u.len() == r.nrows(),
            v.len() == m,
            is_sign_vec(signs_of(u@)),
            is_sign_vec(signs_of(v@)),
            extends(gen.history(), old(gen).history()),
            forall|t: Seq<bool>| #[trigger]
                extends(t, gen.history()) ==> search(r@, mi, t, pos0, cap) == settle(
                    r@,
                    Search { u: signs_of(u@), v: signs_of(v@), pos: gen.history().len() as int },
                    t,
                    if settled { 0 } else { left as nat },
                ),
        decreases left + (if settled { 0int } else { 1int }),
    {
        let ghost before = gen.history();
        let ghost cur = Search { u: signs_of(u@), v: signs_of(v@), pos: before.len() as int };
        let next = search_round(r, &v, tile, gen);
        let same = same_signs(&next.0, &u) && same_signs(&next.1, &v);
        proof {
            let now = gen.history();
            let after = Search { u: signs_of(next.0@), v: signs_of(next.1@), pos: now.len() as int };
            assert forall|t: Seq<bool>| #[trigger] extends(t, now) implies search(r@, mi, t, pos0, cap)
                == settle(r@, after, t, if same { 0 } else { (left - 1) as nat }) by {
                assert(extends(t, before));
                lemma_round_stable(r@, cur.v, cur.pos, now, t, now.len() as int);
                assert(round(r@, cur.v, cur.pos, t) == after);
                assert(search(r@, mi, t, pos0, cap) == settle(r@, cur, t, left as nat));
            }
        }
        u = next.0;
        v = next.1;
        if same {
            settled = true;
        } else {
            left = left - 1;
        }
    }
    let weight = weight_of(r, &u, &v, tile);
    proof {
        let h = gen.history();
        assert(extends(h, h));
        let end = Search { u: signs_of(u@), v: signs_of(v@), pos: h.len() as int };
        assert(search(r@, mi, h, pos0, cap) == end);
        assert(r@.len() == r.nrows());
    }
    Cut { u, v, weight }
}

} // verus!
