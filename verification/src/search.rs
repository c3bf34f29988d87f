//! What the alternating search computes, as a function of the matrix and
//! of the draws it is handed, and why it depends on no other draws.

use crate::cut::CutView;
use crate::generator::sign_of_draw;
use crate::linear::{bilinear, is_sign, is_sign_vec, mat_vec, trunc_div, vec_mat};
use vstd::prelude::*;

verus! {

/// How many of the first `k` entries of `p` are zero.
pub open spec fn zeros_before(p: Seq<int>, k: int) -> int
    decreases k,
{
    if k <= 0 {
        0
    } else {
        zeros_before(p, k - 1) + if p[k - 1] == 0 { 1int } else { 0int }
    }
}

/// How many entries of `p` are zero.
pub open spec fn zeros_in(p: Seq<int>) -> int {
    zeros_before(p, p.len() as int)
}

/// The sign given to entry `i` of a projection `p`: the sign of the entry
/// where it is not zero; else a draw. The zero entries take the draws from
/// position `pos` of the tape on, in order.
pub open spec fn resolved_sign(p: Seq<int>, tape: Seq<bool>, pos: int, i: int) -> int {
    if p[i] > 0 {
        1
    } else if p[i] < 0 {
        -1
    } else {
        sign_of_draw(tape[pos + zeros_before(p, i)])
    }
}

/// The sign vector of a projection, with ties resolved from the tape.
pub open spec fn resolved(p: Seq<int>, tape: Seq<bool>, pos: int) -> Seq<int> {
    Seq::new(p.len(), |i: int| resolved_sign(p, tape, pos, i))
}

/// A sign vector of `len` entries drawn from the tape at `pos`.
pub open spec fn fresh_signs(len: int, tape: Seq<bool>, pos: int) -> Seq<int> {
    Seq::new(len as nat, |j: int| sign_of_draw(tape[pos + j]))
}

/// The state of a search: the two sign vectors and the position on the
/// tape of the next unused draw.
pub ghost struct Search {
    pub u: Seq<int>,
    pub v: Seq<int>,
    pub pos: int,
}

/// One round of the alternation from the column signs `v`, with the next
/// unused draw at `pos`: `u` becomes the signs of `r * v`, then `v` becomes
/// the signs of `u * r`.
pub open spec fn round(r: Seq<Seq<int>>, v: Seq<int>, pos: int, tape: Seq<bool>) -> Search {
    let p = mat_vec(r, v);
    let u = resolved(p, tape, pos);
    let mid = pos + zeros_in(p);
    let q = vec_mat(u, r, v.len() as int);
    Search { u, v: resolved(q, tape, mid), pos: mid + zeros_in(q) }
}

/// Up to `rounds` further rounds, stopping after the first round that
/// leaves both vectors as they were.
pub open spec fn settle(r: Seq<Seq<int>>, s: Search, tape: Seq<bool>, rounds: nat) -> Search
    decreases rounds,
{
    if rounds == 0 {
        s
    } else {
        let t = round(r, s.v, s.pos, tape);
        if t.u == s.u && t.v == s.v {
            t
        } else {
            settle(r, t, tape, (rounds - 1) as nat)
        }
    }
}

/// The rounds that may follow the first one under a cap of `cap` rounds.
/// One round is always made.
pub open spec fn rounds_after_first(cap: int) -> nat {
    if cap <= 1 {
        0
    } else {
        (cap - 1) as nat
    }
}

/// The whole search on a matrix with `m` columns: `v` is drawn from the
/// tape at `pos`, one round is made, and up to `cap - 1` more follow.
pub open spec fn search(r: Seq<Seq<int>>, m: int, tape: Seq<bool>, pos: int, cap: int) -> Search {
    settle(r, round(r, fresh_signs(m, tape, pos), pos + m, tape), tape, rounds_after_first(cap))
}

/// The cut that a search state stands for: its sign vectors, and as the
/// weight the bilinear form divided by the number of entries, rounded
/// toward zero.
pub open spec fn cut_at(r: Seq<Seq<int>>, s: Search) -> CutView {
    CutView {
        u: s.u,
        v: s.v,
        weight: trunc_div(bilinear(s.u, r, s.v), (r.len() * s.v.len()) as int),
    }
}

/// The cut found on `r` from the draws at `pos` of the tape.
pub open spec fn found_cut(r: Seq<Seq<int>>, m: int, tape: Seq<bool>, pos: int, cap: int) -> CutView {
    cut_at(r, search(r, m, tape, pos, cap))
}

/// `t` continues `h`: it starts with the same draws.
pub open spec fn extends(t: Seq<bool>, h: Seq<bool>) -> bool {
    &&& h.len() <= t.len()
    &&& forall|k: int| 0 <= k < h.len() ==> t[k] == h[k]
}

/// Continuing is transitive.
pub proof fn lemma_extends_trans(a: Seq<bool>, b: Seq<bool>, c: Seq<bool>)
    requires
        extends(a, b),
        extends(b, c),
    ensures
        extends(a, c),
{
}

/// `a` and `b` hold the same draws at every position below `upto`.
pub open spec fn agree(a: Seq<bool>, b: Seq<bool>, upto: int) -> bool {
    forall|k: int| 0 <= k < upto ==> a[k] == b[k]
}

/// The count of zeros grows with the prefix, by one across a zero.
pub proof fn lemma_zeros_before_grows(p: Seq<int>, k: int, l: int)
    requires
        0 <= k <= l,
    ensures
        0 <= zeros_before(p, k) <= zeros_before(p, l),
        k < l && p[k] == 0 ==> zeros_before(p, k) < zeros_before(p, l),
    decreases l,
{
    if k < l {
        lemma_zeros_before_grows(p, k, l - 1);
    } else if k > 0 {
        lemma_zeros_before_grows(p, k - 1, l - 1);
    }
}

/// A resolved vector is a sign vector as long as the projection.
pub proof fn lemma_resolved_signs(p: Seq<int>, tape: Seq<bool>, pos: int)
    ensures
        resolved(p, tape, pos).len() == p.len(),
        is_sign_vec(resolved(p, tape, pos)),
{
    assert forall|i: int| 0 <= i < p.len() implies is_sign(#[trigger] resolved(p, tape, pos)[i]) by {
    }
}

/// Freshly drawn signs are signs.
pub proof fn lemma_fresh_signs(len: int, tape: Seq<bool>, pos: int)
    requires
        0 <= len,
    ensures
        fresh_signs(len, tape, pos).len() == len,
        is_sign_vec(fresh_signs(len, tape, pos)),
{
    assert forall|i: int| 0 <= i < len implies is_sign(#[trigger] fresh_signs(len, tape, pos)[i]) by {
    }
}

/// A round yields sign vectors as long as the matrix is high and wide, and
/// moves forward on the tape.
pub proof fn lemma_round_signs(r: Seq<Seq<int>>, v: Seq<int>, pos: int, tape: Seq<bool>)
    ensures
        round(r, v, pos, tape).u.len() == r.len(),
        round(r, v, pos, tape).v.len() == v.len(),
        is_sign_vec(round(r, v, pos, tape).u),
        is_sign_vec(round(r, v, pos, tape).v),
        round(r, v, pos, tape).pos >= pos,
{
    let p = mat_vec(r, v);
    let u = resolved(p, tape, pos);
    let mid = pos + zeros_in(p);
    let q = vec_mat(u, r, v.len() as int);
    lemma_resolved_signs(p, tape, pos);
    lemma_resolved_signs(q, tape, mid);
    lemma_zeros_before_grows(p, 0, p.len() as int);
    lemma_zeros_before_grows(q, 0, q.len() as int);
}

/// Settling keeps sign vectors and their lengths, and moves forward on the
/// tape.
pub proof fn lemma_settle_signs(r: Seq<Seq<int>>, s: Search, tape: Seq<bool>, rounds: nat)
    requires
        s.u.len() == r.len(),
        is_sign_vec(s.u),
        is_sign_vec(s.v),
    ensures
        settle(r, s, tape, rounds).u.len() == r.len(),
        settle(r, s, tape, rounds).v.len() == s.v.len(),
        is_sign_vec(settle(r, s, tape, rounds).u),
        is_sign_vec(settle(r, s, tape, rounds).v),
        settle(r, s, tape, rounds).pos >= s.pos,
    decreases rounds,
{
    if rounds > 0 {
        let t = round(r, s.v, s.pos, tape);
        lemma_round_signs(r, s.v, s.pos, tape);
        if !(t.u == s.u && t.v == s.v) {
            lemma_settle_signs(r, t, tape, (rounds - 1) as nat);
        }
    }
}

/// A search yields a sign vector per row and one per column, whatever the
/// tape holds.
pub proof fn lemma_search_signs(r: Seq<Seq<int>>, m: int, tape: Seq<bool>, pos: int, cap: int)
    requires
        0 <= m,
    ensures
        search(r, m, tape, pos, cap).u.len() == r.len(),
        search(r, m, tape, pos, cap).v.len() == m,
        is_sign_vec(search(r, m, tape, pos, cap).u),
        is_sign_vec(search(r, m, tape, pos, cap).v),
        search(r, m, tape, pos, cap).pos >= pos + m,
        found_cut(r, m, tape, pos, cap).fits(r.len() as int, m),
{
    let v0 = fresh_signs(m, tape, pos);
    lemma_fresh_signs(m, tape, pos);
    lemma_round_signs(r, v0, pos + m, tape);
    lemma_settle_signs(r, round(r, v0, pos + m, tape), tape, rounds_after_first(cap));
}

/// Resolving ties reads only the draws it consumes.
pub proof fn lemma_resolved_stable(p: Seq<int>, a: Seq<bool>, b: Seq<bool>, pos: int, upto: int)
    requires
        agree(a, b, upto),
        0 <= pos,
        pos + zeros_in(p) <= upto,
    ensures
        resolved(p, b, pos) == resolved(p, a, pos),
{
    assert forall|i: int| 0 <= i < p.len() implies resolved_sign(p, b, pos, i) == resolved_sign(
        p,
        a,
        pos,
        i,
    ) by {
        lemma_zeros_before_grows(p, i, p.len() as int);
        lemma_zeros_before_grows(p, 0, i);
    }
    assert(resolved(p, b, pos) =~= resolved(p, a, pos));
}

/// Drawing fresh signs reads only the draws it consumes.
pub proof fn lemma_fresh_stable(len: int, a: Seq<bool>, b: Seq<bool>, pos: int, upto: int)
    requires
        agree(a, b, upto),
        0 <= pos,
        0 <= len,
        pos + len <= upto,
    ensures
        fresh_signs(len, b, pos) == fresh_signs(len, a, pos),
{
    assert(fresh_signs(len, b, pos) =~= fresh_signs(len, a, pos));
}

/// A round reads only the draws it consumes.
pub proof fn lemma_round_stable(
    r: Seq<Seq<int>>,
    v: Seq<int>,
    pos: int,
    a: Seq<bool>,
    b: Seq<bool>,
    upto: int,
)
    requires
        agree(a, b, upto),
        0 <= pos,
        round(r, v, pos, a).pos <= upto,
    ensures
        round(r, v, pos, b) == round(r, v, pos, a),
{
    let p = mat_vec(r, v);
    let mid = pos + zeros_in(p);
    let u = resolved(p, a, pos);
    let q = vec_mat(u, r, v.len() as int);
    lemma_zeros_before_grows(p, 0, p.len() as int);
    lemma_zeros_before_grows(q, 0, q.len() as int);
    lemma_resolved_stable(p, a, b, pos, upto);
    lemma_resolved_stable(q, a, b, mid, upto);
}

/// Settling reads only the draws it consumes.
pub proof fn lemma_settle_stable(
    r: Seq<Seq<int>>,
    s: Search,
    a: Seq<bool>,
    b: Seq<bool>,
    upto: int,
    rounds: nat,
)
    requires
        agree(a, b, upto),
        0 <= s.pos,
        settle(r, s, a, rounds).pos <= upto,
    ensures
        settle(r, s, b, rounds) == settle(r, s, a, rounds),
    decreases rounds,
{
    if rounds > 0 {
        let next = round(r, s.v, s.pos, a);
        lemma_round_signs(r, s.v, s.pos, a);
        if next.u == s.u && next.v == s.v {
            lemma_round_stable(r, s.v, s.pos, a, b, upto);
        } else {
            lemma_settle_signs(r, next, a, (rounds - 1) as nat);
            lemma_round_stable(r, s.v, s.pos, a, b, upto);
            lemma_settle_stable(r, next, a, b, upto, (rounds - 1) as nat);
        }
    }
}

/// A search reads only the draws it consumes: on two tapes that agree up
/// to where the search ends on the first, it ends in the same state and
/// finds the same cut.
pub proof fn lemma_search_stable(
    r: Seq<Seq<int>>,
    m: int,
    a: Seq<bool>,
    b: Seq<bool>,
    upto: int,
    pos: int,
    cap: int,
)
    requires
        agree(a, b, upto),
        0 <= pos,
        0 <= m,
        search(r, m, a, pos, cap).pos <= upto,
    ensures
        search(r, m, b, pos, cap) == search(r, m, a, pos, cap),
        found_cut(r, m, b, pos, cap) == found_cut(r, m, a, pos, cap),
{
    let v0 = fresh_signs(m, a, pos);
    let first = round(r, v0, pos + m, a);
    lemma_fresh_signs(m, a, pos);
    lemma_round_signs(r, v0, pos + m, a);
    lemma_settle_signs(r, first, a, rounds_after_first(cap));
    lemma_fresh_stable(m, a, b, pos, upto);
    lemma_round_stable(r, v0, pos + m, a, b, upto);
    lemma_settle_stable(r, first, a, b, upto, rounds_after_first(cap));
}

} // verus!
