//! What holds of every engine, whatever the matrix, the tile size and the
//! draws.

use crate::cut::cuts_total;
use crate::linear::{is_grid, is_sign, sq_norm};
use crate::matrix::NORM_LIMIT;
use crate::search::agree;
use crate::state::{
    lemma_run_pos_grows, lemma_run_stable, lemma_run_then_step, lemma_run_wf, lemma_step_wf,
    mat_sub, zero_grid, EngineView,
};
use vstd::prelude::*;

verus! {

/// The squared norm of the residual never rises: after one more discovery
/// it is at most what it was, however many discoveries came before.
pub proof fn theorem_norm_never_rises(e: EngineView, tape: Seq<bool>, pos: int, count: nat)
    requires
        e.wf(),
    ensures
        e.run(tape, pos, count + 1).residual_norm() <= e.run(tape, pos, count).residual_norm(),
        e.run(tape, pos, count).residual_norm() <= e.residual_norm(),
{
    lemma_run_wf(e, tape, pos, count);
    lemma_run_then_step(e, tape, pos, count);
    lemma_step_wf(e.run(tape, pos, count), tape, e.run_pos(tape, pos, count));
}

/// A discovery whose cut has a weight other than zero lowers the squared
/// norm of the residual.
pub proof fn theorem_weighted_cut_lowers_norm(e: EngineView, tape: Seq<bool>, pos: int)
    requires
        e.wf(),
        e.next_cut(tape, pos).weight != 0,
    ensures
        e.step(tape, pos).residual_norm() < e.residual_norm(),
{
    lemma_step_wf(e, tape, pos);
    let w = e.next_cut(tape, pos).weight;
    assert(w * w > 0) by (nonlinear_arith)
        requires
            w != 0,
    ;
}

/// The tile size has no part in what is found: two runs from states that
/// differ in nothing but the tile size find the same cuts and leave the
/// same residual.
pub proof fn theorem_tile_size_is_immaterial(
    e: EngineView,
    tile_size: int,
    tape: Seq<bool>,
    pos: int,
    count: nat,
)
    ensures
        (EngineView { tile_size, ..e }).run(tape, pos, count) == (EngineView {
            tile_size,
            ..e.run(tape, pos, count)
        }),
        (EngineView { tile_size, ..e }).run_pos(tape, pos, count) == e.run_pos(tape, pos, count),
    decreases count,
{
    if count > 0 {
        let f = EngineView { tile_size, ..e };
        assert(f.step(tape, pos) == (EngineView { tile_size, ..e.step(tape, pos) }));
        theorem_tile_size_is_immaterial(
            e.step(tape, pos),
            tile_size,
            tape,
            e.next_pos(tape, pos),
            (count - 1) as nat,
        );
    }
}

/// After any number of discoveries, the sum of the cuts found is the
/// target less the residual, and the residual is the target less that sum.
pub proof fn theorem_reconstruction(e: EngineView, tape: Seq<bool>, pos: int, count: nat)
    requires
        e.wf(),
    ensures
        e.run(tape, pos, count).target == e.target,
        e.run(tape, pos, count).reconstruction() == cuts_total(
            e.run(tape, pos, count).cuts,
            e.rows,
            e.cols,
        ),
        e.run(tape, pos, count).reconstruction() == mat_sub(
            e.target,
            e.run(tape, pos, count).residual,
        ),
        e.run(tape, pos, count).residual == mat_sub(
            e.target,
            e.run(tape, pos, count).reconstruction(),
        ),
{
    lemma_run_wf(e, tape, pos, count);
    let f = e.run(tape, pos, count);
    let total = f.reconstruction();
    assert forall|i: int, j: int| 0 <= i < e.rows && 0 <= j < e.cols implies total[i][j]
        == e.target[i][j] - f.residual[i][j] by {
        assert(f.residual[i][j] == f.target[i][j] - total[i][j]);
    }
    assert(total =~~= mat_sub(e.target, f.residual));
}

/// Two runs from the same state on draws that agree as far as the first
/// run consumes them are the same run: after every number of discoveries
/// they have found the same cuts, hold the same residual, and stand at the
/// same place in their draws.
pub proof fn theorem_same_draws_same_run(
    e: EngineView,
    a: Seq<bool>,
    b: Seq<bool>,
    pos: int,
    count: nat,
    k: nat,
)
    requires
        e.wf(),
        0 <= pos,
        k <= count,
        agree(a, b, e.run_pos(a, pos, count)),
    ensures
        e.run(b, pos, k) == e.run(a, pos, k),
        e.run(b, pos, k).cuts == e.run(a, pos, k).cuts,
        e.run(b, pos, k).residual_norm() == e.run(a, pos, k).residual_norm(),
        e.run_pos(b, pos, k) == e.run_pos(a, pos, k),
{
    lemma_run_pos_grows(e, a, pos, k, count);
    lemma_run_stable(e, a, b, e.run_pos(a, pos, count), pos, k);
}

/// Every cut that an engine holds has one sign per row and one per column,
/// and each sign is +1 or -1.
pub proof fn theorem_cuts_are_sign_patterns(
    e: EngineView,
    tape: Seq<bool>,
    pos: int,
    count: nat,
    c: int,
)
    requires
        e.wf(),
        0 <= c < e.run(tape, pos, count).cuts.len(),
    ensures
        e.run(tape, pos, count).cuts[c].fits(e.rows, e.cols),
        forall|i: int| 0 <= i < e.rows ==> is_sign(#[trigger] e.run(tape, pos, count).cuts[c].u[i]),
        forall|j: int| 0 <= j < e.cols ==> is_sign(#[trigger] e.run(tape, pos, count).cuts[c].v[j]),
{
    lemma_run_wf(e, tape, pos, count);
}

/// A fresh engine holds no cut, its reconstruction is the zero matrix, and
/// the squared norm of its residual is that of the target. A run of no
/// discovery leaves it so.
pub proof fn theorem_fresh_engine(
    target: Seq<Seq<int>>,
    rows: int,
    cols: int,
    tile_size: int,
    target_count: int,
    round_cap: int,
    tape: Seq<bool>,
    pos: int,
)
    requires
        rows > 0,
        cols > 0,
        tile_size > 0,
        is_grid(target, rows, cols),
        sq_norm(target) <= NORM_LIMIT,
    ensures
        ({
            let e = EngineView::fresh(target, rows, cols, tile_size, target_count, round_cap);
            &&& e.wf()
            &&& e.cuts.len() == 0
            &&& e.reconstruction() == zero_grid(rows, cols)
            &&& e.residual_norm() == sq_norm(target)
            &&& e.run(tape, pos, 0) == e
            &&& (target_count >= 0 ==> e.within_budget())
        }),
{
    let e = EngineView::fresh(target, rows, cols, tile_size, target_count, round_cap);
    assert(e.reconstruction() =~~= zero_grid(rows, cols));
    assert(target =~~= mat_sub(target, e.reconstruction()));
}

} // verus!
