//! The state of an engine as a mathematical value, the step that one
//! discovery makes on it, and what every step keeps.

use crate::cut::{cuts_entry_sum, cuts_fit, cuts_total, CutView};
use crate::linear::{bilinear, is_grid, norm_drop, rank_one_sub, sq_norm};
use crate::matrix::NORM_LIMIT;
use crate::norm_lemmas::{lemma_norm_drop_of_quotient, lemma_sq_norm_after_update};
use crate::search::{
    agree, found_cut, lemma_search_signs, lemma_search_stable, search,
};
use vstd::prelude::*;

verus! {

/// The entrywise difference `a - b`.
pub open spec fn mat_sub(a: Seq<Seq<int>>, b: Seq<Seq<int>>) -> Seq<Seq<int>> {
    Seq::new(a.len(), |i: int| Seq::new(a[i].len(), |j: int| a[i][j] - b[i][j]))
}

/// The `n` by `m` matrix of zeros.
pub open spec fn zero_grid(n: int, m: int) -> Seq<Seq<int>> {
    Seq::new(n as nat, |i: int| Seq::new(m as nat, |j: int| 0int))
}

/// An engine as a mathematical value.
pub ghost struct EngineView {
    /// The matrix that is being decomposed.
    pub target: Seq<Seq<int>>,
    /// What is left of the target after the cuts found so far.
    pub residual: Seq<Seq<int>>,
    /// The cuts found so far, in the order of their discovery.
    pub cuts: Seq<CutView>,
    /// The number of rows.
    pub rows: int,
    /// The number of columns.
    pub cols: int,
    /// The number of rows in a tile.
    pub tile_size: int,
    /// The number of cuts asked for.
    pub target_count: int,
    /// The cap on the rounds of one search.
    pub round_cap: int,
}

impl EngineView {
    /// The state of a fresh engine: no cut yet, the residual is the target.
    pub open spec fn fresh(
        target: Seq<Seq<int>>,
        rows: int,
        cols: int,
        tile_size: int,
        target_count: int,
        round_cap: int,
    ) -> EngineView {
        EngineView {
            target,
            residual: target,
            cuts: Seq::empty(),
            rows,
            cols,
            tile_size,
            target_count,
            round_cap,
        }
    }

    /// What holds of every state an engine can be in: the shapes agree, the
    /// cuts are sign patterns, the residual is the target less the cuts,
    /// and the squared norm of the residual is at most that of the target,
    /// which is within the limit.
    pub open spec fn wf(self) -> bool {
        &&& self.rows > 0
        &&& self.cols > 0
        &&& self.tile_size > 0
        &&& is_grid(self.target, self.rows, self.cols)
        &&& is_grid(self.residual, self.rows, self.cols)
        &&& cuts_fit(self.cuts, self.rows, self.cols)
        &&& self.residual == mat_sub(self.target, cuts_total(self.cuts, self.rows, self.cols))
        &&& sq_norm(self.residual) <= sq_norm(self.target) <= NORM_LIMIT
    }

    /// No more cuts have been found than were asked for.
    pub open spec fn within_budget(self) -> bool {
        self.cuts.len() <= self.target_count
    }

    /// The squared L2 norm of the residual.
    pub open spec fn residual_norm(self) -> int {
        sq_norm(self.residual)
    }

    /// The sum of the cuts found so far.
    pub open spec fn reconstruction(self) -> Seq<Seq<int>> {
        cuts_total(self.cuts, self.rows, self.cols)
    }

    /// The state after `c` is taken from the residual and recorded.
    pub open spec fn after_cut(self, c: CutView) -> EngineView {
        EngineView {
            residual: rank_one_sub(self.residual, c.weight, c.u, c.v),
            cuts: self.cuts.push(c),
            ..self
        }
    }

    /// The cut that the next discovery finds with the draws at `pos` of the
    /// tape.
    pub open spec fn next_cut(self, tape: Seq<bool>, pos: int) -> CutView {
        found_cut(self.residual, self.cols, tape, pos, self.round_cap)
    }

    /// The position on the tape after the next discovery.
    pub open spec fn next_pos(self, tape: Seq<bool>, pos: int) -> int {
        search(self.residual, self.cols, tape, pos, self.round_cap).pos
    }

    /// The state after the next discovery.
    pub open spec fn step(self, tape: Seq<bool>, pos: int) -> EngineView {
        self.after_cut(self.next_cut(tape, pos))
    }

    /// The state after `count` discoveries in a row.
    pub open spec fn run(self, tape: Seq<bool>, pos: int, count: nat) -> EngineView
        decreases count,
    {
        if count == 0 {
            self
        } else {
            self.step(tape, pos).run(tape, self.next_pos(tape, pos), (count - 1) as nat)
        }
    }

    /// The position on the tape after `count` discoveries in a row.
    pub open spec fn run_pos(self, tape: Seq<bool>, pos: int, count: nat) -> int
        decreases count,
    {
        if count == 0 {
            pos
        } else {
            self.step(tape, pos).run_pos(tape, self.next_pos(tape, pos), (count - 1) as nat)
        }
    }
}

/// Recording one more cut leaves the sums over the earlier cuts as they
/// were.
pub proof fn lemma_cuts_sum_push(cuts: Seq<CutView>, c: CutView, i: int, j: int, k: int)
    requires
        k <= cuts.len(),
    ensures
        cuts_entry_sum(cuts.push(c), i, j, k) == cuts_entry_sum(cuts, i, j, k),
    decreases k,
{
    if k > 0 {
        lemma_cuts_sum_push(cuts, c, i, j, k - 1);
    }
}

/// Taking a sign pattern from the residual and recording it keeps the
/// state well formed, as long as the norm does not rise.
pub proof fn lemma_after_cut_wf(e: EngineView, c: CutView)
    requires
        e.wf(),
        c.fits(e.rows, e.cols),
        norm_drop(c.weight, bilinear(c.u, e.residual, c.v), e.rows * e.cols) >= 0,
    ensures
        e.after_cut(c).wf(),
        e.after_cut(c).residual_norm() == e.residual_norm() - norm_drop(
            c.weight,
            bilinear(c.u, e.residual, c.v),
            e.rows * e.cols,
        ),
{
    let f = e.after_cut(c);
    lemma_sq_norm_after_update(e.residual, c.weight, c.u, c.v);
    assert forall|k: int| 0 <= k < f.cuts.len() implies (#[trigger] f.cuts[k]).fits(
        e.rows,
        e.cols,
    ) by {
        if k < e.cuts.len() {
            assert(f.cuts[k] == e.cuts[k]);
        }
    }
    let total = cuts_total(f.cuts, e.rows, e.cols);
    assert forall|i: int, j: int| 0 <= i < e.rows && 0 <= j < e.cols implies f.residual[i][j]
        == e.target[i][j] - #[trigger] total[i][j] by {
        lemma_cuts_sum_push(e.cuts, c, i, j, e.cuts.len() as int);
        assert(e.residual[i][j] == e.target[i][j] - cuts_total(e.cuts, e.rows, e.cols)[i][j]);
    }
    assert(f.residual =~~= mat_sub(e.target, total));
}

/// One discovery keeps the state well formed, adds one sign pattern, and
/// never raises the squared norm of the residual: the norm falls by at
/// least the square of the weight.
pub proof fn lemma_step_wf(e: EngineView, tape: Seq<bool>, pos: int)
    requires
        e.wf(),
    ensures
        e.step(tape, pos).wf(),
        e.next_cut(tape, pos).fits(e.rows, e.cols),
        e.step(tape, pos).cuts == e.cuts.push(e.next_cut(tape, pos)),
        e.step(tape, pos).residual_norm() <= e.residual_norm(),
        e.step(tape, pos).residual_norm() + e.next_cut(tape, pos).weight * e.next_cut(
            tape,
            pos,
        ).weight <= e.residual_norm(),
        e.next_pos(tape, pos) >= pos,
{
    let c = e.next_cut(tape, pos);
    lemma_search_signs(e.residual, e.cols, tape, pos, e.round_cap);
    assert(e.rows * e.cols > 0) by (nonlinear_arith)
        requires
            e.rows > 0,
            e.cols > 0,
    ;
    lemma_norm_drop_of_quotient(bilinear(c.u, e.residual, c.v), e.rows * e.cols);
    lemma_after_cut_wf(e, c);
}

/// A run of discoveries keeps the state well formed.
pub proof fn lemma_run_wf(e: EngineView, tape: Seq<bool>, pos: int, count: nat)
    requires
        e.wf(),
    ensures
        e.run(tape, pos, count).wf(),
        e.run(tape, pos, count) == (EngineView {
            residual: e.run(tape, pos, count).residual,
            cuts: e.run(tape, pos, count).cuts,
            ..e
        }),
        e.run(tape, pos, count).cuts.len() == e.cuts.len() + count,
        e.run(tape, pos, count).residual_norm() <= e.residual_norm(),
        e.run_pos(tape, pos, count) >= pos,
    decreases count,
{
    if count > 0 {
        lemma_step_wf(e, tape, pos);
        lemma_run_wf(e.step(tape, pos), tape, e.next_pos(tape, pos), (count - 1) as nat);
    }
}

/// A run of `count` discoveries followed by one more is a run of
/// `count + 1`.
pub proof fn lemma_run_then_step(e: EngineView, tape: Seq<bool>, pos: int, count: nat)
    ensures
        e.run(tape, pos, count + 1) == e.run(tape, pos, count).step(
            tape,
            e.run_pos(tape, pos, count),
        ),
        e.run_pos(tape, pos, count + 1) == e.run(tape, pos, count).next_pos(
            tape,
            e.run_pos(tape, pos, count),
        ),
    decreases count,
{
    if count > 0 {
        lemma_run_then_step(e.step(tape, pos), tape, e.next_pos(tape, pos), (count - 1) as nat);
        assert(e.run(tape, pos, count + 1) == e.step(tape, pos).run(
            tape,
            e.next_pos(tape, pos),
            count,
        ));
    } else {
        assert(e.run(tape, pos, 1) == e.step(tape, pos).run(tape, e.next_pos(tape, pos), 0));
        assert(e.run_pos(tape, pos, 1) == e.step(tape, pos).run_pos(
            tape,
            e.next_pos(tape, pos),
            0,
        ));
    }
}

/// One discovery reads only the draws it consumes: on two tapes that
/// agree up to where it ends on the first, it finds the same cut and ends
/// in the same state.
pub proof fn lemma_step_stable(e: EngineView, a: Seq<bool>, b: Seq<bool>, upto: int, pos: int)
    requires
        e.wf(),
        agree(a, b, upto),
        0 <= pos,
        e.next_pos(a, pos) <= upto,
    ensures
        e.step(b, pos) == e.step(a, pos),
        e.next_cut(b, pos) == e.next_cut(a, pos),
        e.next_pos(b, pos) == e.next_pos(a, pos),
{
    lemma_search_stable(e.residual, e.cols, a, b, upto, pos, e.round_cap);
}

/// The position on the tape grows with the number of discoveries.
pub proof fn lemma_run_pos_grows(e: EngineView, tape: Seq<bool>, pos: int, k: nat, count: nat)
    requires
        e.wf(),
        k <= count,
    ensures
        pos <= e.run_pos(tape, pos, k) <= e.run_pos(tape, pos, count),
    decreases count,
{
    if k == 0 {
        lemma_run_wf(e, tape, pos, count);
    } else {
        lemma_step_wf(e, tape, pos);
        lemma_run_pos_grows(
            e.step(tape, pos),
            tape,
            e.next_pos(tape, pos),
            (k - 1) as nat,
            (count - 1) as nat,
        );
    }
}

/// A run of discoveries reads only the draws it consumes.
pub proof fn lemma_run_stable(
    e: EngineView,
    a: Seq<bool>,
    b: Seq<bool>,
    upto: int,
    pos: int,
    count: nat,
)
    requires
        e.wf(),
        agree(a, b, upto),
        0 <= pos,
        e.run_pos(a, pos, count) <= upto,
    ensures
        e.run(b, pos, count) == e.run(a, pos, count),
        e.run_pos(b, pos, count) == e.run_pos(a, pos, count),
    decreases count,
{
    if count > 0 {
        lemma_step_wf(e, a, pos);
        lemma_run_wf(e.step(a, pos), a, e.next_pos(a, pos), (count - 1) as nat);
        lemma_step_stable(e, a, b, upto, pos);
        lemma_run_stable(e.step(a, pos), a, b, upto, e.next_pos(a, pos), (count - 1) as nat);
    }
}

} // verus!
