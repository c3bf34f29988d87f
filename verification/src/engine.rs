//! The engine: it owns the residual and the cuts found so far, finds one
//! cut after another, and sums them up on demand.

use crate::cut::{cuts_entry_sum, cuts_of, cuts_total, Cut};
use crate::error::ConfigError;
use crate::finder::{find_cut, DEFAULT_ROUND_CAP};
use crate::generator::Generator;
use crate::linear::{is_sign, rank_one_sub, sq_norm};
use crate::matrix::{Matrix, NORM_LIMIT};
use crate::norm_lemmas::lemma_entries_fit;
use crate::search::{extends, lemma_extends_trans};
use crate::state::{lemma_run_then_step, lemma_step_stable, lemma_step_wf, mat_sub, EngineView};
use crate::tiled::{lemma_signed_weight, rank_one_update, zeros};
use crate::views::signs_of;
use vstd::prelude::*;

verus! {

/// The signed-cut engine of one matrix.
pub struct SignedCutEngine {
    residual: Matrix,
    cuts: Vec<Cut>,
    tile_size: usize,
    target_count: usize,
    round_cap: usize,
    target: Ghost<Seq<Seq<int>>>,
}

impl View for SignedCutEngine {
    type V = EngineView;

    closed spec fn view(&self) -> EngineView {
        EngineView {
            target: self.target@,
            residual: self.residual@,
            cuts: cuts_of(self.cuts@),
            rows: self.residual.nrows() as int,
            cols: self.residual.ncols() as int,
            tile_size: self.tile_size as int,
            target_count: self.target_count as int,
            round_cap: self.round_cap as int,
        }
    }
}

impl SignedCutEngine {
    /// The stored matrix is well formed.
    pub closed spec fn stored(&self) -> bool {
        self.residual.wf()
    }

    /// Well-formedness: every state that `create` and the methods of the
    /// engine produce has it.
    pub open spec fn wf(&self) -> bool {
        &&& self.stored()
        &&& self@.wf()
    }

    /// An engine for `target`. The residual starts as a copy of the target
    /// and no cut has been found. A target without rows or columns, a tile
    /// size of zero and a target whose squared norm is above `NORM_LIMIT`
    /// are refused, in this order.
    pub fn create(target: &Matrix, tile_size: usize, target_count: usize) -> (res: Result<
        SignedCutEngine,
        ConfigError,
    >)
        requires
            target.wf(),
        ensures
            match res {
                Ok(e) => {
                    &&& target.nrows() > 0
                    &&& target.ncols() > 0
                    &&& tile_size > 0
                    &&& sq_norm(target@) <= NORM_LIMIT
                    &&& e.wf()
                    &&& e@ == EngineView::fresh(
                        target@,
                        target.nrows() as int,
                        target.ncols() as int,
                        tile_size as int,
                        target_count as int,
                        DEFAULT_ROUND_CAP as int,
                    )
                },
                Err(ConfigError::NoRows) => target.nrows() == 0,
                Err(ConfigError::NoColumns) => target.nrows() > 0 && target.ncols() == 0,
                Err(ConfigError::ZeroTileSize) => target.nrows() > 0 && target.ncols() > 0
                    && tile_size == 0,
                Err(ConfigError::NormTooLarge) => target.nrows() > 0 && target.ncols() > 0
                    && tile_size > 0 && sq_norm(target@) > NORM_LIMIT,
                Err(_) => false,
            },
    {
        if target.rows() == 0 {
            return Err(ConfigError::NoRows);
        }
        if target.cols() == 0 {
            return Err(ConfigError::NoColumns);
        }
        if tile_size == 0 {
            return Err(ConfigError::ZeroTileSize);
        }
        if target.squared_norm().is_none() {
            return Err(ConfigError::NormTooLarge);
        }
        let e = SignedCutEngine {
            residual: target.copy(),
            cuts: Vec::new(),
            tile_size,
            target_count,
            round_cap: DEFAULT_ROUND_CAP,
            target: Ghost(target@),
        };
        proof {
            let n = target.nrows() as int;
            let m = target.ncols() as int;
            assert(cuts_of(e.cuts@) =~= Seq::empty());
            assert(target@ =~~= mat_sub(target@, cuts_total(Seq::empty(), n, m)));
        }
        Ok(e)
    }

    /// The number of rows of the target.
    pub fn rows(&self) -> (n: usize)
        requires
            self.wf(),
        ensures
            n == self@.rows,
    {
        self.residual.rows()
    }

    /// The number of columns of the target.
    pub fn cols(&self) -> (m: usize)
        requires
            self.wf(),
        ensures
            m == self@.cols,
    {
        self.residual.cols()
    }

    /// The number of rows in a tile.
    pub fn tile_size(&self) -> (t: usize)
        ensures
            t == self@.tile_size,
    {
        self.tile_size
    }

    /// The number of cuts that was asked for.
    pub fn target_count(&self) -> (c: usize)
        ensures
            c == self@.target_count,
    {
        self.target_count
    }

    /// The cap on the rounds of one search.
    pub fn round_cap(&self) -> (c: usize)
        ensures
            c == self@.round_cap,
    {
        self.round_cap
    }

    /// Sets the cap on the rounds of one search. Nothing else changes. A
    /// search makes one round even where the cap is zero.
    pub fn set_round_cap(&mut self, cap: usize)
        requires
            old(self).wf(),
        ensures
            final(self).wf(),
            final(self)@ == (EngineView { round_cap: cap as int, ..old(self)@ }),
    {
        self.round_cap = cap;
    }

    /// The number of cuts found so far.
    pub fn cut_count(&self) -> (c: usize)
        ensures
            c == self@.cuts.len(),
    {
        self.cuts.len()
    }

    /// The cuts found so far, in the order of their discovery.
    pub fn cuts(&self) -> (cuts: &Vec<Cut>)
        ensures
            cuts_of(cuts@) == self@.cuts,
    {
        &self.cuts
    }

    /// The residual: the target less the cuts found so far.
    pub fn residual(&self) -> (r: &Matrix)
        requires
            self.wf(),
        ensures
            r.wf(),
            r@ == self@.residual,
            r.nrows() == self@.rows,
            r.ncols() == self@.cols,
    {
        &self.residual
    }

    /// The squared L2 norm of the residual.
    pub fn residual_norm(&self) -> (norm: u128)
        requires
            self.wf(),
        ensures
            norm == self@.residual_norm(),
            norm <= NORM_LIMIT,
    {
        match self.residual.squared_norm() {
            Some(norm) => norm,
            None => 0,
        }
    }

    /// Finds the next cut on the residual, takes it from the residual tile
    /// by tile, and records it. Returns the cut and the squared norm of
    /// the residual after the update. The engine does not count the calls:
    /// a cut is found also where `target_count` cuts have been found.
    pub fn discover_next(&mut self, gen: &mut Generator) -> (res: (Cut, u128))
        requires
            old(self).wf(),
        ensures
            final(self).wf(),
            extends(final(gen).history(), old(gen).history()),
            final(self)@ == old(self)@.step(
                final(gen).history(),
                old(gen).history().len() as int,
            ),
            final(gen).history().len() == old(self)@.next_pos(
                final(gen).history(),
                old(gen).history().len() as int,
            ),
            res.0@ == old(self)@.next_cut(final(gen).history(), old(gen).history().len() as int),
            res.0@.fits(old(self)@.rows, old(self)@.cols),
            final(self)@.cuts == old(self)@.cuts.push(res.0@),
            final(self)@.residual == rank_one_sub(
                old(self)@.residual,
                res.0@.weight,
                res.0@.u,
                res.0@.v,
            ),
            res.1 == final(self)@.residual_norm(),
            final(self)@.residual_norm() <= old(self)@.residual_norm(),
            old(self)@.cuts.len() < old(self)@.target_count ==> final(self)@.within_budget(),
    {
        let ghost before = self@;
        let ghost pos = gen.history().len() as int;
        let cut = find_cut(&self.residual, self.tile_size, self.round_cap, gen);
        proof {
            let tape = gen.history();
            lemma_step_wf(before, tape, pos);
            let goal = before.step(tape, pos).residual;
            assert(goal == rank_one_sub(
                self.residual@,
                cut.weight as int,
                signs_of(cut.u@),
                signs_of(cut.v@),
            ));
            assert forall|i: int, j: int|
                0 <= i < self.residual.nrows() && 0 <= j < self.residual.ncols() implies i64::MIN
                <= #[trigger] goal[i][j] <= i64::MAX by {
                lemma_entries_fit(goal, i, j);
            }
        }
        rank_one_update(&mut self.residual, cut.weight, &cut.u, &cut.v, self.tile_size);
        let copy = cut.copy();
        self.cuts.push(cut);
        proof {
            assert(cuts_of(self.cuts@) =~= before.cuts.push(copy@));
        }
        let norm = self.residual_norm();
        (copy, norm)
    }

    /// Finds cuts until `target_count` have been found, and returns the
    /// squared norm of the residual after each of them. Where that many
    /// have been found already, nothing happens.
    pub fn discover_remaining(&mut self, gen: &mut Generator) -> (norms: Vec<u128>)
        requires
            old(self).wf(),
        ensures
            final(self).wf(),
            extends(final(gen).history(), old(gen).history()),
            norms.len() == (if old(self)@.cuts.len() < old(self)@.target_count {
                old(self)@.target_count - old(self)@.cuts.len()
            } else {
                0
            }),
            final(self)@ == old(self)@.run(
                final(gen).history(),
                old(gen).history().len() as int,
                norms.len() as nat,
            ),
            final(gen).history().len() == old(self)@.run_pos(
                final(gen).history(),
                old(gen).history().len() as int,
                norms.len() as nat,
            ),
            forall|k: int|
                0 <= k < norms.len() ==> (#[trigger] norms[k]) as int == old(self)@.run(
                    final(gen).history(),
                    old(gen).history().len() as int,
                    (k + 1) as nat,
                ).residual_norm(),
            forall|k: int| 0 <= k < norms.len() ==> (#[trigger] norms[k]) <= old(self)@.residual_norm(),
            forall|k: int, l: int| 0 <= k <= l < norms.len() ==> norms[l] <= norms[k],
            old(self)@.within_budget() ==> final(self)@.within_budget(),
    {
        let ghost start = self@;
        let ghost pos = gen.history().len() as int;
        let mut norms: Vec<u128> = Vec::new();
        while self.cuts.len() < self.target_count
            invariant
                self.wf(),
                start == old(self)@,
                start.wf(),
                pos == old(gen).history().len(),
                self@.target_count == start.target_count,
                self@.cuts.len() == start.cuts.len() + norms.len(),
                self@.cuts.len() == self.cuts.len(),
                self@.target_count == self.target_count,
                norms.len() > 0 ==> self@.cuts.len() <= start.target_count,
                extends(gen.history(), old(gen).history()),
                forall|t: Seq<bool>| #[trigger]
                    extends(t, gen.history()) ==> {
                        &&& start.run(t, pos, norms.len() as nat) == self@
                        &&& start.run_pos(t, pos, norms.len() as nat) == gen.history().len()
                        &&& forall|k: int|
                            0 <= k < norms.len() ==> (#[trigger] norms[k]) as int == start.run(
                                t,
                                pos,
                                (k + 1) as nat,
                            ).residual_norm()
                    },
                forall|k: int| 0 <= k < norms.len() ==> self@.residual_norm() <= #[trigger] norms[k],
                forall|k: int| 0 <= k < norms.len() ==> (#[trigger] norms[k]) <= start.residual_norm(),
                self@.residual_norm() <= start.residual_norm(),
                forall|k: int, l: int| 0 <= k <= l < norms.len() ==> norms[l] <= norms[k],
            decreases self.target_count - self.cuts.len(),
        {
            let ghost cur = self@;
            let ghost h = gen.history();
            let ghost done = norms.len() as nat;
            let found = self.discover_next(gen);
            let ghost old_norms = norms@;
            norms.push(found.1);
            proof {
                let now = gen.history();
                assert forall|t: Seq<bool>| #[trigger] extends(t, now) implies {
                    &&& start.run(t, pos, norms.len() as nat) == self@
                    &&& start.run_pos(t, pos, norms.len() as nat) == now.len()
                    &&& forall|k: int|
                        0 <= k < norms.len() ==> (#[trigger] norms[k]) as int == start.run(
                            t,
                            pos,
                            (k + 1) as nat,
                        ).residual_norm()
                } by {
                    lemma_extends_trans(t, now, h);
                    assert(extends(t, h));
                    lemma_step_stable(cur, now, t, now.len() as int, h.len() as int);
                    lemma_run_then_step(start, t, pos, done);
                    assert forall|k: int| 0 <= k < norms.len() implies (#[trigger] norms[k]) as int
                        == start.run(t, pos, (k + 1) as nat).residual_norm() by {
                        if k < done {
                            assert(norms[k] == old_norms[k]);
                        }
                    }
                }
            }
        }
        proof {
            assert(extends(gen.history(), gen.history()));
        }
        norms
    }

    /// Adds to `acc` row `i` of the matrix of cut `k`.
    fn add_cut_row(&self, acc: &mut Vec<i128>, k: usize, i: usize)
        requires
            self.wf(),
            k < self@.cuts.len(),
            i < self@.rows,
            old(acc).len() == self@.cols,
            forall|j: int|
                0 <= j < old(acc).len() ==> (#[trigger] old(acc)[j]) as int == cuts_entry_sum(
                    self@.cuts,
                    i as int,
                    j,
                    k as int,
                ),
            forall|j: int|
                0 <= j < old(acc).len() ==> -k * 0x8000_0000_0000_0000 <= (#[trigger] old(acc)[j]) as int
                    <= k * 0x8000_0000_0000_0000,
        ensures
            final(acc).len() == old(acc).len(),
            forall|j: int|
                0 <= j < final(acc).len() ==> (#[trigger] final(acc)[j]) as int == cuts_entry_sum(
                    self@.cuts,
                    i as int,
                    j,
                    k + 1,
                ),
            forall|j: int|
                0 <= j < final(acc).len() ==> -(k + 1) * 0x8000_0000_0000_0000 <= (
                #[trigger] final(acc)[j]) as int <= (k + 1) * 0x8000_0000_0000_0000,
    {
        let cut = &self.cuts[k];
        let ghost c = self@.cuts[k as int];
        assert(c == cut@);
        assert(c.fits(self@.rows, self@.cols));
        let m = acc.len();
        let w: i128 = cut.weight as i128;
        let row_sign = cut.u[i];
        let mut j: usize = 0;
        while j < m
            invariant
                self.wf(),
                k < self@.cuts.len(),
                k < self.cuts.len(),
                i < self@.rows,
                c == self@.cuts[k as int],
                c == cut@,
                c.fits(self@.rows, self@.cols),
                m == self@.cols,
                acc.len() == m,
                w == cut.weight,
                row_sign == cut.u[i as int],
                j <= m,
                forall|l: int|
                    0 <= l < m ==> (#[trigger] acc[l]) as int == cuts_entry_sum(
                        self@.cuts,
                        i as int,
                        l,
                        if l < j { k + 1 } else { k as int },
                    ),
                forall|l: int|
                    0 <= l < m ==> -(k + 1) * 0x8000_0000_0000_0000 <= (#[trigger] acc[l]) as int <= (k
                        + 1) * 0x8000_0000_0000_0000,
                forall|l: int|
                    j <= l < m ==> -k * 0x8000_0000_0000_0000 <= (#[trigger] acc[l]) as int <= k
                        * 0x8000_0000_0000_0000,
            decreases m - j,
        {
            proof {
                assert(is_sign(c.u[i as int]));
                assert(is_sign(c.v[j as int]));
                lemma_signed_weight(c.weight, c.u[i as int], c.v[j as int]);
                assert(c.entry(i as int, j as int) == (if c.u[i as int] == c.v[j as int] {
                    c.weight
                } else {
                    -c.weight
                }));
            }
            let t: i128 = if cut.v[j] == row_sign { w } else { -w };
            let a: i128 = acc[j];
            acc[j] = a + t;
            j += 1;
        }
    }

    /// The sum of the cuts found so far. It is the target less the
    /// residual.
    pub fn reconstruct(&self) -> (out: Matrix)
        requires
            self.wf(),
        ensures
            out.wf(),
            out.nrows() == self@.rows,
            out.ncols() == self@.cols,
            out@ == self@.reconstruction(),
            out@ == mat_sub(self@.target, self@.residual),
    {
        let n = self.residual.rows();
        let m = self.residual.cols();
        let count = self.cuts.len();
        let ghost total = self@.reconstruction();
        let mut out = Matrix::filled(n, m, 0);
        let mut i: usize = 0;
        while i < n
            invariant
                self.wf(),
                n == self@.rows,
                m == self@.cols,
                count == self@.cuts.len(),
                total == self@.reconstruction(),
                out.wf(),
                out.nrows() == n,
                out.ncols() == m,
                i <= n,
                forall|k: int| 0 <= k < i ==> #[trigger] out@[k] == total[k],
            decreases n - i,
        {
            let mut acc = zeros(m);
            let mut k: usize = 0;
            while k < count
                invariant
                    self.wf(),
                    i < self@.rows,
                    m == self@.cols,
                    count == self@.cuts.len(),
                    k <= count,
                    acc.len() == m,
                    forall|j: int|
                        0 <= j < m ==> (#[trigger] acc[j]) as int == cuts_entry_sum(
                            self@.cuts,
                            i as int,
                            j,
                            k as int,
                        ),
                    forall|j: int|
                        0 <= j < m ==> -k * 0x8000_0000_0000_0000 <= (#[trigger] acc[j]) as int <= k
                            * 0x8000_0000_0000_0000,
                decreases count - k,
            {
                self.add_cut_row(&mut acc, k, i);
                k += 1;
            }
            let mut j: usize = 0;
            while j < m
                invariant
                    self.wf(),
                    i < n,
                    n == self@.rows,
                    m == self@.cols,
                    count == self@.cuts.len(),
                    total == self@.reconstruction(),
                    out.wf(),
                    out.nrows() == n,
                    out.ncols() == m,
                    acc.len() == m,
                    j <= m,
                    forall|l: int| 0 <= l < m ==> (#[trigger] acc[l]) as int == total[i as int][l],
                    forall|k: int| 0 <= k < i ==> #[trigger] out@[k] == total[k],
                    forall|l: int| 0 <= l < j ==> #[trigger] out@[i as int][l] == total[i as int][l],
                decreases m - j,
            {
                proof {
                    lemma_entries_fit(self@.target, i as int, j as int);
                    lemma_entries_fit(self@.residual, i as int, j as int);
                    assert(self@.residual[i as int][j as int] == self@.target[i as int][j as int]
                        - total[i as int][j as int]);
                }
                let x: i128 = acc[j];
                out.set(i, j, x as i64);
                j += 1;
            }
            assert(out@[i as int] =~= total[i as int]);
            i += 1;
        }
        proof {
            assert(out@ =~= total);
            assert forall|i: int, j: int| 0 <= i < n && 0 <= j < m implies total[i][j]
                == self@.target[i][j] - self@.residual[i][j] by {
                assert(self@.residual[i][j] == self@.target[i][j] - total[i][j]);
            }
            assert(total =~~= mat_sub(self@.target, self@.residual));
        }
        out
    }
}

} // verus!
