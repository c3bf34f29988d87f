//! A cut: two sign vectors and a weight.

use crate::linear::is_sign_vec;
use crate::views::signs_of;
use vstd::prelude::*;

verus! {

/// A rank-one sign pattern with a weight. It stands for the matrix whose
/// entry in row `i`, column `j` is `weight * u[i] * v[j]`.
#[derive(Debug)]
pub struct Cut {
    /// One sign per row.
    pub u: Vec<i8>,
    /// One sign per column.
    pub v: Vec<i8>,
    /// The weight of the pattern.
    pub weight: i64,
}

/// A cut over mathematical integers.
pub ghost struct CutView {
    pub u: Seq<int>,
    pub v: Seq<int>,
    pub weight: int,
}

impl CutView {
    /// The cut has `n` row signs and `m` column signs, each +1 or -1.
    pub open spec fn fits(self, n: int, m: int) -> bool {
        &&& self.u.len() == n
        &&& self.v.len() == m
        &&& is_sign_vec(self.u)
        &&& is_sign_vec(self.v)
    }

    /// The entry of the cut's matrix in row `i`, column `j`.
    pub open spec fn entry(self, i: int, j: int) -> int {
        self.weight * self.u[i] * self.v[j]
    }
}

impl View for Cut {
    type V = CutView;

    open spec fn view(&self) -> CutView {
        CutView { u: signs_of(self.u@), v: signs_of(self.v@), weight: self.weight as int }
    }
}

/// The cuts of a vector, as mathematical cuts.
pub open spec fn cuts_of(cuts: Seq<Cut>) -> Seq<CutView> {
    Seq::new(cuts.len(), |k: int| cuts[k]@)
}

/// The sum over the first `k` cuts of their entries in row `i`, column `j`.
pub open spec fn cuts_entry_sum(cuts: Seq<CutView>, i: int, j: int, k: int) -> int
    decreases k,
{
    if k <= 0 {
        0
    } else {
        cuts_entry_sum(cuts, i, j, k - 1) + cuts[k - 1].entry(i, j)
    }
}

/// The `n` by `m` matrix that the cuts add up to.
pub open spec fn cuts_total(cuts: Seq<CutView>, n: int, m: int) -> Seq<Seq<int>> {
    Seq::new(
        n as nat,
        |i: int| Seq::new(m as nat, |j: int| cuts_entry_sum(cuts, i, j, cuts.len() as int)),
    )
}

/// Every cut has `n` row signs and `m` column signs.
pub open spec fn cuts_fit(cuts: Seq<CutView>, n: int, m: int) -> bool {
    forall|k: int| 0 <= k < cuts.len() ==> (#[trigger] cuts[k]).fits(n, m)
}

/// Whether every entry of `s` is +1 or -1.
pub fn all_signs(s: &Vec<i8>) -> (ok: bool)
    ensures
        ok == is_sign_vec(signs_of(s@)),
{
    let mut i: usize = 0;
    while i < s.len()
        invariant
            i <= s.len(),
            forall|k: int| 0 <= k < i ==> s[k] == 1 || s[k] == -1,
        decreases s.len() - i,
    {
        if s[i] != 1 && s[i] != -1 {
            assert(!crate::linear::is_sign(signs_of(s@)[i as int]));
            return false;
        }
        i += 1;
    }
    assert forall|k: int| 0 <= k < signs_of(s@).len() implies crate::linear::is_sign(
        #[trigger] signs_of(s@)[k],
    ) by {
        assert(s[k] == 1 || s[k] == -1);
    }
    true
}

/// A copy of a sign vector.
pub fn copy_signs(s: &Vec<i8>) -> (out: Vec<i8>)
    ensures
        out@ == s@,
{
    let mut out: Vec<i8> = Vec::new();
    let mut i: usize = 0;
    while i < s.len()
        invariant
            i <= s.len(),
            out.len() == i,
            forall|k: int| 0 <= k < i ==> out[k] == s[k],
        decreases s.len() - i,
    {
        out.push(s[i]);
        i += 1;
    }
    assert(out@ =~= s@);
    out
}

impl Cut {
    /// A copy of the cut.
    pub fn copy(&self) -> (c: Cut)
        ensures
            c.u@ == self.u@,
            c.v@ == self.v@,
            c.weight == self.weight,
            c@ == self@,
    {
        Cut { u: copy_signs(&self.u), v: copy_signs(&self.v), weight: self.weight }
    }

    /// Whether the cut has `n` row signs and `m` column signs, each +1 or
    /// -1.
    pub fn is_valid(&self, n: usize, m: usize) -> (ok: bool)
        ensures
            ok == self@.fits(n as int, m as int),
    {
        self.u.len() == n && self.v.len() == m && all_signs(&self.u) && all_signs(&self.v)
    }
}

} // verus!
