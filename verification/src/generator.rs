//! The source of random sign draws.

use rand::rngs::StdRng;
use rand::Rng;
use vstd::prelude::*;

verus! {

/// `rand::rngs::StdRng`, carried as an opaque value.
#[verifier::external_type_specification]
#[verifier::external_body]
pub struct ExStdRng(StdRng);

/// Calls `Rng::gen::<bool>` on the generator. Nothing is claimed of the
/// value that comes back: every use of it is verified for both outcomes.
#[verifier::external_body]
fn next_bool(rng: &mut StdRng) -> (b: bool) {
    rng.gen::<bool>()
}

/// The sign that a draw stands for: `true` is +1, `false` is -1.
pub open spec fn sign_of_draw(b: bool) -> int {
    if b { 1 } else { -1 }
}

/// A pseudo-random generator together with the record of every draw it has
/// handed out. The record exists only in proofs; it lets a contract say
/// exactly which draws a computation consumed.
pub struct Generator {
    rng: StdRng,
    drawn: Ghost<Seq<bool>>,
}

impl Generator {
    /// The draws handed out so far, oldest first.
    pub closed spec fn history(&self) -> Seq<bool> {
        self.drawn@
    }

    /// Wraps a generator; no draw has been recorded yet.
    pub fn new(rng: StdRng) -> (g: Generator)
        ensures
            g.history() == Seq::<bool>::empty(),
    {
        Generator { rng, drawn: Ghost(Seq::empty()) }
    }

    /// Draws one value and appends it to the record.
    pub fn draw(&mut self) -> (b: bool)
        ensures
            final(self).history() == old(self).history().push(b),
    {
        let b = next_bool(&mut self.rng);
        self.drawn = Ghost(self.drawn@.push(b));
        b
    }
}

/// The sign that a draw stands for, as a machine integer.
pub fn sign_from_draw(b: bool) -> (s: i8)
    ensures
        s as int == sign_of_draw(b),
{
    if b {
        1
    } else {
        -1
    }
}

} // verus!
