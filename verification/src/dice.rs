//! Random numbers, and a record of what was asked for.

use vstd::prelude::*;
use rand::Rng;

verus! {

/// The generator of random numbers that belongs to a thread.
#[verifier::external_type_specification]
#[verifier::external_body]
pub struct ExThreadRng(rand::rngs::ThreadRng);

/// A generator of random numbers, with the draws that were made with it. The
/// record is there for the contracts only.
pub struct Dice {
    rng: rand::rngs::ThreadRng,
    log: Ghost<Seq<(nat, nat)>>,
}

impl Dice {
    /// The draws so far: the bound that each was made below, and what came.
    pub closed spec fn log(&self) -> Seq<(nat, nat)> {
        self.log@
    }

    /// A generator with which nothing has been drawn.
    pub fn new(rng: rand::rngs::ThreadRng) -> (d: Dice)
        ensures
            d.log() == Seq::<(nat, nat)>::empty(),
    {
        Dice { rng, log: Ghost(Seq::empty()) }
    }

    /// `rand::Rng::random_range` over `0..n`: some number below `n`, and one
    /// more draw with that bound. It panics on an empty range, which
    /// `requires` rules out, and where the operating system fails to give new
    /// seed material, which no argument decides. That the numbers are equally
    /// likely, but for a tiny bias, is what `rand` documents and no contract
    /// can say.
    #[verifier::external_body]
    pub(crate) fn below(&mut self, n: usize) -> (j: usize)
        requires
            n > 0,
        ensures
            j < n,
            final(self).log() == old(self).log().push((n as nat, j as nat)),
    {
        self.rng.random_range(0..n)
    }
}

} // verus!
