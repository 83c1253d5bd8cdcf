//! The xorshift64 generator used for seeding and sampling.
use vstd::prelude::*;

verus! {

/// One step of xorshift64: shifts by 13 left, 7 right and 17 left, each xored in.
pub open spec fn xorshift_step(x: u64) -> u64 {
    let a = x ^ (x << 13u64);
    let b = a ^ (a >> 7u64);
    b ^ (b << 17u64)
}

/// xorshift64 never maps a nonzero state to zero.
pub proof fn lemma_xorshift_nonzero(x: u64)
    requires
        x != 0,
    ensures
        xorshift_step(x) != 0,
{
    assert(xorshift_step(x) != 0) by (bit_vector)
        requires
            x != 0,
    ;
}

/// A xorshift64 generator.
pub struct XorShift64 {
    state: u64,
}

impl XorShift64 {
    /// The current state.
    pub closed spec fn state(&self) -> u64 {
        self.state
    }

    /// A generator's state is never zero, the one fixed point of the step.
    pub open spec fn wf(&self) -> bool {
        self.state() != 0
    }

    /// A generator seeded with `seed`, or with one when the seed is zero.
    pub fn new(seed: u64) -> (r: Self)
        ensures
            r.state() == (if seed >= 1 {
                seed
            } else {
                1
            }),
            r.wf(),
    {
        XorShift64 { state: if seed >= 1 {
            seed
        } else {
            1
        } }
    }

    /// Advances the state by one xorshift step and returns the new state.
    pub fn next_u64(&mut self) -> (r: u64)
        requires
            old(self).wf(),
        ensures
            r == xorshift_step(old(self).state()),
            final(self).state() == r,
            final(self).wf(),
    {
        proof {
            lemma_xorshift_nonzero(self.state);
        }
        let mut value = self.state;
        value ^= value << 13;
        value ^= value >> 7;
        value ^= value << 17;
        self.state = value;
        value
    }
}

} // verus!
