//! A xorshift*-style deterministic 64-bit stream generator. The all-zero
//! state is the absorbing fixed point of the xor-shift steps, so zero
//! seeds are remapped to one and the state never returns to zero.
use vstd::prelude::*;

verus! {

/// The three xor-shift steps applied to a state word.
pub open spec fn xs_shift(s: u64) -> u64 {
    let s1 = s ^ (s >> 12u64);
    let s2 = s1 ^ (s1 << 25u64);
    s2 ^ (s2 >> 27u64)
}

/// The stream value derived from a post-shift state: multiplication by
/// the fixed odd constant, wrapping.
pub open spec fn xs_output(s: u64) -> u64 {
    ((s as int * 0x2545F4914F6CDD1D) % 0x1_0000_0000_0000_0000) as u64
}

/// The xor-shift steps never map a nonzero state to zero.
pub proof fn lemma_xs_shift_nonzero(s: u64)
    requires
        s != 0,
    ensures
        xs_shift(s) != 0,
{
    let s1 = s ^ (s >> 12u64);
    let s2 = s1 ^ (s1 << 25u64);
    assert(s ^ (s >> 12u64) == 0 ==> s == 0) by (bit_vector);
    assert(s1 ^ (s1 << 25u64) == 0 ==> s1 == 0) by (bit_vector);
    assert(s2 ^ (s2 >> 27u64) == 0 ==> s2 == 0) by (bit_vector);
}

/// A xorshift*64 generator; the state is always nonzero.
#[derive(Clone)]
pub struct Xorshift64Star {
    state: u64,
}

impl Xorshift64Star {
    /// The current state word.
    pub closed spec fn spec_state(&self) -> u64 {
        self.state
    }

    /// The generator is live when its state is nonzero.
    pub open spec fn wf(&self) -> bool {
        self.spec_state() != 0
    }

    /// Seed a generator; a zero seed is remapped to one so the stream
    /// never sits at the absorbing zero state.
    pub fn new(seed: u64) -> (r: Self)
        ensures
            r.spec_state() == if seed == 0 {
                1u64
            } else {
                seed
            },
            r.wf(),
    {
        if seed == 0 {
            Xorshift64Star { state: 1 }
        } else {
            Xorshift64Star { state: seed }
        }
    }

    /// Advance the stream one step: the state passes through the three
    /// xor-shift steps, and the output is the new state scaled by the
    /// fixed odd constant, wrapping.
    pub fn next(&mut self) -> (r: u64)
        requires
            old(self).wf(),
        ensures
            final (self).spec_state() == xs_shift(old(self).spec_state()),
            r == xs_output(final (self).spec_state()),
            final (self).wf(),
    {
        proof {
            lemma_xs_shift_nonzero(self.state);
        }
        self.state = self.state ^ (self.state >> 12u64);
        self.state = self.state ^ (self.state << 25u64);
        self.state = self.state ^ (self.state >> 27u64);
        self.state.wrapping_mul(0x2545F4914F6CDD1D)
    }
}

} // verus!
