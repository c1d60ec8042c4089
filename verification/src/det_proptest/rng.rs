//! The xorshift64 generator.
use vstd::prelude::*;

verus! {

/// One xorshift64 step: `x ^= x << 13; x ^= x >> 7; x ^= x << 17`.
pub open spec fn xorshift(x: u64) -> u64 {
    let a = x ^ (x << 13u64);
    let b = a ^ (a >> 7u64);
    b ^ (b << 17u64)
}

/// The state that a seed starts from: the seed itself, or a fixed non-zero
/// constant for the seed zero, which would keep the generator at zero.
pub open spec fn seed_state(seed: u64) -> u64 {
    if seed == 0 {
        0x9E37_79B9_7F4A_7C15
    } else {
        seed
    }
}

/// A step never turns a non-zero state into zero, so the generator never
/// freezes.
pub proof fn lemma_xorshift_nonzero(x: u64)
    requires
        x != 0,
    ensures
        xorshift(x) != 0,
{
    assert(x != 0 ==> (x ^ (x << 13u64)) != 0) by (bit_vector);
    let a = x ^ (x << 13u64);
    assert(a != 0 ==> (a ^ (a >> 7u64)) != 0) by (bit_vector);
    let b = a ^ (a >> 7u64);
    assert(b != 0 ==> (b ^ (b << 17u64)) != 0) by (bit_vector);
}

/// A deterministic 64-bit xorshift pseudo-random generator: the same seed
/// gives the same sequence on every platform and every run.
#[derive(Clone, Copy, Debug, PartialEq, Eq)]
pub struct Xorshift64 {
    state: u64,
}

impl View for Xorshift64 {
    type V = u64;

    /// The current state.
    closed spec fn view(&self) -> u64 {
        self.state
    }
}

impl Xorshift64 {
    #[verifier::type_invariant]
    closed spec fn nonzero(self) -> bool {
        self.state != 0
    }

    /// The state is never zero.
    pub fn check_nonzero(&self)
        ensures
            self@ != 0,
    {
        proof {
            use_type_invariant(self);
        }
    }

    /// A generator started from `seed` (a zero seed is replaced by a fixed
    /// non-zero constant).
    pub fn new(seed: u64) -> (r: Self)
        ensures
            r@ == seed_state(seed),
    {
        Xorshift64 {
            state: if seed == 0 {
                0x9E37_79B9_7F4A_7C15
            } else {
                seed
            },
        }
    }

    /// The next pseudo-random `u64`: the generator steps once and returns its
    /// new state.
    pub fn next_u64(&mut self) -> (r: u64)
        ensures
            r == xorshift(old(self)@),
            final(self)@ == r,
    {
        proof {
            use_type_invariant(&*self);
            lemma_xorshift_nonzero(self.state);
        }
        let mut x = self.state;
        x = x ^ (x << 13u64);
        x = x ^ (x >> 7u64);
        x = x ^ (x << 17u64);
        self.state = x;
        x
    }

    /// The next pseudo-random `u32`: the high half of the next `u64`.
    pub fn next_u32(&mut self) -> (r: u32)
        ensures
            r == (xorshift(old(self)@) >> 32u64) as u32,
            final(self)@ == xorshift(old(self)@),
    {
        let x = self.next_u64();
        (x >> 32u64) as u32
    }
}

} // verus!
