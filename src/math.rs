//! The deterministic random series: xorshift32 over a `u32` state.
use vstd::prelude::*;

verus! {

/// One xorshift32 step: `x ^= x << 13; x ^= x >> 17; x ^= x << 5`.
pub open spec fn xorshift_step(x: u32) -> u32 {
    let a = x ^ (x << 13u32);
    let b = a ^ (a >> 17u32);
    b ^ (b << 5u32)
}

/// The state of a random series. A series that starts from a non-zero
/// state never reaches zero; zero is a fixed point of the step.
pub struct RandomSeries {
    pub state: u32,
}

impl RandomSeries {
    /// A series seeded with `seed`.
    pub fn new(seed: u32) -> (r: RandomSeries)
        ensures
            r.state == seed,
    {
        RandomSeries { state: seed }
    }
}

/// The step keeps a non-zero state non-zero.
pub proof fn lemma_xorshift_nonzero(x: u32)
    requires
        x != 0,
    ensures
        xorshift_step(x) != 0,
{
    assert(x != 0 ==> ((x ^ (x << 13u32)) ^ ((x ^ (x << 13u32)) >> 17u32)) ^ (((x ^ (x << 13u32)) ^ ((x ^ (x << 13u32)) >> 17u32)) << 5u32) != 0) by (bit_vector);
}

/// Advances the series by one xorshift32 step and returns the new state.
pub fn xor_shift32(rs: &mut RandomSeries) -> (r: u32)
    ensures
        r == xorshift_step(old(rs).state),
        final(rs).state == r,
        old(rs).state != 0 ==> r != 0,
{
    let mut x: u32 = rs.state;
    x ^= x << 13u32;
    x ^= x >> 17u32;
    x ^= x << 5u32;
    rs.state = x;
    proof {
        if old(rs).state != 0 {
            lemma_xorshift_nonzero(old(rs).state);
        }
    }
    x
}

} // verus!
