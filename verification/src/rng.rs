//! The xorshift32 pseudo-random generator that drives every random decision
//! of the simulation.

use vstd::prelude::*;

verus! {

/// Seed used in place of zero, the one state that xorshift32 never leaves.
pub const DEFAULT_SEED: u32 = 0x1234_5678;

/// One xorshift32 step (shifts 13, 17, 5).
pub open spec fn xorshift(x: u32) -> u32 {
    let a = x ^ (x << 13u32);
    let b = a ^ (a >> 17u32);
    b ^ (b << 5u32)
}

/// The state reached from `x` after `n` steps.
pub open spec fn xorshift_iter(x: u32, n: nat) -> u32
    decreases n,
{
    if n == 0 {
        x
    } else {
        xorshift(xorshift_iter(x, (n - 1) as nat))
    }
}

/// Inverse of one xorshift32 step.
pub open spec fn xorshift_inverse(y: u32) -> u32 {
    // undo `b ^= b << 5`
    let b = y ^ (y << 5u32) ^ (y << 10u32) ^ (y << 15u32) ^ (y << 20u32) ^ (y << 25u32) ^ (y << 30u32);
    // undo `a ^= a >> 17`
    let a = b ^ (b >> 17u32);
    // undo `x ^= x << 13`
    a ^ (a << 13u32) ^ (a << 26u32)
}

#[derive(Clone, Copy)]
pub struct XorShift32 {
    pub state: u32,
}

impl XorShift32 {
    /// A generator seeded with `seed`; a zero seed is replaced by `DEFAULT_SEED`.
    pub fn new(seed: u32) -> (r: Self)
        ensures
            r.state == (if seed == 0 { DEFAULT_SEED } else { seed }),
            r.state != 0,
    {
        XorShift32 { state: if seed == 0 { DEFAULT_SEED } else { seed } }
    }

    /// Advances the generator one step and returns the new state.
    pub fn next_u32(&mut self) -> (r: u32)
        ensures
            r == xorshift(old(self).state),
            final(self).state == r,
    {
        let mut x = self.state;
        x = x ^ (x << 13u32);
        x = x ^ (x >> 17u32);
        x = x ^ (x << 5u32);
        self.state = x;
        x
    }
}

proof fn lemma_undo_left5(b: u32)
    ensures
        ({
            let y = b ^ (b << 5u32);
            y ^ (y << 5u32) ^ (y << 10u32) ^ (y << 15u32) ^ (y << 20u32) ^ (y << 25u32) ^ (y << 30u32)
        }) == b,
{
    assert(({
        let y = b ^ (b << 5u32);
        y ^ (y << 5u32) ^ (y << 10u32) ^ (y << 15u32) ^ (y << 20u32) ^ (y << 25u32) ^ (y << 30u32)
    }) == b) by (bit_vector);
}

proof fn lemma_undo_right17(a: u32)
    ensures
        ({
            let y = a ^ (a >> 17u32);
            y ^ (y >> 17u32)
        }) == a,
{
    assert(({
        let y = a ^ (a >> 17u32);
        y ^ (y >> 17u32)
    }) == a) by (bit_vector);
}

proof fn lemma_undo_left13(x: u32)
    ensures
        ({
            let y = x ^ (x << 13u32);
            y ^ (y << 13u32) ^ (y << 26u32)
        }) == x,
{
    assert(({
        let y = x ^ (x << 13u32);
        y ^ (y << 13u32) ^ (y << 26u32)
    }) == x) by (bit_vector);
}

/// One generator step can be undone: `xorshift_inverse` recovers the state
/// before the step, so no two states lead to the same next state.
pub proof fn lemma_xorshift_invertible(x: u32)
    ensures
        xorshift_inverse(xorshift(x)) == x,
{
    let a = x ^ (x << 13u32);
    let b = a ^ (a >> 17u32);
    lemma_undo_left5(b);
    lemma_undo_right17(a);
    lemma_undo_left13(x);
}

/// Two different states never step to the same state.
pub proof fn lemma_xorshift_injective(x: u32, y: u32)
    ensures
        xorshift(x) == xorshift(y) ==> x == y,
{
    lemma_xorshift_invertible(x);
    lemma_xorshift_invertible(y);
}

/// Zero is the only fixed point of zero: a generator in a non-zero state
/// never reaches the zero state, however many steps it takes.
pub proof fn lemma_nonzero_stays_nonzero(x: u32, n: nat)
    requires
        x != 0,
    ensures
        xorshift_iter(x, n) != 0,
    decreases n,
{
    if n > 0 {
        lemma_nonzero_stays_nonzero(x, (n - 1) as nat);
        let p = xorshift_iter(x, (n - 1) as nat);
        lemma_xorshift_invertible(p);
        assert(xorshift(0u32) == 0u32) by (bit_vector);
        lemma_xorshift_invertible(0u32);
    }
}

} // verus!
