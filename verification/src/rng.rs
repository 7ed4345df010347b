//! A tiny deterministic xorshift generator (not cryptographically secure).
use vstd::prelude::*;

verus! {

/// State used in place of a zero seed (xorshift never leaves the zero state).
pub open spec fn seed_state(seed: u64) -> u64 {
    if seed == 0 {
        0x9E3779B97F4A7C15u64
    } else {
        seed
    }
}

/// One xorshift64 step (shifts 13, 7, 17).
pub open spec fn xorshift_step(x: u64) -> u64 {
    let a = x ^ (x << 13u64);
    let b = a ^ (a >> 7u64);
    b ^ (b << 17u64)
}

pub(crate) struct XorShift64 {
    pub(crate) state: u64,
}

impl XorShift64 {
    pub(crate) fn new(seed: u64) -> (r: Self)
        ensures
            r.state == seed_state(seed),
    {
        let seed = if seed == 0 {
            0x9E3779B97F4A7C15u64
        } else {
            seed
        };
        XorShift64 { state: seed }
    }

    pub(crate) fn next_u64(&mut self) -> (x: u64)
        ensures
            x == xorshift_step(old(self).state),
            final(self).state == x,
    {
        let mut x = self.state;
        x ^= x << 13u64;
        x ^= x >> 7u64;
        x ^= x << 17u64;
        self.state = x;
        x
    }

    pub(crate) fn gen_range(&mut self, n: usize) -> (r: usize)
        requires
            n > 0,
        ensures
            final(self).state == xorshift_step(old(self).state),
            r == (xorshift_step(old(self).state) as usize) % n,
            r < n,
    {
        let x = self.next_u64();
        (x as usize) % n
    }
}

} // verus!
