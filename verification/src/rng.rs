//! A deterministic pseudo-random generator for masking keys and handshake
//! nonces. The caller seeds it; every draw is a pure function of the state.

use vstd::prelude::*;

verus! {

/// One step of the xorshift64 generator.
pub open spec fn spec_xorshift64(s: u64) -> u64 {
    let a = s ^ (s << 13);
    let b = a ^ (a >> 7);
    b ^ (b << 17)
}

/// Four little-endian bytes drawn from the low half of a state.
pub open spec fn spec_key_bytes(x: u64) -> Seq<u8> {
    seq![
        (x & 0xff) as u8,
        ((x >> 8) & 0xff) as u8,
        ((x >> 16) & 0xff) as u8,
        ((x >> 24) & 0xff) as u8,
    ]
}

/// A xorshift64 pseudo-random number generator.
#[derive(Clone, Copy, Debug)]
pub struct Xorshift64 {
    state: u64,
}

impl Xorshift64 {
    /// The current state.
    pub closed spec fn state(&self) -> u64 {
        self.state
    }

    /// Seeds the generator; a zero seed is replaced, because the all-zero
    /// state is a fixed point of the generator.
    pub fn new(seed: u64) -> (r: Self)
        ensures
            seed != 0 ==> r.state() == seed,
            seed == 0 ==> r.state() == 0x9e37_79b9_7f4a_7c15,
    {
        Xorshift64 { state: if seed == 0 {
            0x9e37_79b9_7f4a_7c15
        } else {
            seed
        } }
    }

    /// Advances the state and returns it.
    pub fn next_u64(&mut self) -> (r: u64)
        ensures
            final(self).state() == spec_xorshift64(old(self).state()),
            r == final(self).state(),
    {
        let mut s = self.state;
        s = s ^ (s << 13u64);
        s = s ^ (s >> 7u64);
        s = s ^ (s << 17u64);
        self.state = s;
        s
    }

    /// Draws a fresh 4-byte masking key.
    pub fn next_key(&mut self) -> (r: [u8; 4])
        ensures
            final(self).state() == spec_xorshift64(old(self).state()),
            r@ == spec_key_bytes(final(self).state()),
    {
        let x = self.next_u64();
        let r = [
            (x & 0xff) as u8,
            ((x >> 8u64) & 0xff) as u8,
            ((x >> 16u64) & 0xff) as u8,
            ((x >> 24u64) & 0xff) as u8,
        ];
        proof {
            assert(r@ =~= spec_key_bytes(x));
        }
        r
    }
}

} // verus!
