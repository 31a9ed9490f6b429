//! In-place XOR (un)masking of frame payloads with a 32-bit key.
//!
//! Masking is an involution: applying the same key twice restores the
//! original bytes, so one function serves both directions.

use vstd::prelude::*;

verus! {

/// The bytes of `s` combined with the repeating 4-byte key.
pub open spec fn spec_unmask(s: Seq<u8>, key: [u8; 4]) -> Seq<u8> {
    Seq::new(s.len(), |i: int| s[i] ^ key@[i % 4])
}

/// XORs each byte with `key[i % 4]`, byte for byte.
pub fn unmask(buffer: &mut [u8], key: [u8; 4])
    ensures
        final(buffer)@ == spec_unmask(old(buffer)@, key),
{
    let ghost orig = buffer@;
    let n = buffer.len();
    let mut i: usize = 0;
    while i < n
        invariant
            n == orig.len(),
            buffer@.len() == orig.len(),
            i <= n,
            forall|j: int| 0 <= j < i ==> buffer@[j] == orig[j] ^ key@[j % 4],
            forall|j: int| i <= j < n ==> buffer@[j] == orig[j],
        decreases n - i,
    {
        let b = buffer[i] ^ key[i % 4];
        buffer[i] = b;
        i += 1;
    }
    proof {
        assert(buffer@ =~= spec_unmask(orig, key));
    }
}

/// Law: masking twice with one key restores the input.
pub proof fn lemma_unmask_involution(s: Seq<u8>, key: [u8; 4])
    ensures
        spec_unmask(spec_unmask(s, key), key) == s,
{
    assert forall|i: int| 0 <= i < s.len() implies spec_unmask(spec_unmask(s, key), key)[i]
        == s[i] by {
        let b = s[i];
        let k = key@[i % 4];
        assert((b ^ k) ^ k == b) by (bit_vector);
    }
    assert(spec_unmask(spec_unmask(s, key), key) =~= s);
}

} // verus!
