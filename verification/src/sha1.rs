//! The SHA-1 digest, as the opening handshake derives the
//! `Sec-WebSocket-Accept` value. The implementation follows RFC 3174 and
//! is proved to compute exactly the digest of its specification.

use vstd::prelude::*;
use vstd::wrapping::u32_specs;

verus! {

/// A 32-bit word rotated left by `k` bits.
pub open spec fn spec_rotl(x: u32, k: u32) -> u32
    recommends
        0 < k < 32,
{
    (x << k) | (x >> (32 - k) as u32)
}

/// The running state of the compression function.
pub struct Sha1State {
    /// The five 32-bit words of the state.
    pub h: (u32, u32, u32, u32, u32),
}

/// The initial state of RFC 3174.
pub open spec fn spec_sha1_init() -> Sha1State {
    Sha1State { h: (0x67452301, 0xefcdab89, 0x98badcfe, 0x10325476, 0xc3d2e1f0) }
}

/// The round function of round `t`.
pub open spec fn spec_round_f(t: int, b: u32, c: u32, d: u32) -> u32 {
    if t < 20 {
        (b & c) | ((!b) & d)
    } else if t < 40 {
        b ^ c ^ d
    } else if t < 60 {
        (b & c) | (b & d) | (c & d)
    } else {
        b ^ c ^ d
    }
}

/// The round constant of round `t`.
pub open spec fn spec_round_k(t: int) -> u32 {
    if t < 20 {
        0x5a827999
    } else if t < 40 {
        0x6ed9eba1
    } else if t < 60 {
        0x8f1bbcdc
    } else {
        0xca62c1d6
    }
}

/// The message-schedule word `t` of one 64-byte block.
pub open spec fn spec_schedule(block: Seq<u8>, t: int) -> u32
    recommends
        block.len() == 64,
        0 <= t < 80,
    decreases t,
{
    if t < 16 {
        ((block[4 * t] as u32) << 24) | ((block[4 * t + 1] as u32) << 16) | ((block[4 * t
            + 2] as u32) << 8) | (block[4 * t + 3] as u32)
    } else {
        spec_rotl(
            spec_schedule(block, t - 3) ^ spec_schedule(block, t - 8) ^ spec_schedule(block, t - 14)
                ^ spec_schedule(block, t - 16),
            1,
        )
    }
}

/// The working variables after `t` rounds of one block.
pub open spec fn spec_rounds(state: Sha1State, block: Seq<u8>, t: int) -> (u32, u32, u32, u32, u32)
    decreases t,
{
    if t <= 0 {
        state.h
    } else {
        let (a, b, c, d, e) = spec_rounds(state, block, t - 1);
        let temp = u32_specs::wrapping_add(
            u32_specs::wrapping_add(
                u32_specs::wrapping_add(
                    u32_specs::wrapping_add(spec_rotl(a, 5), spec_round_f(t - 1, b, c, d)),
                    e,
                ),
                spec_round_k(t - 1),
            ),
            spec_schedule(block, t - 1),
        );
        (temp, a, spec_rotl(b, 30), c, d)
    }
}

/// The state after compressing one 64-byte block.
pub open spec fn spec_compress(state: Sha1State, block: Seq<u8>) -> Sha1State {
    let (a, b, c, d, e) = spec_rounds(state, block, 80);
    let (h0, h1, h2, h3, h4) = state.h;
    Sha1State {
        h: (
            u32_specs::wrapping_add(h0, a),
            u32_specs::wrapping_add(h1, b),
            u32_specs::wrapping_add(h2, c),
            u32_specs::wrapping_add(h3, d),
            u32_specs::wrapping_add(h4, e),
        ),
    }
}

/// The state after compressing the first `n` blocks of a padded message.
pub open spec fn spec_compress_blocks(padded: Seq<u8>, n: int) -> Sha1State
    decreases n,
{
    if n <= 0 {
        spec_sha1_init()
    } else {
        spec_compress(
            spec_compress_blocks(padded, n - 1),
            padded.subrange(64 * (n - 1), 64 * n),
        )
    }
}

/// The number of zero bytes the padding inserts.
pub open spec fn spec_pad_zeros(len: int) -> int {
    let rem = (len + 1) % 64;
    if rem <= 56 {
        56 - rem
    } else {
        120 - rem
    }
}

/// The eight big-endian bytes of a 64-bit quantity.
pub open spec fn spec_u64_be_bytes(x: u64) -> Seq<u8> {
    seq![
        ((x >> 56) & 0xff) as u8,
        ((x >> 48) & 0xff) as u8,
        ((x >> 40) & 0xff) as u8,
        ((x >> 32) & 0xff) as u8,
        ((x >> 24) & 0xff) as u8,
        ((x >> 16) & 0xff) as u8,
        ((x >> 8) & 0xff) as u8,
        (x & 0xff) as u8,
    ]
}

/// A message padded to a whole number of blocks: the terminator bit, zero
/// fill, and the bit length.
pub open spec fn spec_sha1_pad(message: Seq<u8>) -> Seq<u8> {
    message + seq![0x80u8] + Seq::new(spec_pad_zeros(message.len() as int) as nat, |i: int| 0u8)
        + spec_u64_be_bytes((message.len() * 8) as u64)
}

/// The four big-endian bytes of a 32-bit word.
pub open spec fn spec_u32_be_bytes(x: u32) -> Seq<u8> {
    seq![((x >> 24) & 0xff) as u8, ((x >> 16) & 0xff) as u8, ((x >> 8) & 0xff) as u8, (x
        & 0xff) as u8]
}

/// The 20-byte SHA-1 digest of a message.
pub open spec fn spec_sha1(message: Seq<u8>) -> Seq<u8> {
    let padded = spec_sha1_pad(message);
    let state = spec_compress_blocks(padded, padded.len() as int / 64);
    let (h0, h1, h2, h3, h4) = state.h;
    spec_u32_be_bytes(h0) + spec_u32_be_bytes(h1) + spec_u32_be_bytes(h2) + spec_u32_be_bytes(h3)
        + spec_u32_be_bytes(h4)
}

/// Rotates a 32-bit word left by `k` bits.
fn rotl(x: u32, k: u32) -> (r: u32)
    requires
        0 < k < 32,
    ensures
        r == spec_rotl(x, k),
{
    (x << k) | (x >> (32 - k))
}

/// The round function and constant of round `t`.
fn round_f_k(t: usize, b: u32, c: u32, d: u32) -> (r: (u32, u32))
    requires
        t < 80,
    ensures
        r.0 == spec_round_f(t as int, b, c, d),
        r.1 == spec_round_k(t as int),
{
    if t < 20 {
        ((b & c) | ((!b) & d), 0x5a827999)
    } else if t < 40 {
        (b ^ c ^ d, 0x6ed9eba1)
    } else if t < 60 {
        ((b & c) | (b & d) | (c & d), 0x8f1bbcdc)
    } else {
        (b ^ c ^ d, 0xca62c1d6)
    }
}

/// The 20-byte SHA-1 digest of a message.
pub fn sha1(message: &[u8]) -> (r: Vec<u8>)
    requires
        message@.len() + 72 < usize::MAX,
        message@.len() < 0x2000_0000_0000_0000,
    ensures
        r@ == spec_sha1(message@),
        r@.len() == 20,
{
    let ghost padded_spec = spec_sha1_pad(message@);
    let mut padded = vstd::slice::slice_to_vec(message);
    padded.push(0x80);
    let rem = padded.len() % 64;
    let zeros: usize = if rem <= 56 {
        56 - rem
    } else {
        120 - rem
    };
    proof {
        assert(zeros == spec_pad_zeros(message@.len() as int));
        assert(padded@ =~= message@ + seq![0x80u8] + Seq::new(0nat, |i: int| 0u8));
    }
    let mut z: usize = 0;
    while z < zeros
        invariant
            padded@ == message@ + seq![0x80u8] + Seq::new(z as nat, |i: int| 0u8),
            z <= zeros,
            zeros <= 120,
            message@.len() + 72 < usize::MAX,
        decreases zeros - z,
    {
        padded.push(0);
        proof {
            assert(padded@ =~= message@ + seq![0x80u8] + Seq::new((z + 1) as nat, |i: int| 0u8));
        }
        z += 1;
    }
    let ml: u64 = (message.len() as u64) * 8;
    padded.push(((ml >> 56u64) & 0xff) as u8);
    padded.push(((ml >> 48u64) & 0xff) as u8);
    padded.push(((ml >> 40u64) & 0xff) as u8);
    padded.push(((ml >> 32u64) & 0xff) as u8);
    padded.push(((ml >> 24u64) & 0xff) as u8);
    padded.push(((ml >> 16u64) & 0xff) as u8);
    padded.push(((ml >> 8u64) & 0xff) as u8);
    padded.push((ml & 0xff) as u8);
    proof {
        assert(padded@ =~= padded_spec);
        lemma_padded_len_multiple(message@.len() as int);
    }
    let mut h0: u32 = 0x67452301;
    let mut h1: u32 = 0xefcdab89;
    let mut h2: u32 = 0x98badcfe;
    let mut h3: u32 = 0x10325476;
    let mut h4: u32 = 0xc3d2e1f0;
    let plen = padded.len();
    let nblocks = plen / 64;
    proof {
        assert(plen == 64 * nblocks + plen % 64);
    }
    let mut blk: usize = 0;
    let mut i: usize = 0;
    while blk < nblocks
        invariant
            i == 64 * blk,
            blk <= nblocks,
            plen == padded@.len(),
            padded@ == padded_spec,
            plen == 64 * nblocks,
            (Sha1State { h: (h0, h1, h2, h3, h4) }) == spec_compress_blocks(
                padded_spec,
                blk as int,
            ),
        decreases nblocks - blk,
    {
        proof {
            assert(64 * (blk as int) + 64 <= 64 * (nblocks as int)) by (nonlinear_arith)
                requires
                    blk < nblocks,
            ;
        }
        let ghost block = padded@.subrange(i as int, i + 64);
        let ghost entry_state = Sha1State { h: (h0, h1, h2, h3, h4) };
        let mut w: Vec<u32> = Vec::new();
        let mut t: usize = 0;
        while t < 16
            invariant
                w@.len() == t,
                t <= 16,
                i + 64 <= plen,
                plen == padded@.len(),
                block == padded@.subrange(i as int, i + 64),
                forall|j: int| 0 <= j < t ==> w@[j] == spec_schedule(block, j),
            decreases 16 - t,
        {
            let base = i + 4 * t;
            let word = ((padded[base] as u32) << 24u32) | ((padded[base + 1] as u32) << 16u32) | ((
            padded[base + 2] as u32) << 8u32) | (padded[base + 3] as u32);
            proof {
                assert(block[4 * t as int] == padded@[base as int]);
                assert(block[4 * t + 1] == padded@[base + 1]);
                assert(block[4 * t + 2] == padded@[base + 2]);
                assert(block[4 * t + 3] == padded@[base + 3]);
            }
            w.push(word);
            t += 1;
        }
        while t < 80
            invariant
                w@.len() == t,
                16 <= t <= 80,
                block == padded@.subrange(i as int, i + 64),
                forall|j: int| 0 <= j < t ==> w@[j] == spec_schedule(block, j),
            decreases 80 - t,
        {
            let word = rotl(w[t - 3] ^ w[t - 8] ^ w[t - 14] ^ w[t - 16], 1);
            proof {
                assert(spec_schedule(block, t as int) == spec_rotl(
                    spec_schedule(block, t - 3) ^ spec_schedule(block, t - 8) ^ spec_schedule(
                        block,
                        t - 14,
                    ) ^ spec_schedule(block, t - 16),
                    1,
                ));
            }
            w.push(word);
            t += 1;
        }
        let mut a = h0;
        let mut b = h1;
        let mut c = h2;
        let mut d = h3;
        let mut e = h4;
        let mut round: usize = 0;
        while round < 80
            invariant
                w@.len() == 80,
                round <= 80,
                forall|j: int| 0 <= j < 80 ==> w@[j] == spec_schedule(block, j),
                (a, b, c, d, e) == spec_rounds(entry_state, block, round as int),
            decreases 80 - round,
        {
            let (f, k) = round_f_k(round, b, c, d);
            let temp = rotl(a, 5).wrapping_add(f).wrapping_add(e).wrapping_add(k).wrapping_add(
                w[round],
            );
            e = d;
            d = c;
            c = rotl(b, 30);
            b = a;
            a = temp;
            round += 1;
        }
        h0 = h0.wrapping_add(a);
        h1 = h1.wrapping_add(b);
        h2 = h2.wrapping_add(c);
        h3 = h3.wrapping_add(d);
        h4 = h4.wrapping_add(e);
        proof {
            assert(Sha1State { h: (h0, h1, h2, h3, h4) } == spec_compress(entry_state, block));
            assert(Sha1State { h: (h0, h1, h2, h3, h4) } == spec_compress_blocks(
                padded_spec,
                blk + 1,
            ));
        }
        i += 64;
        blk += 1;
    }
    proof {
        assert(64 * (nblocks as int) == padded_spec.len());
        assert(nblocks as int == padded_spec.len() as int / 64) by (nonlinear_arith)
            requires
                64 * (nblocks as int) == padded_spec.len(),
        ;
        assert(Sha1State { h: (h0, h1, h2, h3, h4) } == spec_compress_blocks(
            padded_spec,
            padded_spec.len() as int / 64,
        ));
    }
    let mut r: Vec<u8> = Vec::new();
    push_u32_be(&mut r, h0);
    push_u32_be(&mut r, h1);
    push_u32_be(&mut r, h2);
    push_u32_be(&mut r, h3);
    push_u32_be(&mut r, h4);
    proof {
        assert(r@ =~= spec_sha1(message@));
    }
    r
}

/// The padded message fills whole 64-byte blocks.
proof fn lemma_padded_len_multiple(len: int)
    requires
        len >= 0,
    ensures
        (len + 1 + spec_pad_zeros(len) + 8) % 64 == 0,
{
    let rem = (len + 1) % 64;
    assert(0 <= rem < 64);
    assert((len + 1) == 64 * ((len + 1) / 64) + rem);
    if rem <= 56 {
        assert((len + 1 + (56 - rem) + 8) % 64 == 0) by {
            assert(len + 1 + (56 - rem) + 8 == 64 * ((len + 1) / 64) + 64);
            assert((64 * ((len + 1) / 64) + 64) % 64 == 0) by (nonlinear_arith);
        }
    } else {
        assert((len + 1 + (120 - rem) + 8) % 64 == 0) by {
            assert(len + 1 + (120 - rem) + 8 == 64 * ((len + 1) / 64) + 128);
            assert((64 * ((len + 1) / 64) + 128) % 64 == 0) by (nonlinear_arith);
        }
    }
}

/// Appends the four big-endian bytes of a 32-bit word.
fn push_u32_be(out: &mut Vec<u8>, x: u32)
    ensures
        final(out)@ == old(out)@ + spec_u32_be_bytes(x),
{
    out.push(((x >> 24u32) & 0xff) as u8);
    out.push(((x >> 16u32) & 0xff) as u8);
    out.push(((x >> 8u32) & 0xff) as u8);
    out.push((x & 0xff) as u8);
    proof {
        assert(final(out)@ =~= old(out)@ + spec_u32_be_bytes(x));
    }
}

} // verus!
