//! Standard base64 encoding with padding, as the opening handshake encodes
//! nonces and digests. The encoder is proved to produce exactly the bytes
//! of its specification.

use vstd::prelude::*;

verus! {

/// The alphabet character of a 6-bit value.
pub open spec fn spec_b64_char(v: u8) -> u8
    recommends
        v < 64,
{
    if v < 26 {
        (0x41 + v) as u8
    } else if v < 52 {
        (0x61 + (v - 26)) as u8
    } else if v < 62 {
        (0x30 + (v - 52)) as u8
    } else if v == 62 {
        0x2b
    } else {
        0x2f
    }
}

/// The four characters encoding a full group of three bytes.
pub open spec fn spec_b64_group3(a: u8, b: u8, c: u8) -> Seq<u8> {
    seq![
        spec_b64_char(a >> 2),
        spec_b64_char(((a & 0x03) << 4) | (b >> 4)),
        spec_b64_char(((b & 0x0f) << 2) | (c >> 6)),
        spec_b64_char(c & 0x3f),
    ]
}

/// The four characters encoding a trailing group of two bytes.
pub open spec fn spec_b64_group2(a: u8, b: u8) -> Seq<u8> {
    seq![
        spec_b64_char(a >> 2),
        spec_b64_char(((a & 0x03) << 4) | (b >> 4)),
        spec_b64_char((b & 0x0f) << 2),
        0x3du8,
    ]
}

/// The four characters encoding a trailing group of one byte.
pub open spec fn spec_b64_group1(a: u8) -> Seq<u8> {
    seq![spec_b64_char(a >> 2), spec_b64_char((a & 0x03) << 4), 0x3du8, 0x3du8]
}

/// The base64 encoding of a byte sequence, group by group.
pub open spec fn spec_base64_encode(s: Seq<u8>) -> Seq<u8>
    decreases s.len(),
{
    if s.len() == 0 {
        Seq::empty()
    } else if s.len() == 1 {
        spec_b64_group1(s[0])
    } else if s.len() == 2 {
        spec_b64_group2(s[0], s[1])
    } else {
        spec_b64_group3(s[0], s[1], s[2]) + spec_base64_encode(s.skip(3))
    }
}

/// The alphabet character of a 6-bit value.
fn b64_char(v: u8) -> (r: u8)
    requires
        v < 64,
    ensures
        r == spec_b64_char(v),
{
    if v < 26 {
        0x41 + v
    } else if v < 52 {
        0x61 + (v - 26)
    } else if v < 62 {
        0x30 + (v - 52)
    } else if v == 62 {
        0x2b
    } else {
        0x2f
    }
}

/// Encodes bytes in standard base64 with `=` padding.
pub fn base64_encode(bytes: &[u8]) -> (r: Vec<u8>)
    ensures
        r@ == spec_base64_encode(bytes@),
{
    let mut r: Vec<u8> = Vec::new();
    let n = bytes.len();
    let mut i: usize = 0;
    proof {
        assert(bytes@.skip(0) =~= bytes@);
        assert(r@ + spec_base64_encode(bytes@) =~= spec_base64_encode(bytes@));
    }
    while n - i >= 3
        invariant
            n == bytes@.len(),
            i <= n,
            spec_base64_encode(bytes@) == r@ + spec_base64_encode(bytes@.skip(i as int)),
        decreases n - i,
    {
        let a = bytes[i];
        let b = bytes[i + 1];
        let c = bytes[i + 2];
        proof {
            assert(a >> 2 < 64 && ((a & 0x03) << 4) | (b >> 4) < 64 && ((b & 0x0f) << 2) | (c
                >> 6) < 64 && c & 0x3f < 64) by (bit_vector);
            let tail = bytes@.skip(i as int);
            assert(tail[0] == a && tail[1] == b && tail[2] == c);
            assert(tail.skip(3) =~= bytes@.skip(i + 3));
        }
        r.push(b64_char(a >> 2u8));
        r.push(b64_char(((a & 0x03) << 4u8) | (b >> 4u8)));
        r.push(b64_char(((b & 0x0f) << 2u8) | (c >> 6u8)));
        r.push(b64_char(c & 0x3f));
        i += 3;
    }
    if n - i == 1 {
        let a = bytes[i];
        proof {
            assert(a >> 2 < 64 && (a & 0x03) << 4 < 64) by (bit_vector);
            let tail = bytes@.skip(i as int);
            assert(tail.len() == 1 && tail[0] == a);
        }
        r.push(b64_char(a >> 2u8));
        r.push(b64_char((a & 0x03) << 4u8));
        r.push(0x3d);
        r.push(0x3d);
    } else if n - i == 2 {
        let a = bytes[i];
        let b = bytes[i + 1];
        proof {
            assert(a >> 2 < 64 && ((a & 0x03) << 4) | (b >> 4) < 64 && (b & 0x0f) << 2 < 64)
                by (bit_vector);
            let tail = bytes@.skip(i as int);
            assert(tail.len() == 2 && tail[0] == a && tail[1] == b);
        }
        r.push(b64_char(a >> 2u8));
        r.push(b64_char(((a & 0x03) << 4u8) | (b >> 4u8)));
        r.push(b64_char((b & 0x0f) << 2u8));
        r.push(0x3d);
    }
    proof {
        assert(bytes@.skip(n as int) =~= Seq::<u8>::empty());
        assert(r@ =~= spec_base64_encode(bytes@));
    }
    r
}

} // verus!
