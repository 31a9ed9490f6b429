//! Decoding and encoding of the 2 to 14 byte frame header of RFC 6455.

use vstd::prelude::*;
use crate::error::Error;
use crate::op_code::{spec_is_control, spec_op_code_from_nibble, op_code_nibble, OpCode};
use crate::web_socket_error::WebSocketError;

verus! {

/// The parsed first bytes of a frame, together with the flags derived
/// while parsing.
#[derive(Clone, Copy, Debug, PartialEq, Eq)]
pub struct ReadFrameInfo {
    /// Whether this frame terminates a message.
    pub fin: bool,
    /// First reserved bit; signals a compressed payload when negotiated.
    pub rsv1: bool,
    /// Second reserved bit; must be zero on the wire.
    pub rsv2: bool,
    /// Third reserved bit; must be zero on the wire.
    pub rsv3: bool,
    /// The operation code.
    pub op_code: OpCode,
    /// Payload length in bytes.
    pub payload_len: u64,
    /// The masking key, when the MASK bit was set.
    pub mask: Option<[u8; 4]>,
    /// Number of header bytes, between 2 and 14.
    pub header_len: u8,
    /// Whether the payload must be run through the negotiated decompressor.
    pub should_decompress: bool,
}

/// A 16-bit big-endian quantity.
pub open spec fn spec_u16_be(hi: u8, lo: u8) -> u16 {
    ((hi as u16) << 8) | (lo as u16)
}

/// A 64-bit big-endian quantity.
pub open spec fn spec_u64_be(s: Seq<u8>) -> u64
    recommends
        s.len() == 8,
{
    ((s[0] as u64) << 56) | ((s[1] as u64) << 48) | ((s[2] as u64) << 40) | ((s[3] as u64) << 32)
        | ((s[4] as u64) << 24) | ((s[5] as u64) << 16) | ((s[6] as u64) << 8) | (s[7] as u64)
}

/// The number of header bytes announced by the first two of them.
pub open spec fn spec_header_len(b1: u8) -> int {
    let len7 = b1 & 0x7f;
    let masked = b1 & 0x80 != 0;
    2 + (if len7 == 126 {
        2int
    } else if len7 == 127 {
        8int
    } else {
        0int
    }) + (if masked {
        4int
    } else {
        0int
    })
}

/// The payload length announced by a header, read from the 7-bit field or
/// from the extended bytes that follow it.
pub open spec fn spec_payload_len(bytes: Seq<u8>) -> u64
    recommends
        bytes.len() >= spec_header_len(bytes[1]),
{
    let len7 = bytes[1] & 0x7f;
    if len7 == 126 {
        spec_u16_be(bytes[2], bytes[3]) as u64
    } else if len7 == 127 {
        spec_u64_be(bytes.subrange(2, 10))
    } else {
        len7 as u64
    }
}

/// What decoding a frame header from `bytes` yields: too few bytes are
/// answered with `Ok(None)`, a protocol violation with its error, and a
/// complete header with the parsed information.
pub open spec fn spec_decode_header(
    bytes: Seq<u8>,
    is_client: bool,
    no_masking: bool,
    nc_rsv1: bool,
    max_payload_len: u64,
) -> Result<Option<ReadFrameInfo>, Error> {
    if bytes.len() < 2 {
        Ok(None)
    } else {
        let b0 = bytes[0];
        let b1 = bytes[1];
        let rsv1 = b0 & 0x40 != 0;
        let rsv2 = b0 & 0x20 != 0;
        let rsv3 = b0 & 0x10 != 0;
        if rsv2 || rsv3 || (rsv1 && !nc_rsv1) {
            Err(Error::WebSocket(WebSocketError::ReservedBitsAreNotZero))
        } else {
            match spec_op_code_from_nibble(b0 & 0x0f) {
                None => Err(Error::WebSocket(WebSocketError::InvalidFrameHeaderBounds)),
                Some(op_code) => {
                    let fin = b0 & 0x80 != 0;
                    let masked = b1 & 0x80 != 0;
                    let header_len = spec_header_len(b1);
                    if bytes.len() < header_len {
                        Ok(None)
                    } else {
                        let payload_len = spec_payload_len(bytes);
                        if spec_is_control(op_code) && !fin {
                            Err(
                                Error::WebSocket(
                                    WebSocketError::UnexpectedFragmentedControlFrame,
                                ),
                            )
                        } else if spec_is_control(op_code) && payload_len > 125 {
                            Err(Error::WebSocket(WebSocketError::VeryLargeControlFrame))
                        } else if payload_len > max_payload_len {
                            Err(Error::WebSocket(WebSocketError::VeryLargePayload))
                        } else if !is_client && !no_masking && !masked {
                            Err(Error::WebSocket(WebSocketError::MissingFrameMask))
                        } else {
                            let mask = if masked {
                                Some(
                                    [
                                        bytes[header_len - 4],
                                        bytes[header_len - 3],
                                        bytes[header_len - 2],
                                        bytes[header_len - 1],
                                    ],
                                )
                            } else {
                                None
                            };
                            Ok(
                                Some(
                                    ReadFrameInfo {
                                        fin,
                                        rsv1,
                                        rsv2,
                                        rsv3,
                                        op_code,
                                        payload_len,
                                        mask,
                                        header_len: header_len as u8,
                                        should_decompress: rsv1 && nc_rsv1,
                                    },
                                ),
                            )
                        }
                    }
                }
            }
        }
    }
}

impl ReadFrameInfo {
    /// Decodes one frame header from the start of `bytes`.
    ///
    /// `Ok(None)` asks the caller for more bytes; every protocol violation
    /// is reported exactly as `spec_decode_header` lays down.
    pub fn decode(
        bytes: &[u8],
        is_client: bool,
        no_masking: bool,
        nc_rsv1: bool,
        max_payload_len: u64,
    ) -> (r: Result<Option<ReadFrameInfo>, Error>)
        ensures
            r == spec_decode_header(bytes@, is_client, no_masking, nc_rsv1, max_payload_len),
    {
        if bytes.len() < 2 {
            return Ok(None);
        }
        let b0 = bytes[0];
        let b1 = bytes[1];
        let rsv1 = b0 & 0x40 != 0;
        let rsv2 = b0 & 0x20 != 0;
        let rsv3 = b0 & 0x10 != 0;
        if rsv2 || rsv3 || (rsv1 && !nc_rsv1) {
            return Err(Error::WebSocket(WebSocketError::ReservedBitsAreNotZero));
        }
        let Some(op_code) = OpCode::from_nibble(b0 & 0x0f) else {
            return Err(Error::WebSocket(WebSocketError::InvalidFrameHeaderBounds));
        };
        let fin = b0 & 0x80 != 0;
        let masked = b1 & 0x80 != 0;
        let len7 = b1 & 0x7f;
        proof {
            assert(b1 & 0x7f <= 127) by (bit_vector);
        }
        let extension: usize = if len7 == 126 {
            2
        } else if len7 == 127 {
            8
        } else {
            0
        };
        let header_len: usize = 2 + extension + (if masked {
            4
        } else {
            0
        });
        if bytes.len() < header_len {
            return Ok(None);
        }
        let payload_len: u64 = if len7 == 126 {
            (((bytes[2] as u16) << 8u16) | (bytes[3] as u16)) as u64
        } else if len7 == 127 {
            ((bytes[2] as u64) << 56u64) | ((bytes[3] as u64) << 48u64) | ((bytes[4] as u64)
                << 40u64) | ((bytes[5] as u64) << 32u64) | ((bytes[6] as u64) << 24u64) | ((
            bytes[7] as u64) << 16u64) | ((bytes[8] as u64) << 8u64) | (bytes[9] as u64)
        } else {
            len7 as u64
        };
        proof {
            if len7 == 127 {
                let s = bytes@.subrange(2, 10);
                assert(spec_payload_len(bytes@) == spec_u64_be(s));
                assert(s[0] == bytes@[2] && s[1] == bytes@[3] && s[2] == bytes@[4] && s[3]
                    == bytes@[5] && s[4] == bytes@[6] && s[5] == bytes@[7] && s[6] == bytes@[8]
                    && s[7] == bytes@[9]);
            }
        }
        if op_code.is_control() && !fin {
            return Err(Error::WebSocket(WebSocketError::UnexpectedFragmentedControlFrame));
        }
        if op_code.is_control() && payload_len > 125 {
            return Err(Error::WebSocket(WebSocketError::VeryLargeControlFrame));
        }
        if payload_len > max_payload_len {
            return Err(Error::WebSocket(WebSocketError::VeryLargePayload));
        }
        if !is_client && !no_masking && !masked {
            return Err(Error::WebSocket(WebSocketError::MissingFrameMask));
        }
        let mask: Option<[u8; 4]> = if masked {
            Some(
                [
                    bytes[header_len - 4],
                    bytes[header_len - 3],
                    bytes[header_len - 2],
                    bytes[header_len - 1],
                ],
            )
        } else {
            None
        };
        Ok(
            Some(
                ReadFrameInfo {
                    fin,
                    rsv1,
                    rsv2,
                    rsv3,
                    op_code,
                    payload_len,
                    mask,
                    header_len: header_len as u8,
                    should_decompress: rsv1 && nc_rsv1,
                },
            ),
        )
    }
}

/// Bounds that every successfully decoded header obeys, read off the
/// decoder's definition.
pub proof fn lemma_decode_header_bounds(
    bytes: Seq<u8>,
    is_client: bool,
    no_masking: bool,
    nc_rsv1: bool,
    max_payload_len: u64,
)
    ensures
        spec_decode_header(bytes, is_client, no_masking, nc_rsv1, max_payload_len) matches Ok(
            Some(rfi),
        ) ==> ({
            &&& rfi.payload_len <= max_payload_len
            &&& 2 <= rfi.header_len <= 14
            &&& bytes.len() >= rfi.header_len
            &&& (spec_is_control(rfi.op_code) ==> rfi.fin && rfi.payload_len <= 125)
            &&& (!is_client && !no_masking ==> rfi.mask is Some)
            &&& rfi.should_decompress == (rfi.rsv1 && nc_rsv1)
            &&& !rfi.rsv2 && !rfi.rsv3
            &&& (rfi.rsv1 ==> nc_rsv1)
        }),
{
    if bytes.len() >= 2 {
        let b1 = bytes[1];
        assert(b1 & 0x7f <= 127) by (bit_vector);
    }
}

/// The 7-bit length field of a header announcing `payload_len` bytes.
pub open spec fn spec_len7(payload_len: u64) -> u8 {
    if payload_len <= 125 {
        payload_len as u8
    } else if payload_len <= 0xffff {
        126
    } else {
        127
    }
}

/// The extended length bytes of a header announcing `payload_len` bytes.
pub open spec fn spec_len_ext(payload_len: u64) -> Seq<u8> {
    if payload_len <= 125 {
        Seq::empty()
    } else if payload_len <= 0xffff {
        seq![((payload_len >> 8) & 0xff) as u8, (payload_len & 0xff) as u8]
    } else {
        seq![
            ((payload_len >> 56) & 0xff) as u8,
            ((payload_len >> 48) & 0xff) as u8,
            ((payload_len >> 40) & 0xff) as u8,
            ((payload_len >> 32) & 0xff) as u8,
            ((payload_len >> 24) & 0xff) as u8,
            ((payload_len >> 16) & 0xff) as u8,
            ((payload_len >> 8) & 0xff) as u8,
            (payload_len & 0xff) as u8,
        ]
    }
}

/// The wire bytes of a frame header. The reserved bits two and three are
/// always emitted as zero.
pub open spec fn spec_encode_header(
    fin: bool,
    rsv1: bool,
    op_code: OpCode,
    payload_len: u64,
    mask: Option<[u8; 4]>,
) -> Seq<u8> {
    let b0 = (if fin {
        0x80u8
    } else {
        0u8
    }) | (if rsv1 {
        0x40u8
    } else {
        0u8
    }) | op_code_nibble(op_code);
    let mask_bit = if mask is Some {
        0x80u8
    } else {
        0u8
    };
    let key = match mask {
        Some(k) => k@,
        None => Seq::empty(),
    };
    seq![b0, mask_bit | spec_len7(payload_len)] + spec_len_ext(payload_len) + key
}

/// Writes the header bytes for a frame.
pub fn encode_header(
    fin: bool,
    rsv1: bool,
    op_code: OpCode,
    payload_len: u64,
    mask: Option<[u8; 4]>,
) -> (r: Vec<u8>)
    ensures
        r@ == spec_encode_header(fin, rsv1, op_code, payload_len, mask),
{
    let mut r: Vec<u8> = Vec::new();
    let b0 = (if fin {
        0x80u8
    } else {
        0u8
    }) | (if rsv1 {
        0x40u8
    } else {
        0u8
    }) | op_code.nibble();
    let mask_bit: u8 = if mask.is_some() {
        0x80
    } else {
        0
    };
    r.push(b0);
    if payload_len <= 125 {
        r.push(mask_bit | (payload_len as u8));
    } else if payload_len <= 0xffff {
        r.push(mask_bit | 126);
        r.push(((payload_len >> 8u64) & 0xff) as u8);
        r.push((payload_len & 0xff) as u8);
    } else {
        r.push(mask_bit | 127);
        r.push(((payload_len >> 56u64) & 0xff) as u8);
        r.push(((payload_len >> 48u64) & 0xff) as u8);
        r.push(((payload_len >> 40u64) & 0xff) as u8);
        r.push(((payload_len >> 32u64) & 0xff) as u8);
        r.push(((payload_len >> 24u64) & 0xff) as u8);
        r.push(((payload_len >> 16u64) & 0xff) as u8);
        r.push(((payload_len >> 8u64) & 0xff) as u8);
        r.push((payload_len & 0xff) as u8);
    }
    if let Some(key) = mask {
        r.push(key[0]);
        r.push(key[1]);
        r.push(key[2]);
        r.push(key[3]);
    }
    proof {
        assert(r@ =~= spec_encode_header(fin, rsv1, op_code, payload_len, mask));
    }
    r
}

/// The parsed header information that `spec_encode_header` can represent
/// faithfully under the given connection parameters.
pub open spec fn spec_rfi_header_wf(
    rfi: ReadFrameInfo,
    is_client: bool,
    no_masking: bool,
    nc_rsv1: bool,
    max_payload_len: u64,
) -> bool {
    &&& !rfi.rsv2 && !rfi.rsv3
    &&& (rfi.rsv1 ==> nc_rsv1)
    &&& rfi.should_decompress == (rfi.rsv1 && nc_rsv1)
    &&& (spec_is_control(rfi.op_code) ==> rfi.fin && rfi.payload_len <= 125)
    &&& rfi.payload_len <= max_payload_len
    &&& (!is_client && !no_masking ==> rfi.mask is Some)
    &&& rfi.header_len == spec_encode_header(
        rfi.fin,
        rfi.rsv1,
        rfi.op_code,
        rfi.payload_len,
        rfi.mask,
    ).len()
}

proof fn lemma_b0_bits(fin: bool, rsv1: bool, n: u8)
    requires
        n == 0 || n == 1 || n == 2 || n == 8 || n == 9 || n == 10,
    ensures
        ({
            let b0 = (if fin {
                0x80u8
            } else {
                0u8
            }) | (if rsv1 {
                0x40u8
            } else {
                0u8
            }) | n;
            &&& (b0 & 0x80 != 0) == fin
            &&& (b0 & 0x40 != 0) == rsv1
            &&& b0 & 0x20 == 0
            &&& b0 & 0x10 == 0
            &&& b0 & 0x0f == n
        }),
{
    let f: u8 = if fin {
        0x80
    } else {
        0
    };
    let r: u8 = if rsv1 {
        0x40
    } else {
        0
    };
    assert(((f | r | n) & 0x80 != 0) == (f == 0x80) && ((f | r | n) & 0x40 != 0) == (r == 0x40)
        && (f | r | n) & 0x20 == 0 && (f | r | n) & 0x10 == 0 && (f | r | n) & 0x0f == n)
        by (bit_vector)
        requires
            (f == 0x80 || f == 0) && (r == 0x40 || r == 0) && (n == 0 || n == 1 || n == 2 || n == 8
                || n == 9 || n == 10),
    ;
}

proof fn lemma_b1_bits(masked: bool, len7: u8)
    requires
        len7 <= 127,
    ensures
        ({
            let b1 = (if masked {
                0x80u8
            } else {
                0u8
            }) | len7;
            &&& (b1 & 0x80 != 0) == masked
            &&& b1 & 0x7f == len7
        }),
{
    let m: u8 = if masked {
        0x80
    } else {
        0
    };
    assert(((m | len7) & 0x80 != 0) == (m == 0x80) && (m | len7) & 0x7f == len7) by (bit_vector)
        requires
            (m == 0x80 || m == 0) && len7 <= 127,
    ;
}

/// Law: decoding an encoded header yields the information it was built
/// from, under the same connection parameters.
pub proof fn lemma_header_round_trip(
    rfi: ReadFrameInfo,
    is_client: bool,
    no_masking: bool,
    nc_rsv1: bool,
    max_payload_len: u64,
)
    requires
        spec_rfi_header_wf(rfi, is_client, no_masking, nc_rsv1, max_payload_len),
    ensures
        spec_decode_header(
            spec_encode_header(rfi.fin, rfi.rsv1, rfi.op_code, rfi.payload_len, rfi.mask),
            is_client,
            no_masking,
            nc_rsv1,
            max_payload_len,
        ) == Ok::<Option<ReadFrameInfo>, Error>(Some(rfi)),
{
    let p = rfi.payload_len;
    let bytes = spec_encode_header(rfi.fin, rfi.rsv1, rfi.op_code, p, rfi.mask);
    let n = op_code_nibble(rfi.op_code);
    lemma_b0_bits(rfi.fin, rfi.rsv1, n);
    let len7 = spec_len7(p);
    assert(len7 <= 127) by {
        if p <= 125 {
            assert(p as u8 <= 127) by (bit_vector)
                requires
                    p <= 125,
            ;
        }
    }
    lemma_b1_bits(rfi.mask is Some, len7);
    assert(spec_op_code_from_nibble(n) == Some(rfi.op_code));
    let ext = spec_len_ext(p);
    let key = match rfi.mask {
        Some(k) => k@,
        None => Seq::<u8>::empty(),
    };
    assert(bytes.len() == 2 + ext.len() + key.len());
    assert(spec_header_len(bytes[1]) == bytes.len());
    if p <= 125 {
        assert((p as u8) as u64 == p) by (bit_vector)
            requires
                p <= 125,
        ;
        assert(spec_payload_len(bytes) == p);
    } else if p <= 0xffff {
        let hi = ((p >> 8) & 0xff) as u8;
        let lo = (p & 0xff) as u8;
        assert(bytes[2] == hi && bytes[3] == lo);
        assert(spec_u16_be(hi, lo) as u64 == p) by (bit_vector)
            requires
                hi == ((p >> 8) & 0xff) as u8 && lo == (p & 0xff) as u8 && p <= 0xffff,
        ;
        assert(spec_payload_len(bytes) == p);
    } else {
        let a0 = ((p >> 56) & 0xff) as u8;
        let a1 = ((p >> 48) & 0xff) as u8;
        let a2 = ((p >> 40) & 0xff) as u8;
        let a3 = ((p >> 32) & 0xff) as u8;
        let a4 = ((p >> 24) & 0xff) as u8;
        let a5 = ((p >> 16) & 0xff) as u8;
        let a6 = ((p >> 8) & 0xff) as u8;
        let a7 = (p & 0xff) as u8;
        let s = bytes.subrange(2, 10);
        assert(s =~= seq![a0, a1, a2, a3, a4, a5, a6, a7]);
        assert(((a0 as u64) << 56) | ((a1 as u64) << 48) | ((a2 as u64) << 40) | ((a3 as u64)
            << 32) | ((a4 as u64) << 24) | ((a5 as u64) << 16) | ((a6 as u64) << 8) | (a7 as u64)
            == p) by (bit_vector)
            requires
                a0 == ((p >> 56) & 0xff) as u8 && a1 == ((p >> 48) & 0xff) as u8 && a2 == ((p
                    >> 40) & 0xff) as u8 && a3 == ((p >> 32) & 0xff) as u8 && a4 == ((p >> 24)
                    & 0xff) as u8 && a5 == ((p >> 16) & 0xff) as u8 && a6 == ((p >> 8) & 0xff) as u8
                    && a7 == (p & 0xff) as u8,
        ;
        assert(spec_payload_len(bytes) == p);
    }
    if rfi.mask is Some {
        let hl = bytes.len() as int;
        assert(bytes[hl - 4] == key[0] && bytes[hl - 3] == key[1] && bytes[hl - 2] == key[2]
            && bytes[hl - 1] == key[3]);
        let k = rfi.mask->0;
        assert([bytes[hl - 4], bytes[hl - 3], bytes[hl - 2], bytes[hl - 1]]@ =~= k@);
        assert([bytes[hl - 4], bytes[hl - 3], bytes[hl - 2], bytes[hl - 1]] =~= k);
    }
    assert(spec_decode_header(bytes, is_client, no_masking, nc_rsv1, max_payload_len) matches Ok(
        Some(decoded),
    ) && decoded == rfi);
}

} // verus!
