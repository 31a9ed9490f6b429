//! Emission of frames: header construction, client-side masking and the
//! close-code helper shared with the reader's auto-replies.

use vstd::prelude::*;
use crate::op_code::OpCode;
use crate::read_frame_info::{spec_encode_header, encode_header};
use crate::rng::{spec_key_bytes, spec_xorshift64, Xorshift64};
use crate::unmask::{spec_unmask, unmask};

verus! {

/// The exact bytes a frame occupies on the wire: its header followed by
/// its payload, which is XOR-masked when a key is present.
pub open spec fn spec_frame_wire_bytes(
    fin: bool,
    rsv1: bool,
    op_code: OpCode,
    payload: Seq<u8>,
    mask: Option<[u8; 4]>,
) -> Seq<u8> {
    spec_encode_header(fin, rsv1, op_code, payload.len() as u64, mask) + (match mask {
        Some(key) => spec_unmask(payload, key),
        None => payload,
    })
}

/// Whether frames must be masked before they leave: true on a client
/// unless the `no-masking` extension was negotiated.
pub open spec fn spec_mask_is_needed(is_client: bool, no_masking: bool) -> bool {
    is_client && !no_masking
}

/// `new_out` extends `old_out` by exactly one frame with the given fields,
/// masked if and only if this side must mask.
pub open spec fn spec_appended_frame(
    old_out: Seq<u8>,
    new_out: Seq<u8>,
    is_client: bool,
    no_masking: bool,
    fin: bool,
    rsv1: bool,
    op_code: OpCode,
    payload: Seq<u8>,
) -> bool {
    exists|mask: Option<[u8; 4]>|
        ((#[trigger] mask_is_some(mask)) == spec_mask_is_needed(is_client, no_masking) && new_out
            == old_out + spec_frame_wire_bytes(fin, rsv1, op_code, payload, mask))
}

/// Whether an optional mask is present; a named wrapper so that it can
/// carry the quantifier trigger in `spec_appended_frame`.
pub open spec fn mask_is_some(mask: Option<[u8; 4]>) -> bool {
    mask is Some
}

/// Appends one frame to `out`: the header, then the payload, masked with a
/// fresh key when this side must mask.
pub fn write_frame_bytes<const IS_CLIENT: bool>(
    out: &mut Vec<u8>,
    fin: bool,
    rsv1: bool,
    op_code: OpCode,
    payload: &[u8],
    no_masking: bool,
    rng: &mut Xorshift64,
)
    ensures
        old(out)@.is_prefix_of(final(out)@),
        spec_appended_frame(
            old(out)@,
            final(out)@,
            IS_CLIENT,
            no_masking,
            fin,
            rsv1,
            op_code,
            payload@,
        ),
        spec_mask_is_needed(IS_CLIENT, no_masking) ==> final(rng).state() == spec_xorshift64(
            old(rng).state(),
        ),
        !spec_mask_is_needed(IS_CLIENT, no_masking) ==> *final(rng) == *old(rng),
{
    let mask: Option<[u8; 4]> = if IS_CLIENT && !no_masking {
        Some(rng.next_key())
    } else {
        None
    };
    let header = encode_header(fin, rsv1, op_code, payload.len() as u64, mask);
    out.append(&mut { header });
    match mask {
        Some(key) => {
            let mut masked = vstd::slice::slice_to_vec(payload);
            unmask(masked.as_mut_slice(), key);
            out.append(&mut masked);
        },
        None => {
            let mut copy = vstd::slice::slice_to_vec(payload);
            out.append(&mut copy);
        },
    }
    proof {
        assert(final(out)@ == old(out)@ + spec_frame_wire_bytes(
            fin,
            rsv1,
            op_code,
            payload@,
            mask,
        )) by {
            assert(final(out)@ =~= old(out)@ + spec_frame_wire_bytes(
                fin,
                rsv1,
                op_code,
                payload@,
                mask,
            ));
        }
        assert(mask_is_some(mask) == spec_mask_is_needed(IS_CLIENT, no_masking));
        assert(final(out)@.subrange(0, old(out)@.len() as int) =~= old(out)@);
    }
}

/// Writes a close code into the first two bytes of a payload, big-endian.
pub fn fill_with_close_code(code: u16, payload: &mut Vec<u8>)
    requires
        old(payload)@.len() >= 2,
    ensures
        final(payload)@ == old(payload)@.update(0, ((code >> 8) & 0xff) as u8).update(
            1,
            (code & 0xff) as u8,
        ),
{
    payload[0] = ((code >> 8u16) & 0xff) as u8;
    payload[1] = (code & 0xff) as u8;
}

/// Law: a masked frame carries the MASK bit in its second header byte, the
/// 4-byte key as the last header bytes, and the payload XOR-combined with
/// that key right after it.
pub proof fn lemma_masked_frame_layout(
    fin: bool,
    rsv1: bool,
    op_code: OpCode,
    payload: Seq<u8>,
    key: [u8; 4],
)
    ensures
        ({
            let bytes = spec_frame_wire_bytes(fin, rsv1, op_code, payload, Some(key));
            let header_len = spec_encode_header(
                fin,
                rsv1,
                op_code,
                payload.len() as u64,
                Some(key),
            ).len() as int;
            &&& bytes[1] & 0x80 != 0
            &&& bytes.subrange(header_len - 4, header_len) == key@
            &&& bytes.subrange(header_len, bytes.len() as int) == spec_unmask(payload, key)
        }),
{
    let header = spec_encode_header(fin, rsv1, op_code, payload.len() as u64, Some(key));
    let bytes = spec_frame_wire_bytes(fin, rsv1, op_code, payload, Some(key));
    let hl = header.len() as int;
    let len7 = crate::read_frame_info::spec_len7(payload.len() as u64);
    assert(len7 <= 127) by {
        if payload.len() as u64 <= 125 {
            let p = payload.len() as u64;
            assert(p as u8 <= 127) by (bit_vector)
                requires
                    p <= 125,
            ;
        }
    }
    assert((0x80u8 | len7) & 0x80 != 0) by (bit_vector);
    assert(bytes[1] == 0x80u8 | len7);
    assert(bytes.subrange(hl - 4, hl) =~= key@);
    assert(bytes.subrange(hl, bytes.len() as int) =~= spec_unmask(payload, key));
}

} // verus!
