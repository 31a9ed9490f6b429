//! The protocol decisions of the reader engine: auto-replies to control
//! frames, opcode checks of fragment chains, incremental text validation
//! and the moves between the network buffer and the reassembly buffers.

use vstd::prelude::*;
use vstd::utf8::valid_utf8;
use crate::compression::NegotiatedCompression;
use crate::connection_state::ConnectionState;
use crate::error::Error;
use crate::incremental_utf8::{
    lemma_scalar_prepend, spec_utf8_doomed, validate_full, validate_partial,
    CompletionErr, IncompleteUtf8Char,
};
use crate::op_code::{spec_close_code_is_allowed, OpCode, MAX_CONTROL_PAYLOAD_LEN};
use crate::partitioned_filled_buffer::PartitionedFilledBuffer;
use crate::read_frame_info::{spec_u16_be, ReadFrameInfo};
use crate::rng::Xorshift64;
use crate::unmask::spec_unmask;
use crate::web_socket_error::WebSocketError;
use crate::web_socket_writer::{fill_with_close_code, spec_appended_frame, write_frame_bytes};

verus! {

/// The four-byte tail appended to compressed messages before inflation.
pub const DECOMPRESSION_SUFFIX: [u8; 4] = [0, 0, 255, 255];

/// What a close-frame payload must look like by the time it is surfaced:
/// empty, or a permitted big-endian code followed by a UTF-8 reason, all
/// within the control-frame bound.
pub open spec fn spec_close_payload_ok(p: Seq<u8>) -> bool {
    ||| p.len() == 0
    ||| (2 <= p.len() <= 125 && spec_close_code_is_allowed(spec_u16_be(p[0], p[1]) as u16)
        && valid_utf8(p.subrange(2, p.len() as int)))
}

/// The payload of the protocol-error close frame echoed for a bad close:
/// the received payload, its code overwritten with 1002, clipped to the
/// control bound; or nothing when the received payload was shorter.
pub open spec fn spec_protocol_close_payload(p: Seq<u8>) -> Seq<u8> {
    if p.len() >= 125 {
        seq![0x03u8, 0xeau8] + p.subrange(2, 125)
    } else {
        Seq::empty()
    }
}

/// One auto-reply frame (a pong or a close echo) stands between two
/// states of the out buffer.
pub open spec fn spec_auto_reply_step(
    old_out: Seq<u8>,
    new_out: Seq<u8>,
    is_client: bool,
    no_masking: bool,
    reply: (OpCode, Seq<u8>),
) -> bool {
    (reply.0 == OpCode::Pong || reply.0 == OpCode::Close) && spec_appended_frame(
        old_out,
        new_out,
        is_client,
        no_masking,
        true,
        false,
        reply.0,
        reply.1,
    )
}

/// The out buffer grew by whole auto-reply frames and by nothing else.
pub open spec fn spec_auto_replies_queued(
    old_out: Seq<u8>,
    new_out: Seq<u8>,
    is_client: bool,
    no_masking: bool,
    replies: Seq<(OpCode, Seq<u8>)>,
) -> bool
    decreases replies.len(),
{
    if replies.len() == 0 {
        new_out == old_out
    } else {
        exists|mid: Seq<u8>|
            #[trigger] spec_auto_reply_step(old_out, mid, is_client, no_masking, replies[0])
                && spec_auto_replies_queued(mid, new_out, is_client, no_masking, replies.skip(1))
    }
}

/// One more auto-reply extends a queued chain at its back.
pub proof fn lemma_auto_replies_snoc(
    old_out: Seq<u8>,
    mid_out: Seq<u8>,
    new_out: Seq<u8>,
    is_client: bool,
    no_masking: bool,
    replies: Seq<(OpCode, Seq<u8>)>,
    reply: (OpCode, Seq<u8>),
)
    requires
        spec_auto_replies_queued(old_out, mid_out, is_client, no_masking, replies),
        spec_auto_reply_step(mid_out, new_out, is_client, no_masking, reply),
    ensures
        spec_auto_replies_queued(old_out, new_out, is_client, no_masking, replies.push(reply)),
    decreases replies.len(),
{
    if replies.len() == 0 {
        assert(replies.push(reply)[0] == reply);
        assert(replies.push(reply).skip(1) =~= Seq::<(OpCode, Seq<u8>)>::empty());
        assert(spec_auto_replies_queued(
            new_out,
            new_out,
            is_client,
            no_masking,
            replies.push(reply).skip(1),
        ));
    } else {
        let m = choose|m: Seq<u8>|
            #[trigger] spec_auto_reply_step(old_out, m, is_client, no_masking, replies[0])
                && spec_auto_replies_queued(m, mid_out, is_client, no_masking, replies.skip(1));
        lemma_auto_replies_snoc(
            m,
            mid_out,
            new_out,
            is_client,
            no_masking,
            replies.skip(1),
            reply,
        );
        assert(replies.push(reply)[0] == replies[0]);
        assert(replies.push(reply).skip(1) =~= replies.skip(1).push(reply));
    }
}

/// The text assembled so far decomposes into valid UTF-8 followed by the
/// pending bytes of the cut character, if one is pending.
pub open spec fn spec_text_state_ok(stream: Seq<u8>, iuc: Option<IncompleteUtf8Char>) -> bool {
    match iuc {
        None => valid_utf8(stream),
        Some(u) => {
            let cut = stream.len() - u@.len();
            &&& u.wf()
            &&& 0 <= cut
            &&& stream.subrange(cut, stream.len() as int) == u@
            &&& valid_utf8(stream.subrange(0, cut))
        },
    }
}

/// A valid block on the left does not disturb the decomposition of what
/// follows it.
pub proof fn lemma_text_state_prepend(
    prefix: Seq<u8>,
    stream: Seq<u8>,
    iuc: Option<IncompleteUtf8Char>,
)
    requires
        valid_utf8(prefix),
        spec_text_state_ok(stream, iuc),
    ensures
        spec_text_state_ok(prefix + stream, iuc),
{
    let combined = prefix + stream;
    match iuc {
        None => {
            vstd::utf8::valid_utf8_concat(prefix, stream);
        },
        Some(u) => {
            let cut = stream.len() - u@.len();
            let ccut = combined.len() - u@.len();
            assert(combined.subrange(ccut as int, combined.len() as int) =~= stream.subrange(
                cut as int,
                stream.len() as int,
            ));
            vstd::utf8::valid_utf8_concat(prefix, stream.subrange(0, cut as int));
            assert(combined.subrange(0, ccut as int) =~= prefix + stream.subrange(0, cut as int));
        },
    }
}

/// Law: a text message assembled under incremental validation is valid
/// UTF-8 exactly when no cut character is left pending at its end. The
/// reader surfaces a text message only in that case, and refuses it
/// otherwise, so a received text message is valid UTF-8 if and only if
/// reading it succeeds.
pub proof fn lemma_text_stream_acceptance(stream: Seq<u8>, iuc: Option<IncompleteUtf8Char>)
    requires
        spec_text_state_ok(stream, iuc),
    ensures
        iuc is None ==> valid_utf8(stream),
        iuc is Some ==> !valid_utf8(stream),
{
    match iuc {
        None => {},
        Some(u) => {
            crate::incremental_utf8::lemma_valid_has_no_pending(
                stream,
                stream.len() - u@.len(),
            );
        },
    }
}

/// Replies to control frames and passes data frames through.
///
/// A close frame flips the connection to `Closed` and is echoed: verbatim
/// when well formed, as a protocol-error close when its code or length is
/// not. A ping frame is answered with a pong carrying the same payload and
/// the result asks the caller to fetch another frame. Everything else is
/// processed as data.
pub fn manage_auto_reply<const IS_CLIENT: bool>(
    connection_state: &mut ConnectionState,
    no_masking: bool,
    op_code: OpCode,
    payload: &[u8],
    rng: &mut Xorshift64,
    out: &mut Vec<u8>,
) -> (r: Result<bool, Error>)
    ensures
        old(out)@.is_prefix_of(final(out)@),
        final(out)@ == old(out)@ || exists|reply: (OpCode, Seq<u8>)|
            #[trigger] spec_auto_reply_step(old(out)@, final(out)@, IS_CLIENT, no_masking, reply),
        match op_code {
            OpCode::Close => {
                &&& *final(connection_state) == ConnectionState::Closed
                &&& (*old(connection_state) == ConnectionState::Closed ==> (r == Err::<
                    bool,
                    Error,
                >(Error::WebSocket(WebSocketError::ConnectionClosed)) && final(out)@ == old(
                    out,
                )@ && *final(rng) == *old(rng)))
                &&& (*old(connection_state) == ConnectionState::Open ==> {
                    let p = payload@;
                    if p.len() == 1 {
                        r == Err::<bool, Error>(
                            Error::WebSocket(WebSocketError::InvalidCloseFrame),
                        ) && final(out)@ == old(out)@ && *final(rng) == *old(rng)
                    } else if p.len() >= 2 && !valid_utf8(p.subrange(2, p.len() as int)) {
                        r == Err::<bool, Error>(Error::InvalidUTF8) && final(out)@ == old(out)@
                            && *final(rng) == *old(rng)
                    } else if p.len() >= 2 && !(spec_close_code_is_allowed(
                        spec_u16_be(p[0], p[1]) as u16,
                    ) && p.len() <= 125) {
                        r == Err::<bool, Error>(
                            Error::WebSocket(WebSocketError::InvalidCloseFrame),
                        ) && spec_appended_frame(
                            old(out)@,
                            final(out)@,
                            IS_CLIENT,
                            no_masking,
                            true,
                            false,
                            OpCode::Close,
                            spec_protocol_close_payload(p),
                        )
                    } else {
                        r == Ok::<bool, Error>(true) && spec_appended_frame(
                            old(out)@,
                            final(out)@,
                            IS_CLIENT,
                            no_masking,
                            true,
                            false,
                            OpCode::Close,
                            p,
                        ) && spec_close_payload_ok(p)
                    }
                })
            },
            OpCode::Ping => r == Ok::<bool, Error>(false) && *final(connection_state) == *old(
                connection_state,
            ) && spec_appended_frame(
                old(out)@,
                final(out)@,
                IS_CLIENT,
                no_masking,
                true,
                false,
                OpCode::Pong,
                payload@,
            ),
            _ => r == Ok::<bool, Error>(true) && *final(connection_state) == *old(
                connection_state,
            ) && final(out)@ == old(out)@ && *final(rng) == *old(rng),
        },
{
    match op_code {
        OpCode::Close => {
            if connection_state.is_closed() {
                return Err(Error::WebSocket(WebSocketError::ConnectionClosed));
            }
            *connection_state = ConnectionState::Closed;
            if payload.len() == 1 {
                return Err(Error::WebSocket(WebSocketError::InvalidCloseFrame));
            }
            if payload.len() >= 2 {
                let reason = vstd::slice::slice_subrange(payload, 2, payload.len());
                if let Err(_) = validate_full(reason) {
                    return Err(Error::InvalidUTF8);
                }
                let code = ((payload[0] as u16) << 8u16) | (payload[1] as u16);
                let code_allowed = (1000 <= code && code <= 1003) || (1007 <= code && code
                    <= 1011) || (3000 <= code && code <= 4999);
                proof {
                    assert(code == spec_u16_be(payload@[0], payload@[1]));
                }
                if !code_allowed || payload.len() > MAX_CONTROL_PAYLOAD_LEN {
                    let mut echo: Vec<u8> = Vec::new();
                    if payload.len() >= 125 {
                        echo = vstd::slice::slice_to_vec(
                            vstd::slice::slice_subrange(payload, 0, 125),
                        );
                        fill_with_close_code(1002, &mut echo);
                        proof {
                            assert(((1002u16 >> 8) & 0xff) as u8 == 3u8 && (1002u16
                                & 0xff) as u8 == 0xeau8) by (bit_vector);
                            assert(echo@ =~= spec_protocol_close_payload(payload@));
                        }
                    }
                    proof {
                        assert(echo@ =~= spec_protocol_close_payload(payload@));
                    }
                    write_frame_bytes::<IS_CLIENT>(
                        out,
                        true,
                        false,
                        OpCode::Close,
                        echo.as_slice(),
                        no_masking,
                        rng,
                    );
                    proof {
                        assert(spec_auto_reply_step(
                            old(out)@,
                            out@,
                            IS_CLIENT,
                            no_masking,
                            (OpCode::Close, echo@),
                        ));
                    }
                    return Err(Error::WebSocket(WebSocketError::InvalidCloseFrame));
                }
            }
            write_frame_bytes::<IS_CLIENT>(
                out,
                true,
                false,
                OpCode::Close,
                payload,
                no_masking,
                rng,
            );
            proof {
                assert(spec_auto_reply_step(
                    old(out)@,
                    out@,
                    IS_CLIENT,
                    no_masking,
                    (OpCode::Close, payload@),
                ));
            }
            Ok(true)
        },
        OpCode::Ping => {
            write_frame_bytes::<IS_CLIENT>(
                out,
                true,
                false,
                OpCode::Pong,
                payload,
                no_masking,
                rng,
            );
            proof {
                assert(spec_auto_reply_step(
                    old(out)@,
                    out@,
                    IS_CLIENT,
                    no_masking,
                    (OpCode::Pong, payload@),
                ));
            }
            Ok(false)
        },
        OpCode::Continuation | OpCode::Binary | OpCode::Pong | OpCode::Text => Ok(true),
    }
}

/// Checks the opcode of a frame that arrived while a message is being
/// assembled, and runs the incremental text validation on its payload.
/// `Ok(true)` means the message is complete.
pub fn manage_op_code_of_continuation_frames(
    fin: bool,
    first_op_code: OpCode,
    iuc: &mut Option<IncompleteUtf8Char>,
    op_code: OpCode,
    payload: &[u8],
    validate_text: bool,
) -> (r: Result<bool, Error>)
    requires
        (*old(iuc)) matches Some(u) ==> u.wf(),
    ensures
        op_code != OpCode::Continuation ==> (r == Err::<bool, Error>(
            Error::WebSocket(WebSocketError::UnexpectedMessageFrame),
        ) && *final(iuc) == *old(iuc)),
        op_code == OpCode::Continuation && !(first_op_code == OpCode::Text && validate_text) ==> (r
            == Ok::<bool, Error>(fin) && *final(iuc) == *old(iuc)),
        op_code == OpCode::Continuation && first_op_code == OpCode::Text && validate_text ==> ({
            let pending = match *old(iuc) {
                Some(u) => u@,
                None => Seq::<u8>::empty(),
            };
            let combined = pending + payload@;
            match r {
                Ok(b) => b == fin && spec_text_state_ok(combined, *final(iuc)) && ((*final(iuc))
                    matches Some(u) ==> u.wf()),
                Err(e) => e == Error::InvalidUTF8 && spec_utf8_doomed(combined),
            }
        }),
{
    match op_code {
        OpCode::Continuation => {
            if first_op_code.is_text() && validate_text {
                manage_text_of_recurrent_continuation_frames(payload, iuc)?;
            }
            Ok(fin)
        },
        OpCode::Binary | OpCode::Close | OpCode::Ping | OpCode::Pong | OpCode::Text => Err(
            Error::WebSocket(WebSocketError::UnexpectedMessageFrame),
        ),
    }
}

/// Checks the opcode of the frame that opens a fragmented message and, for
/// text, validates its payload as the first piece of the stream.
pub fn manage_op_code_of_first_continuation_frame(
    op_code: OpCode,
    payload: &[u8],
    validate_text: bool,
) -> (r: Result<Option<IncompleteUtf8Char>, Error>)
    ensures
        !(op_code == OpCode::Text || op_code == OpCode::Binary) ==> r == Err::<
            Option<IncompleteUtf8Char>,
            Error,
        >(Error::WebSocket(WebSocketError::UnexpectedMessageFrame)),
        op_code == OpCode::Binary || (op_code == OpCode::Text && !validate_text) ==> r == Ok::<
            Option<IncompleteUtf8Char>,
            Error,
        >(None),
        op_code == OpCode::Text && validate_text ==> match r {
            Ok(iuc) => spec_text_state_ok(payload@, iuc) && (iuc matches Some(u) ==> u.wf()),
            Err(e) => e == Error::InvalidUTF8 && spec_utf8_doomed(payload@),
        },
{
    match op_code {
        OpCode::Binary => Ok(None),
        OpCode::Text => {
            if validate_text {
                let r = manage_text_of_first_continuation_frame(payload)?;
                proof {
                    if r is Some {
                        let u = r->0;
                        let cut = payload@.len() - u@.len();
                        assert(spec_text_state_ok(payload@, r));
                    }
                }
                Ok(r)
            } else {
                Ok(None)
            }
        },
        OpCode::Close | OpCode::Continuation | OpCode::Ping | OpCode::Pong => Err(
            Error::WebSocket(WebSocketError::UnexpectedMessageFrame),
        ),
    }
}

/// Checks a final, single-fragment frame: text must be valid UTF-8 and a
/// lone continuation frame is refused.
pub fn manage_op_code_of_first_final_frame(op_code: OpCode, payload: &[u8]) -> (r: Result<
    (),
    Error,
>)
    ensures
        op_code == OpCode::Continuation ==> r == Err::<(), Error>(
            Error::WebSocket(WebSocketError::UnexpectedMessageFrame),
        ),
        op_code == OpCode::Text ==> ((r is Ok <==> valid_utf8(payload@)) && (r is Err ==> r
            == Err::<(), Error>(Error::InvalidUTF8))),
        !(op_code == OpCode::Continuation || op_code == OpCode::Text) ==> r is Ok,
{
    match op_code {
        OpCode::Close => Ok(()),
        OpCode::Continuation => Err(Error::WebSocket(WebSocketError::UnexpectedMessageFrame)),
        OpCode::Text => {
            match validate_full(payload) {
                Ok(()) => Ok(()),
                Err(_) => Err(Error::InvalidUTF8),
            }
        },
        OpCode::Binary | OpCode::Ping | OpCode::Pong => Ok(()),
    }
}

/// Validates the first fragment of a text message, remembering a character
/// that the fragment boundary cut in half.
pub fn manage_text_of_first_continuation_frame(payload: &[u8]) -> (r: Result<
    Option<IncompleteUtf8Char>,
    Error,
>)
    ensures
        match r {
            Ok(iuc) => spec_text_state_ok(payload@, iuc) && (iuc matches Some(u) ==> u.wf()),
            Err(e) => e == Error::InvalidUTF8 && spec_utf8_doomed(payload@),
        },
{
    match validate_partial(payload) {
        Ok(iuc) => {
            proof {
                if iuc is Some {
                    let u = iuc->0;
                    assert(spec_text_state_ok(payload@, iuc));
                }
            }
            Ok(iuc)
        },
        Err(_) => Err(Error::InvalidUTF8),
    }
}

/// Validates one more fragment of a text message: first the bytes that
/// finish a previously cut character, then the rest of the fragment.
pub fn manage_text_of_recurrent_continuation_frames(
    curr_payload: &[u8],
    iuc: &mut Option<IncompleteUtf8Char>,
) -> (r: Result<(), Error>)
    requires
        (*old(iuc)) matches Some(u) ==> u.wf(),
    ensures
        ({
            let pending = match *old(iuc) {
                Some(u) => u@,
                None => Seq::<u8>::empty(),
            };
            let combined = pending + curr_payload@;
            match r {
                Ok(()) => spec_text_state_ok(combined, *final(iuc)) && ((*final(iuc)) matches Some(u)
                    ==> u.wf()),
                Err(e) => e == Error::InvalidUTF8 && spec_utf8_doomed(combined),
            }
        }),
{
    let ghost pending = match *iuc {
        Some(u) => u@,
        None => Seq::<u8>::empty(),
    };
    let ghost combined = pending + curr_payload@;
    let tail_start: usize;
    match iuc.take() {
        Some(mut incomplete) => {
            let (rslt, consumed) = incomplete.complete(curr_payload);
            match rslt {
                Err(CompletionErr::HasInvalidBytes) => {
                    proof {
                        lemma_doomed_from_dead_head(pending, curr_payload@);
                    }
                    return Err(Error::InvalidUTF8);
                },
                Err(CompletionErr::InsufficientInput) => {
                    *iuc = Some(incomplete);
                    proof {
                        assert(combined =~= incomplete@);
                        assert(combined.subrange(0, 0) =~= Seq::<u8>::empty());
                        assert(valid_utf8(combined.subrange(0, 0)));
                        assert(combined.subrange(
                            combined.len() - incomplete@.len(),
                            combined.len() as int,
                        ) =~= incomplete@);
                        assert(spec_text_state_ok(combined, *iuc));
                    }
                    return Ok(());
                },
                Ok(()) => {
                    tail_start = consumed;
                    proof {
                        assert(pending + curr_payload@.subrange(0, consumed as int)
                            =~= combined.subrange(0, pending.len() + consumed));
                    }
                },
            }
        },
        None => {
            tail_start = 0;
        },
    }
    let ghost scalar = combined.subrange(0, combined.len() - (curr_payload@.len() - tail_start));
    let tail = vstd::slice::slice_subrange(curr_payload, tail_start, curr_payload.len());
    proof {
        assert(combined =~= scalar + tail@);
        if scalar.len() > 0 {
            assert(crate::incremental_utf8::spec_head_width(scalar) == scalar.len());
        } else {
            assert(scalar =~= Seq::<u8>::empty());
        }
    }
    match validate_partial(tail) {
        Ok(None) => {
            proof {
                lemma_block_prepend(scalar, tail@);
                assert(valid_utf8(combined));
            }
            Ok(())
        },
        Ok(Some(new_iuc)) => {
            *iuc = Some(new_iuc);
            proof {
                let cut = tail@.len() - new_iuc@.len();
                let ccut = combined.len() - new_iuc@.len();
                assert(valid_utf8(tail@.subrange(0, cut as int)));
                lemma_block_prepend(scalar, tail@.subrange(0, cut as int));
                assert(combined.subrange(0, ccut as int) =~= scalar + tail@.subrange(
                    0,
                    cut as int,
                ));
                assert(combined.subrange(ccut as int, combined.len() as int) =~= new_iuc@);
                assert(spec_text_state_ok(combined, *iuc));
            }
            Ok(())
        },
        Err(_) => {
            proof {
                assert(spec_utf8_doomed(tail@));
                assert forall|t: Seq<u8>| !valid_utf8(#[trigger] (combined + t)) by {
                    assert(combined + t =~= scalar + (tail@ + t));
                    if scalar.len() > 0 {
                        lemma_scalar_prepend(scalar, tail@ + t);
                    } else {
                        assert(scalar + (tail@ + t) =~= tail@ + t);
                    }
                }
            }
            Err(Error::InvalidUTF8)
        },
    }
}

/// The current part as the reader sees it: unmasked on a masking server,
/// verbatim otherwise.
pub open spec fn spec_nb_processed(
    cur: Seq<u8>,
    is_client: bool,
    no_masking: bool,
    mask: Option<[u8; 4]>,
) -> Seq<u8>
    recommends
        !is_client && !no_masking ==> mask is Some,
{
    if !is_client && !no_masking {
        spec_unmask(cur, mask->0)
    } else {
        cur
    }
}

/// Unmasks the current part of the network buffer on a server for which
/// masking is in force; a frame without a key is refused there.
pub fn unmask_nb<const IS_CLIENT: bool>(
    network_buffer: &mut PartitionedFilledBuffer,
    no_masking: bool,
    rfi: &ReadFrameInfo,
) -> (r: Result<(), Error>)
    requires
        old(network_buffer).wf(),
    ensures
        final(network_buffer).wf(),
        final(network_buffer).a() == old(network_buffer).a(),
        final(network_buffer).b() == old(network_buffer).b(),
        final(network_buffer).c() == old(network_buffer).c(),
        final(network_buffer).cap() == old(network_buffer).cap(),
        final(network_buffer).following_view() == old(network_buffer).following_view(),
        r is Err ==> (r == Err::<(), Error>(Error::WebSocket(WebSocketError::MissingFrameMask))
            && !IS_CLIENT && !no_masking && rfi.mask is None
            && *final(network_buffer) == *old(network_buffer)),
        r is Ok ==> (!IS_CLIENT && !no_masking ==> rfi.mask is Some)
            && final(network_buffer).current_view() == spec_nb_processed(
            old(network_buffer).current_view(),
            IS_CLIENT,
            no_masking,
            rfi.mask,
        ),
{
    if !IS_CLIENT && !no_masking {
        let Some(mask) = rfi.mask else {
            return Err(Error::WebSocket(WebSocketError::MissingFrameMask));
        };
        network_buffer.unmask_current(mask);
    }
    Ok(())
}

/// Appends the (unmasked) current part of the network buffer onto the
/// first reader buffer, resetting the network buffer when nothing beyond
/// the current frame was read.
pub fn copy_from_arbitrary_nb_to_rb1<const IS_CLIENT: bool>(
    network_buffer: &mut PartitionedFilledBuffer,
    no_masking: bool,
    reader_buffer_first: &mut Vec<u8>,
    rfi: &ReadFrameInfo,
) -> (r: Result<(), Error>)
    requires
        old(network_buffer).wf(),
    ensures
        final(network_buffer).wf(),
        final(network_buffer).following_view() == old(network_buffer).following_view(),
        r is Err <==> (!IS_CLIENT && !no_masking && rfi.mask is None),
        r is Err ==> (r == Err::<(), Error>(Error::WebSocket(WebSocketError::MissingFrameMask))
            && final(reader_buffer_first)@ == old(reader_buffer_first)@),
        r is Ok ==> final(reader_buffer_first)@ == old(reader_buffer_first)@ + spec_nb_processed(
            old(network_buffer).current_view(),
            IS_CLIENT,
            no_masking,
            rfi.mask,
        ),
        r is Ok && old(network_buffer).following_view().len() == 0 ==> final(network_buffer).a()
            == 0 && final(network_buffer).b() == 0 && final(network_buffer).c() == 0,
        r is Ok && old(network_buffer).following_view().len() > 0 ==> final(network_buffer).a()
            == old(network_buffer).a() && final(network_buffer).b() == old(network_buffer).b()
            && final(network_buffer).c() == old(network_buffer).c(),
{
    unmask_nb::<IS_CLIENT>(network_buffer, no_masking, rfi)?;
    let mut copy = vstd::slice::slice_to_vec(network_buffer.current());
    reader_buffer_first.append(&mut copy);
    network_buffer.clear_if_following_is_empty();
    Ok(())
}

/// Inflates the current part of the network buffer onto the first reader
/// buffer. The four-byte decompression tail is written over the first
/// bytes of the following part for the duration of the call and restored
/// afterwards.
pub fn copy_from_compressed_nb_to_rb1<NC: NegotiatedCompression, const IS_CLIENT: bool>(
    nc: &mut NC,
    network_buffer: &mut PartitionedFilledBuffer,
    no_masking: bool,
    reader_buffer_first: &mut Vec<u8>,
    rfi: &ReadFrameInfo,
) -> (r: Result<(), Error>)
    requires
        old(network_buffer).wf(),
    ensures
        final(network_buffer).wf(),
        final(network_buffer).following_view() == old(network_buffer).following_view(),
        old(reader_buffer_first)@.is_prefix_of(final(reader_buffer_first)@),
        !IS_CLIENT && !no_masking && rfi.mask is None ==> (r == Err::<(), Error>(
            Error::WebSocket(WebSocketError::MissingFrameMask),
        ) && final(reader_buffer_first)@ == old(reader_buffer_first)@ && *final(network_buffer)
            == *old(network_buffer)),
        !(!IS_CLIENT && !no_masking && rfi.mask is None)
            ==> final(network_buffer).current_view() == spec_nb_processed(
            old(network_buffer).current_view(),
            IS_CLIENT,
            no_masking,
            rfi.mask,
        ),
{
    unmask_nb::<IS_CLIENT>(network_buffer, no_masking, rfi)?;
    network_buffer.reserve(4)?;
    let ghost mid = *network_buffer;
    let a = network_buffer.antecedent_end_idx();
    let b = network_buffer.current_end_idx();
    let cap = network_buffer.capacity();
    proof {
        assert(b + 4 <= cap);
    }
    let saved = [
        network_buffer.get_byte(b),
        network_buffer.get_byte(b + 1),
        network_buffer.get_byte(b + 2),
        network_buffer.get_byte(b + 3),
    ];
    network_buffer.set_byte(b, DECOMPRESSION_SUFFIX[0]);
    network_buffer.set_byte(b + 1, DECOMPRESSION_SUFFIX[1]);
    network_buffer.set_byte(b + 2, DECOMPRESSION_SUFFIX[2]);
    network_buffer.set_byte(b + 3, DECOMPRESSION_SUFFIX[3]);
    let input = network_buffer.slice_range(a, b + 4);
    let rslt = nc.decompress(input, reader_buffer_first);
    network_buffer.set_byte(b, saved[0]);
    network_buffer.set_byte(b + 1, saved[1]);
    network_buffer.set_byte(b + 2, saved[2]);
    network_buffer.set_byte(b + 3, saved[3]);
    proof {
        assert(network_buffer.bytes() =~= mid.bytes());
        assert(network_buffer.following_view() == mid.following_view());
    }
    let _ = rslt?;
    Ok(())
}

/// Terminates the compressed reassembly in the first reader buffer with
/// the decompression tail, inflates it into the second reader buffer and,
/// for text messages, validates the inflated bytes.
pub fn copy_from_compressed_rb1_to_rb2<NC: NegotiatedCompression>(
    first_op_code: OpCode,
    nc: &mut NC,
    reader_buffer_first: &mut Vec<u8>,
    reader_buffer_second: &mut Vec<u8>,
) -> (r: Result<(), Error>)
    ensures
        final(reader_buffer_first)@ == old(reader_buffer_first)@ + seq![0u8, 0u8, 255u8, 255u8],
        old(reader_buffer_second)@.is_prefix_of(final(reader_buffer_second)@),
        r is Ok && first_op_code == OpCode::Text ==> valid_utf8(final(reader_buffer_second)@),
{
    reader_buffer_first.push(DECOMPRESSION_SUFFIX[0]);
    reader_buffer_first.push(DECOMPRESSION_SUFFIX[1]);
    reader_buffer_first.push(DECOMPRESSION_SUFFIX[2]);
    reader_buffer_first.push(DECOMPRESSION_SUFFIX[3]);
    proof {
        assert(reader_buffer_first@ =~= old(reader_buffer_first)@ + seq![
            0u8,
            0u8,
            255u8,
            255u8,
        ]);
    }
    let _ = nc.decompress(reader_buffer_first.as_slice(), reader_buffer_second)?;
    if first_op_code.is_text() {
        if let Err(_) = validate_full(reader_buffer_second.as_slice()) {
            return Err(Error::InvalidUTF8);
        }
    }
    Ok(())
}

/// A complete character (or nothing) on the left preserves validity of a
/// valid block.
proof fn lemma_block_prepend(scalar: Seq<u8>, block: Seq<u8>)
    requires
        scalar.len() == 0 || crate::incremental_utf8::spec_head_width(scalar) == scalar.len(),
        valid_utf8(block),
    ensures
        valid_utf8(scalar + block),
{
    if scalar.len() == 0 {
        assert(scalar + block =~= block);
    } else {
        lemma_scalar_prepend(scalar, block);
    }
}

/// When finishing a cut character dies on a bad byte, nothing that starts
/// with those bytes is valid UTF-8.
proof fn lemma_doomed_from_dead_head(pending: Seq<u8>, more: Seq<u8>)
    requires
        pending.len() >= 1,
        forall|t: Seq<u8>|
            crate::incremental_utf8::spec_head_width(#[trigger] ((pending + more) + t)) == 0,
    ensures
        spec_utf8_doomed(pending + more),
{
    let combined = pending + more;
    assert forall|t: Seq<u8>| !valid_utf8(#[trigger] (combined + t)) by {
        let full = combined + t;
        assert(crate::incremental_utf8::spec_head_width(full) == 0);
        crate::incremental_utf8::lemma_head_width_equiv(full);
        assert(full.len() > 0);
    }
}

} // verus!
