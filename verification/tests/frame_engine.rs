//! Wire-level scenarios of the reader and writer engines.

use wtx::connection_state::ConnectionState;
use wtx::error::Error;
use wtx::frame::{Frame, PayloadTy};
use wtx::op_code::OpCode;
use wtx::rng::Xorshift64;
use wtx::web_socket::{WebSocket, WebSocketBuffer};
use wtx::web_socket_error::WebSocketError;

fn server(no_masking: bool) -> WebSocket<(), false> {
    WebSocket::new((), Xorshift64::new(7), 16 * 1024 * 1024, no_masking, WebSocketBuffer::new())
}

fn client(no_masking: bool) -> WebSocket<(), true> {
    WebSocket::new((), Xorshift64::new(9), 16 * 1024 * 1024, no_masking, WebSocketBuffer::new())
}

#[test]
fn tiny_masked_text_from_client() {
    let mut ws = server(false);
    let wire = [
        0x81,
        0x82,
        0xaa,
        0xbb,
        0xcc,
        0xdd,
        b'H' ^ 0xaa,
        b'i' ^ 0xbb,
    ];
    ws.feed(&wire).unwrap();
    let (frame, payload_ty) = ws.read_frame().unwrap().unwrap();
    assert_eq!(frame.op_code, OpCode::Text);
    assert_eq!(frame.payload, b"Hi".to_vec());
    assert!(frame.fin);
    assert_eq!(payload_ty, PayloadTy::Network);
    assert_eq!(ws.connection_state(), ConnectionState::Open);
}

#[test]
fn fragmented_text() {
    let mut ws = server(true);
    let mut wire = vec![0x01, 0x03];
    wire.extend_from_slice(b"foo");
    wire.extend_from_slice(&[0x80, 0x03]);
    wire.extend_from_slice(b"bar");
    ws.feed(&wire).unwrap();
    let (frame, payload_ty) = ws.read_frame().unwrap().unwrap();
    assert_eq!(frame.op_code, OpCode::Text);
    assert_eq!(frame.payload, b"foobar".to_vec());
    assert_eq!(payload_ty, PayloadTy::FirstReader);
}

#[test]
fn fragmented_text_fed_frame_by_frame() {
    let mut ws = server(true);
    ws.feed(&[0x01, 0x03, b'f', b'o', b'o']).unwrap();
    assert!(ws.read_frame().unwrap().is_none());
    ws.feed(&[0x80, 0x03, b'b', b'a', b'r']).unwrap();
    let (frame, _) = ws.read_frame().unwrap().unwrap();
    assert_eq!(frame.payload, b"foobar".to_vec());
}

#[test]
fn mid_codepoint_split() {
    let mut ws = server(true);
    ws.feed(&[0x01, 0x02, 0xe2, 0x82]).unwrap();
    assert!(ws.read_frame().unwrap().is_none());
    ws.feed(&[0x80, 0x01, 0xac]).unwrap();
    let (frame, _) = ws.read_frame().unwrap().unwrap();
    assert_eq!(frame.op_code, OpCode::Text);
    assert_eq!(frame.payload, "\u{20ac}".as_bytes().to_vec());
}

#[test]
fn mid_codepoint_split_invalid_continuation() {
    let mut ws = server(true);
    ws.feed(&[0x01, 0x02, 0xe2, 0x82]).unwrap();
    assert!(ws.read_frame().unwrap().is_none());
    ws.feed(&[0x80, 0x01, 0x28]).unwrap();
    let r = ws.read_frame();
    assert_eq!(r.unwrap_err(), Error::InvalidUTF8);
    assert_eq!(ws.connection_state(), ConnectionState::Closed);
}

#[test]
fn unfinished_character_at_message_end() {
    let mut ws = server(true);
    ws.feed(&[0x01, 0x03, b'f', b'o', b'o']).unwrap();
    ws.feed(&[0x80, 0x02, 0xe2, 0x82]).unwrap();
    let r = ws.read_frame();
    assert_eq!(r.unwrap_err(), Error::InvalidUTF8);
}

#[test]
fn ping_between_fragments() {
    let mut ws = server(true);
    ws.feed(&[0x01, 0x03, b'f', b'o', b'o']).unwrap();
    ws.feed(&[0x89, 0x00]).unwrap();
    ws.feed(&[0x80, 0x03, b'b', b'a', b'r']).unwrap();
    let (frame, _) = ws.read_frame().unwrap().unwrap();
    assert_eq!(frame.op_code, OpCode::Text);
    assert_eq!(frame.payload, b"foobar".to_vec());
    assert_eq!(ws.take_output(), vec![0x8a, 0x00]);
}

#[test]
fn oversize_control() {
    let mut ws = server(true);
    let mut wire = vec![0x89, 0x7e, 0x00, 0x7e];
    wire.extend_from_slice(&[0u8; 126]);
    ws.feed(&wire).unwrap();
    let r = ws.read_frame();
    assert_eq!(
        r.unwrap_err(),
        Error::WebSocket(WebSocketError::VeryLargeControlFrame)
    );
    assert_eq!(ws.connection_state(), ConnectionState::Closed);
}

#[test]
fn close_handshake() {
    let mut ws = server(true);
    ws.feed(&[0x88, 0x02, 0x03, 0xe8]).unwrap();
    let (frame, _) = ws.read_frame().unwrap().unwrap();
    assert_eq!(frame.op_code, OpCode::Close);
    assert_eq!(frame.payload, vec![0x03, 0xe8]);
    assert_eq!(ws.take_output(), vec![0x88, 0x02, 0x03, 0xe8]);
    assert_eq!(ws.connection_state(), ConnectionState::Closed);
    let again = ws.read_frame();
    assert_eq!(
        again.unwrap_err(),
        Error::WebSocket(WebSocketError::ConnectionClosed)
    );
}

#[test]
fn close_with_one_payload_byte_is_invalid() {
    let mut ws = server(true);
    ws.feed(&[0x88, 0x01, 0x03]).unwrap();
    let r = ws.read_frame();
    assert_eq!(
        r.unwrap_err(),
        Error::WebSocket(WebSocketError::InvalidCloseFrame)
    );
}

#[test]
fn close_with_reserved_code_is_refused_with_protocol_close() {
    let mut ws = server(true);
    // code 1005 must never appear on the wire
    ws.feed(&[0x88, 0x02, 0x03, 0xed]).unwrap();
    let r = ws.read_frame();
    assert_eq!(
        r.unwrap_err(),
        Error::WebSocket(WebSocketError::InvalidCloseFrame)
    );
    // the echoed protocol-error close carries no payload for short inputs
    assert_eq!(ws.take_output(), vec![0x88, 0x00]);
}

#[test]
fn missing_mask_on_server_is_refused() {
    let mut ws = server(false);
    ws.feed(&[0x81, 0x02, b'H', b'i']).unwrap();
    let r = ws.read_frame();
    assert_eq!(
        r.unwrap_err(),
        Error::WebSocket(WebSocketError::MissingFrameMask)
    );
}

#[test]
fn pong_frames_are_swallowed() {
    let mut ws = server(true);
    ws.feed(&[0x8a, 0x00]).unwrap();
    assert!(ws.read_frame().unwrap().is_none());
    ws.feed(&[0x82, 0x01, 0x7f]).unwrap();
    let (frame, _) = ws.read_frame().unwrap().unwrap();
    assert_eq!(frame.op_code, OpCode::Binary);
    assert_eq!(frame.payload, vec![0x7f]);
}

#[test]
fn invalid_utf8_single_frame_text() {
    let mut ws = server(true);
    ws.feed(&[0x81, 0x01, 0xff]).unwrap();
    assert_eq!(ws.read_frame().unwrap_err(), Error::InvalidUTF8);
}

#[test]
fn client_writer_masks_its_frames() {
    let mut ws = client(false);
    let frame = Frame::new_fin(OpCode::Text, b"Hi".to_vec());
    ws.write_frame(&frame).unwrap();
    let wire = ws.take_output();
    assert_eq!(wire[0], 0x81);
    assert_eq!(wire[1], 0x80 | 0x02);
    assert_eq!(wire.len(), 2 + 4 + 2);
    let key = [wire[2], wire[3], wire[4], wire[5]];
    assert_eq!(wire[6] ^ key[0], b'H');
    assert_eq!(wire[7] ^ key[1], b'i');
}

#[test]
fn server_writer_does_not_mask() {
    let mut ws = server(false);
    let frame = Frame::new_fin(OpCode::Text, b"Hi".to_vec());
    ws.write_frame(&frame).unwrap();
    assert_eq!(ws.take_output(), vec![0x81, 0x02, b'H', b'i']);
}

#[test]
fn writer_refuses_frames_after_close() {
    let mut ws = server(false);
    ws.write_frame(&Frame::new_fin(OpCode::Close, Vec::new())).unwrap();
    assert_eq!(ws.connection_state(), ConnectionState::Closed);
    let r = ws.write_frame(&Frame::new_fin(OpCode::Text, b"late".to_vec()));
    assert_eq!(
        r.unwrap_err(),
        Error::WebSocket(WebSocketError::ConnectionClosed)
    );
}

#[test]
fn masked_round_trip_between_client_and_server() {
    let mut cl = client(false);
    cl.write_frame(&Frame::new_fin(OpCode::Text, "Hi and Bye".as_bytes().to_vec())).unwrap();
    let wire = cl.take_output();
    let mut sv = server(false);
    sv.feed(&wire).unwrap();
    let (frame, _) = sv.read_frame().unwrap().unwrap();
    assert_eq!(frame.op_code, OpCode::Text);
    assert_eq!(frame.payload, b"Hi and Bye".to_vec());
}

#[test]
fn large_binary_round_trip_uses_extended_length() {
    let payload: Vec<u8> = (0..70000u32).map(|i| (i % 251) as u8).collect();
    let mut cl = client(true);
    cl.write_frame(&Frame::new_fin(OpCode::Binary, payload.clone())).unwrap();
    let wire = cl.take_output();
    assert_eq!(wire[1] & 0x7f, 127);
    let mut sv = server(true);
    sv.feed(&wire).unwrap();
    let (frame, _) = sv.read_frame().unwrap().unwrap();
    assert_eq!(frame.op_code, OpCode::Binary);
    assert_eq!(frame.payload, payload);
}

#[test]
fn reserved_bits_require_negotiation() {
    let mut ws = server(true);
    ws.feed(&[0xc1, 0x01, b'x']).unwrap();
    assert_eq!(
        ws.read_frame().unwrap_err(),
        Error::WebSocket(WebSocketError::ReservedBitsAreNotZero)
    );
    let mut ws2 = server(true);
    ws2.feed(&[0xa1, 0x01, b'x']).unwrap();
    assert_eq!(
        ws2.read_frame().unwrap_err(),
        Error::WebSocket(WebSocketError::ReservedBitsAreNotZero)
    );
}

#[test]
fn lone_continuation_frame_is_refused() {
    let mut ws = server(true);
    ws.feed(&[0x80, 0x01, b'x']).unwrap();
    assert_eq!(
        ws.read_frame().unwrap_err(),
        Error::WebSocket(WebSocketError::UnexpectedMessageFrame)
    );
}

#[test]
fn data_frame_inside_a_fragmented_message_is_refused() {
    let mut ws = server(true);
    ws.feed(&[0x01, 0x01, b'a']).unwrap();
    ws.feed(&[0x81, 0x01, b'b']).unwrap();
    assert_eq!(
        ws.read_frame().unwrap_err(),
        Error::WebSocket(WebSocketError::UnexpectedMessageFrame)
    );
}

#[test]
fn close_inside_a_fragmented_message_is_echoed_then_refused() {
    let mut ws = server(true);
    ws.feed(&[0x01, 0x01, b'a']).unwrap();
    ws.feed(&[0x88, 0x02, 0x03, 0xe8]).unwrap();
    assert_eq!(
        ws.read_frame().unwrap_err(),
        Error::WebSocket(WebSocketError::UnexpectedMessageFrame)
    );
    assert_eq!(ws.take_output(), vec![0x88, 0x02, 0x03, 0xe8]);
    assert_eq!(ws.connection_state(), ConnectionState::Closed);
}

#[test]
fn no_masking_client_sends_bare_frames() {
    let mut ws = client(true);
    ws.write_frame(&Frame::new_fin(OpCode::Text, b"Hi".to_vec())).unwrap();
    assert_eq!(ws.take_output(), vec![0x81, 0x02, b'H', b'i']);
}

#[test]
fn payload_above_the_bound_is_refused() {
    let mut ws: WebSocket<(), false> =
        WebSocket::new((), Xorshift64::new(7), 4, true, WebSocketBuffer::new());
    ws.feed(&[0x82, 0x05, 1, 2, 3, 4, 5]).unwrap();
    assert_eq!(
        ws.read_frame().unwrap_err(),
        Error::WebSocket(WebSocketError::VeryLargePayload)
    );
}

#[test]
fn write_frames_queues_in_order() {
    let mut ws = server(false);
    let frames = vec![
        Frame::new(false, OpCode::Text, b"fo".to_vec(), false),
        Frame::new(true, OpCode::Continuation, b"o".to_vec(), false),
    ];
    ws.write_frames(&frames).unwrap();
    assert_eq!(
        ws.take_output(),
        vec![0x01, 0x02, b'f', b'o', 0x80, 0x01, b'o']
    );
}
