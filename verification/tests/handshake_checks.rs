//! Handshake derivation and checking, including the fixed key of the
//! protocol specification.

use wtx::error::{Error, KnownHeaderName, Method};
use wtx::handshake::{
    accept, accept_key_of_request, build_req, build_res, connect_reply, derived_key, gen_key,
    has_header_key_and_value, verify_common_header, Uri,
};
use wtx::rng::Xorshift64;
use wtx::web_socket_error::WebSocketError;

fn headers_ok() -> Vec<(Vec<u8>, Vec<u8>)> {
    vec![
        (b"Host".to_vec(), b"example.com".to_vec()),
        (b"Upgrade".to_vec(), b"websocket".to_vec()),
        (b"Connection".to_vec(), b"keep-alive, Upgrade".to_vec()),
        (b"Sec-WebSocket-Key".to_vec(), b"dGhlIHNhbXBsZSBub25jZQ==".to_vec()),
        (b"Sec-WebSocket-Version".to_vec(), b"13".to_vec()),
    ]
}

#[test]
fn derived_key_matches_the_documented_sample() {
    let swa = derived_key(b"dGhlIHNhbXBsZSBub25jZQ==");
    assert_eq!(swa, b"s3pPLMBiTxaQ9kYGzzhZRbK+xOo=".to_vec());
}

#[test]
fn header_matching_is_case_insensitive_and_token_based() {
    let headers = headers_ok();
    assert!(has_header_key_and_value(&headers, b"connection", b"upgrade"));
    assert!(has_header_key_and_value(&headers, b"CONNECTION", b"UPGRADE"));
    assert!(!has_header_key_and_value(&headers, b"connection", b"keep"));
    assert!(has_header_key_and_value(&headers, b"upgrade", b"websocket"));
    assert!(verify_common_header(&headers).is_ok());
}

#[test]
fn accept_key_is_extracted() {
    let headers = headers_ok();
    let key = accept_key_of_request(b"GET", &headers).unwrap();
    assert_eq!(key, b"dGhlIHNhbXBsZSBub25jZQ==".to_vec());
}

#[test]
fn accept_refuses_wrong_method() {
    let headers = headers_ok();
    let r = accept_key_of_request(b"POST", &headers);
    assert_eq!(r.unwrap_err(), Error::UnexpectedHttpMethod(Method::Get));
}

#[test]
fn accept_refuses_missing_version() {
    let mut headers = headers_ok();
    headers.retain(|h| h.0 != b"Sec-WebSocket-Version".to_vec());
    let r = accept_key_of_request(b"GET", &headers);
    assert_eq!(
        r.unwrap_err(),
        Error::MissingHeader { expected: KnownHeaderName::SecWebsocketVersion }
    );
}

#[test]
fn accept_refuses_missing_connection_upgrade() {
    let mut headers = headers_ok();
    headers.retain(|h| h.0 != b"Connection".to_vec());
    let r = accept_key_of_request(b"GET", &headers);
    assert_eq!(
        r.unwrap_err(),
        Error::MissingHeader { expected: KnownHeaderName::Connection }
    );
}

#[test]
fn accept_builds_the_switching_protocols_response() {
    let request = b"GET /chat HTTP/1.1\r\nHost: example.com\r\nUpgrade: websocket\r\nConnection: Upgrade\r\nSec-WebSocket-Key: dGhlIHNhbXBsZSBub25jZQ==\r\nSec-WebSocket-Version: 13\r\n\r\n";
    let (response, consumed) = accept::<()>(&(), request).unwrap().unwrap();
    assert_eq!(consumed, request.len());
    let text = String::from_utf8(response).unwrap();
    assert!(text.starts_with("HTTP/1.1 101 Switching Protocols\r\n"));
    assert!(text.contains("Sec-WebSocket-Accept: s3pPLMBiTxaQ9kYGzzhZRbK+xOo="));
    assert!(text.contains("Upgrade: websocket"));
    assert!(text.ends_with("\r\n\r\n"));
}

#[test]
fn accept_reports_partial_requests() {
    let request = b"GET /chat HTTP/1.1\r\nHost: exa";
    assert!(accept::<()>(&(), request).unwrap().is_none());
}

#[test]
fn accept_preserves_bytes_after_the_request() {
    let mut request = b"GET / HTTP/1.1\r\nHost: h\r\nUpgrade: websocket\r\nConnection: Upgrade\r\nSec-WebSocket-Key: dGhlIHNhbXBsZSBub25jZQ==\r\nSec-WebSocket-Version: 13\r\n\r\n".to_vec();
    let head = request.len();
    request.extend_from_slice(&[0x89, 0x00]);
    let (_, consumed) = accept::<()>(&(), &request).unwrap().unwrap();
    assert_eq!(consumed, head);
    assert_eq!(&request[consumed..], &[0x89, 0x00]);
}

#[test]
fn connect_round_trip_against_own_server() {
    let uri = Uri {
        schema: String::from("ws"),
        hostname: String::from("example.com"),
        port: String::from("80"),
        path: String::from("/chat"),
    };
    let mut rng = Xorshift64::new(42);
    let key = gen_key(&mut rng);
    let request = build_req::<()>(&(), &Vec::new(), &key, &uri);
    let text = String::from_utf8(request.clone()).unwrap();
    assert!(text.starts_with("GET /chat HTTP/1.1\r\n"));
    assert!(text.contains("Host: example.com\r\n"));
    assert!(!text.contains("Host: example.com:80"));
    assert!(text.contains("Sec-WebSocket-Version: 13\r\n"));
    let (response, _) = accept::<()>(&(), &request).unwrap().unwrap();
    assert_eq!(connect_reply(&key, &response).unwrap(), Some(response.len()));
}

#[test]
fn connect_requires_status_101() {
    let response = b"HTTP/1.1 200 OK\r\n\r\n";
    let r = connect_reply(b"k", response);
    assert_eq!(
        r.unwrap_err(),
        Error::WebSocket(WebSocketError::MissingSwitchingProtocols)
    );
}

#[test]
fn connect_requires_matching_accept_value() {
    let response = b"HTTP/1.1 101 Switching Protocols\r\nConnection: Upgrade\r\nUpgrade: websocket\r\nSec-WebSocket-Accept: bogus\r\n\r\n";
    let r = connect_reply(b"dGhlIHNhbXBsZSBub25jZQ==", response);
    assert_eq!(
        r.unwrap_err(),
        Error::MissingHeader { expected: KnownHeaderName::SecWebsocketKey }
    );
}

#[test]
fn non_default_port_appears_in_host_header() {
    let uri = Uri {
        schema: String::from("ws"),
        hostname: String::from("example.com"),
        port: String::from("8080"),
        path: String::from("/"),
    };
    let mut rng = Xorshift64::new(43);
    let key = gen_key(&mut rng);
    let request = build_req::<()>(&(), &Vec::new(), &key, &uri);
    let text = String::from_utf8(request).unwrap();
    assert!(text.contains("Host: example.com:8080\r\n"));
}

#[test]
fn build_res_layout() {
    let response = build_res::<()>(&(), b"SWATEST");
    let text = String::from_utf8(response).unwrap();
    assert_eq!(
        text,
        "HTTP/1.1 101 Switching Protocols\r\nConnection: Upgrade\r\nSec-WebSocket-Accept: SWATEST\r\nUpgrade: websocket\r\n\r\n"
    );
}

#[test]
fn gen_key_is_a_function_of_the_generator_state() {
    let mut a = Xorshift64::new(123);
    let mut b = Xorshift64::new(123);
    assert_eq!(gen_key(&mut a), gen_key(&mut b));
    // the generator advanced: a second draw gives another nonce
    let mut c = Xorshift64::new(123);
    let first = gen_key(&mut c);
    let second = gen_key(&mut c);
    assert_ne!(first, second);
}

#[test]
fn build_req_writes_extra_headers_in_order() {
    let uri = Uri {
        schema: String::from("wss"),
        hostname: String::from("example.com"),
        port: String::from("443"),
        path: String::from("/chat"),
    };
    let mut rng = Xorshift64::new(5);
    let key = gen_key(&mut rng);
    let extra = vec![
        (b"X-First".to_vec(), b"1".to_vec()),
        (b"X-Second".to_vec(), b"2".to_vec()),
    ];
    let request = build_req::<()>(&(), &extra, &key, &uri);
    let text = String::from_utf8(request).unwrap();
    assert!(text.starts_with("GET /chat HTTP/1.1\r\nX-First: 1\r\nX-Second: 2\r\n"));
    assert!(text.contains("Host: example.com\r\n"));
    assert!(!text.contains("Host: example.com:443"));
    assert!(text.ends_with("\r\n\r\n"));
}
