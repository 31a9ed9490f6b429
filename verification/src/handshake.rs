//! The opening handshake: parsing and checking the HTTP/1 upgrade request
//! and response, deriving the `Sec-WebSocket-Accept` value, and emitting
//! both sides' head bytes.
//!
//! The HTTP/1 parsing itself is delegated to the `httparse` crate behind
//! trusted wrappers; every rule of the handshake is checked in verified
//! code on the plain values those wrappers return.

use vstd::prelude::*;
use crate::base64::base64_encode;
use crate::error::{Error, KnownHeaderName, Method};
use crate::sha1::sha1;
use crate::web_socket_error::WebSocketError;

verus! {

/// Handshake messages larger than this many bytes are refused.
pub const MAX_READ_LEN: usize = 2048;

/// An ASCII letter folded to lower case; other bytes stay.
pub open spec fn spec_to_lower(b: u8) -> u8 {
    if 0x41 <= b <= 0x5a {
        (b + 0x20) as u8
    } else {
        b
    }
}

/// Case-insensitive ASCII equality.
pub open spec fn spec_eq_ignore_case(a: Seq<u8>, b: Seq<u8>) -> bool {
    a.len() == b.len() && forall|i: int|
        0 <= i < a.len() ==> spec_to_lower(#[trigger] a[i]) == spec_to_lower(b[i])
}

/// ASCII whitespace as HTTP field values may carry it.
pub open spec fn spec_is_ws(b: u8) -> bool {
    b == 0x20 || b == 0x09 || b == 0x0d || b == 0x0a
}

/// The sequence with leading and trailing ASCII whitespace removed.
pub open spec fn spec_trim(s: Seq<u8>) -> Seq<u8>
    decreases s.len(),
{
    if s.len() == 0 {
        s
    } else if spec_is_ws(s[0]) {
        spec_trim(s.skip(1))
    } else if spec_is_ws(s[s.len() - 1]) {
        spec_trim(s.take(s.len() - 1))
    } else {
        s
    }
}

/// Position of the first comma, or the length when there is none.
pub open spec fn spec_first_comma(s: Seq<u8>) -> nat
    decreases s.len(),
{
    if s.len() == 0 {
        0
    } else if s[0] == 0x2c {
        0
    } else {
        1 + spec_first_comma(s.skip(1))
    }
}

/// Whether one of the comma-separated segments of `value` matches the
/// token, trimmed and ASCII-case-insensitively.
pub open spec fn spec_has_csv_token(value: Seq<u8>, token: Seq<u8>) -> bool
    decreases value.len(),
{
    let k = spec_first_comma(value);
    if spec_eq_ignore_case(spec_trim(value.take(k as int)), token) {
        true
    } else if k >= value.len() {
        false
    } else {
        spec_has_csv_token(value.skip(k + 1 as int), token)
    }
}

/// The byte sequences of an owned header list.
pub open spec fn spec_headers_view(headers: Seq<(Vec<u8>, Vec<u8>)>) -> Seq<(Seq<u8>, Seq<u8>)> {
    headers.map_values(|h: (Vec<u8>, Vec<u8>)| (h.0@, h.1@))
}

/// Whether some header matches the key (trimmed, case-insensitively) and
/// one of its comma-separated values matches the token.
pub open spec fn spec_has_header_key_and_value(
    headers: Seq<(Seq<u8>, Seq<u8>)>,
    key: Seq<u8>,
    value: Seq<u8>,
) -> bool {
    exists|i: int|
        0 <= i < headers.len() && spec_eq_ignore_case(
            spec_trim((#[trigger] headers[i]).0),
            key,
        ) && spec_has_csv_token(headers[i].1, value)
}

/// The value of the first header named `Sec-WebSocket-Key`, if any.
pub open spec fn spec_websocket_key(headers: Seq<(Seq<u8>, Seq<u8>)>) -> Option<Seq<u8>>
    decreases headers.len(),
{
    if headers.len() == 0 {
        None
    } else if spec_eq_ignore_case(headers[0].0, spec_ascii("sec-websocket-key")) {
        Some(headers[0].1)
    } else {
        spec_websocket_key(headers.skip(1))
    }
}

/// Folds an ASCII letter to lower case.
fn to_lower(b: u8) -> (r: u8)
    ensures
        r == spec_to_lower(b),
{
    if 0x41 <= b && b <= 0x5a {
        b + 0x20
    } else {
        b
    }
}

/// Case-insensitive ASCII equality of two byte slices.
fn eq_ignore_case(a: &[u8], b: &[u8]) -> (r: bool)
    ensures
        r == spec_eq_ignore_case(a@, b@),
{
    if a.len() != b.len() {
        return false;
    }
    let mut i: usize = 0;
    while i < a.len()
        invariant
            a@.len() == b@.len(),
            i <= a@.len(),
            forall|j: int| 0 <= j < i ==> spec_to_lower(#[trigger] a@[j]) == spec_to_lower(b@[j]),
        decreases a@.len() - i,
    {
        if to_lower(a[i]) != to_lower(b[i]) {
            return false;
        }
        i += 1;
    }
    true
}

/// Whether the byte is ASCII whitespace.
fn is_ws(b: u8) -> (r: bool)
    ensures
        r == spec_is_ws(b),
{
    b == 0x20 || b == 0x09 || b == 0x0d || b == 0x0a
}

/// The slice with leading and trailing ASCII whitespace removed.
fn trim_bytes(bytes: &[u8]) -> (r: &[u8])
    ensures
        r@ == spec_trim(bytes@),
{
    let mut start: usize = 0;
    let mut end: usize = bytes.len();
    proof {
        assert(bytes@.subrange(0, bytes@.len() as int) =~= bytes@);
    }
    while start < end && is_ws(bytes[start])
        invariant
            start <= end <= bytes@.len(),
            spec_trim(bytes@) == spec_trim(bytes@.subrange(start as int, end as int)),
        decreases end - start,
    {
        proof {
            let s = bytes@.subrange(start as int, end as int);
            assert(s[0] == bytes@[start as int]);
            assert(s.skip(1) =~= bytes@.subrange(start + 1, end as int));
        }
        start += 1;
    }
    while start < end && is_ws(bytes[end - 1])
        invariant
            start <= end <= bytes@.len(),
            spec_trim(bytes@) == spec_trim(bytes@.subrange(start as int, end as int)),
            start < end ==> !spec_is_ws(bytes@[start as int]),
        decreases end - start,
    {
        proof {
            let s = bytes@.subrange(start as int, end as int);
            assert(s[0] == bytes@[start as int]);
            assert(s[s.len() - 1] == bytes@[end - 1]);
            assert(s.take(s.len() - 1) =~= bytes@.subrange(start as int, end - 1));
        }
        end -= 1;
    }
    let r = vstd::slice::slice_subrange(bytes, start, end);
    proof {
        let s = bytes@.subrange(start as int, end as int);
        if start < end {
            assert(s[0] == bytes@[start as int]);
            assert(s[s.len() - 1] == bytes@[end - 1]);
        }
        assert(spec_trim(s) == s);
    }
    r
}

/// Whether one comma-separated segment of `value` matches `token`.
fn has_csv_token(value: &[u8], token: &[u8]) -> (r: bool)
    ensures
        r == spec_has_csv_token(value@, token@),
{
    let mut pos: usize = 0;
    proof {
        assert(value@.skip(0) =~= value@);
    }
    loop
        invariant
            pos <= value@.len(),
            spec_has_csv_token(value@, token@) == spec_has_csv_token(
                value@.skip(pos as int),
                token@,
            ),
        decreases value@.len() - pos,
    {
        let mut comma: usize = pos;
        while comma < value.len() && value[comma] != 0x2c
            invariant
                pos <= comma <= value@.len(),
                spec_first_comma(value@.skip(pos as int)) >= comma - pos,
                forall|j: int| pos <= j < comma ==> value@[j] != 0x2c,
            decreases value@.len() - comma,
        {
            proof {
                lemma_first_comma_step(value@, pos as int, comma + 1);
            }
            comma += 1;
        }
        proof {
            lemma_first_comma_exact(value@, pos as int, comma as int);
        }
        let segment = vstd::slice::slice_subrange(value, pos, comma);
        let trimmed = trim_bytes(segment);
        proof {
            let tail = value@.skip(pos as int);
            let k = spec_first_comma(tail);
            assert(tail.take(k as int) =~= value@.subrange(pos as int, comma as int));
        }
        if eq_ignore_case(trimmed, token) {
            return true;
        }
        if comma == value.len() {
            proof {
                let tail = value@.skip(pos as int);
                assert(spec_first_comma(tail) >= tail.len());
            }
            return false;
        }
        proof {
            let tail = value@.skip(pos as int);
            assert(tail.skip(spec_first_comma(tail) + 1 as int) =~= value@.skip(comma + 1));
        }
        pos = comma + 1;
    }
}

/// Stepping over a non-comma byte advances the first-comma position.
proof fn lemma_first_comma_step(s: Seq<u8>, pos: int, upto: int)
    requires
        0 <= pos <= upto <= s.len(),
        forall|j: int| pos <= j < upto ==> s[j] != 0x2c,
    ensures
        spec_first_comma(s.skip(pos)) >= upto - pos,
    decreases upto - pos,
{
    if upto > pos {
        assert(s.skip(pos)[0] == s[pos]);
        lemma_first_comma_step(s, pos + 1, upto);
        assert(s.skip(pos).skip(1) =~= s.skip(pos + 1));
    }
}

/// A comma (or the end) at `comma` pins the first-comma position exactly.
proof fn lemma_first_comma_exact(s: Seq<u8>, pos: int, comma: int)
    requires
        0 <= pos <= comma <= s.len(),
        forall|j: int| pos <= j < comma ==> s[j] != 0x2c,
        comma < s.len() ==> s[comma] == 0x2c,
    ensures
        spec_first_comma(s.skip(pos)) == comma - pos,
    decreases comma - pos,
{
    if comma > pos {
        assert(s.skip(pos)[0] == s[pos]);
        lemma_first_comma_exact(s, pos + 1, comma);
        assert(s.skip(pos).skip(1) =~= s.skip(pos + 1));
    } else {
        let tail = s.skip(pos);
        if pos < s.len() {
            assert(tail[0] == s[pos]);
        } else {
            assert(tail.len() == 0);
        }
    }
}

/// Whether some header matches key and token, as the handshake checks
/// `Connection`, `Upgrade` and version headers.
pub fn has_header_key_and_value(
    headers: &Vec<(Vec<u8>, Vec<u8>)>,
    key: &[u8],
    value: &[u8],
) -> (r: bool)
    ensures
        r == spec_has_header_key_and_value(spec_headers_view(headers@), key@, value@),
{
    let ghost hs = spec_headers_view(headers@);
    let mut i: usize = 0;
    while i < headers.len()
        invariant
            hs == spec_headers_view(headers@),
            i <= headers@.len(),
            forall|j: int|
                0 <= j < i ==> !(spec_eq_ignore_case(spec_trim((#[trigger] hs[j]).0), key@)
                    && spec_has_csv_token(hs[j].1, value@)),
        decreases headers@.len() - i,
    {
        proof {
            assert(hs[i as int] == (headers@[i as int].0@, headers@[i as int].1@));
        }
        let name = trim_bytes(headers[i].0.as_slice());
        if eq_ignore_case(name, key) {
            if has_csv_token(headers[i].1.as_slice(), value) {
                proof {
                    assert(spec_eq_ignore_case(spec_trim((hs[i as int]).0), key@)
                        && spec_has_csv_token(hs[i as int].1, value@));
                }
                return true;
            }
        }
        i += 1;
    }
    false
}

/// Checks the two headers common to requests and responses:
/// `Connection: upgrade` and `Upgrade: websocket`.
pub fn verify_common_header(headers: &Vec<(Vec<u8>, Vec<u8>)>) -> (r: Result<(), Error>)
    ensures
        ({
            let connection = spec_has_header_key_and_value(
                spec_headers_view(headers@),
                "connection"@.map_values(|c: char| c as u8),
                "upgrade"@.map_values(|c: char| c as u8),
            );
            let upgrade = spec_has_header_key_and_value(
                spec_headers_view(headers@),
                "upgrade"@.map_values(|c: char| c as u8),
                "websocket"@.map_values(|c: char| c as u8),
            );
            match r {
                Ok(()) => connection && upgrade,
                Err(e) => (!connection && e == Error::MissingHeader {
                    expected: KnownHeaderName::Connection,
                }) || (connection && !upgrade && e == Error::MissingHeader {
                    expected: KnownHeaderName::Upgrade,
                }),
            }
        }),
{
    proof {
        reveal_strlit("connection");
        reveal_strlit("upgrade");
        reveal_strlit("websocket");
    }
    let connection_key = ascii_bytes("connection");
    let upgrade_value = ascii_bytes("upgrade");
    if !has_header_key_and_value(headers, connection_key.as_slice(), upgrade_value.as_slice()) {
        return Err(Error::MissingHeader { expected: KnownHeaderName::Connection });
    }
    let upgrade_key = ascii_bytes("upgrade");
    let websocket_value = ascii_bytes("websocket");
    if !has_header_key_and_value(headers, upgrade_key.as_slice(), websocket_value.as_slice()) {
        return Err(Error::MissingHeader { expected: KnownHeaderName::Upgrade });
    }
    Ok(())
}

/// The accept value a key derives to: the base64 encoding of the SHA-1
/// digest of the key followed by the GUID of RFC 6455.
pub open spec fn spec_derived_key(key: Seq<u8>) -> Seq<u8> {
    crate::base64::spec_base64_encode(
        crate::sha1::spec_sha1(key + spec_ascii("258EAFA5-E914-47DA-95CA-C5AB0DC85B11")),
    )
}

/// Derives the `Sec-WebSocket-Accept` value of a key: the base64 encoding
/// of the SHA-1 digest of the key followed by the GUID of RFC 6455.
pub fn derived_key(key: &[u8]) -> (r: Vec<u8>)
    requires
        key@.len() + 108 < usize::MAX,
        key@.len() + 36 < 0x2000_0000_0000_0000,
    ensures
        r@ == spec_derived_key(key@),
        r@.len() == 28,
{
    proof {
        reveal_strlit("258EAFA5-E914-47DA-95CA-C5AB0DC85B11");
    }
    let guid = "258EAFA5-E914-47DA-95CA-C5AB0DC85B11";
    let mut buffer = vstd::slice::slice_to_vec(key);
    let mut guid_bytes = ascii_bytes(guid);
    buffer.append(&mut guid_bytes);
    let digest = sha1(buffer.as_slice());
    let r = base64_encode(digest.as_slice());
    proof {
        lemma_b64_len_mod3(digest@);
        assert(r@ == spec_derived_key(key@));
    }
    r
}

/// The length of a base64 encoding, group by group.
proof fn lemma_b64_len_mod3(s: Seq<u8>)
    ensures
        s.len() % 3 == 0 ==> crate::base64::spec_base64_encode(s).len() == s.len() / 3 * 4,
        s.len() % 3 != 0 ==> crate::base64::spec_base64_encode(s).len() == (s.len() / 3 + 1) * 4,
    decreases s.len(),
{
    if s.len() >= 3 {
        lemma_b64_len_mod3(s.skip(3));
    }
}

/// The bytes of an ASCII string literal.
fn ascii_bytes(s: &str) -> (r: Vec<u8>)
    requires
        vstd::string::is_ascii(s),
    ensures
        r@ == s@.map_values(|c: char| c as u8),
{
    let bytes = s.as_bytes();
    let r = vstd::slice::slice_to_vec(bytes);
    proof {
        vstd::string::is_ascii_spec_bytes(s);
        assert(r@ =~= s@.map_values(|c: char| c as u8));
    }
    r
}

/// The bytes of a lower-case ASCII word, for the spec side of contracts.
pub open spec fn spec_ascii(s: &str) -> Seq<u8> {
    s@.map_values(|c: char| c as u8)
}

/// Checks everything an upgrade request must satisfy and hands back the
/// value of its `Sec-WebSocket-Key` header.
///
/// The checks run in the order the protocol prescribes: the method first,
/// then the `Connection` and `Upgrade` headers, then the version, then the
/// key.
pub fn accept_key_of_request(method: &[u8], headers: &Vec<(Vec<u8>, Vec<u8>)>) -> (r: Result<
    Vec<u8>,
    Error,
>)
    ensures
        ({
            let hs = spec_headers_view(headers@);
            let get_ok = spec_eq_ignore_case(spec_trim(method@), spec_ascii("get"));
            let connection = spec_has_header_key_and_value(
                hs,
                spec_ascii("connection"),
                spec_ascii("upgrade"),
            );
            let upgrade = spec_has_header_key_and_value(
                hs,
                spec_ascii("upgrade"),
                spec_ascii("websocket"),
            );
            let version = spec_has_header_key_and_value(
                hs,
                spec_ascii("sec-websocket-version"),
                spec_ascii("13"),
            );
            let key = spec_websocket_key(hs);
            if !get_ok {
                r == Err::<Vec<u8>, Error>(Error::UnexpectedHttpMethod(Method::Get))
            } else if !connection {
                r == Err::<Vec<u8>, Error>(
                    Error::MissingHeader { expected: KnownHeaderName::Connection },
                )
            } else if !upgrade {
                r == Err::<Vec<u8>, Error>(
                    Error::MissingHeader { expected: KnownHeaderName::Upgrade },
                )
            } else if !version {
                r == Err::<Vec<u8>, Error>(
                    Error::MissingHeader { expected: KnownHeaderName::SecWebsocketVersion },
                )
            } else if key is None {
                r == Err::<Vec<u8>, Error>(
                    Error::MissingHeader { expected: KnownHeaderName::SecWebsocketKey },
                )
            } else {
                r matches Ok(k) && k@ == key->0
            }
        }),
{
    proof {
        reveal_strlit("get");
        reveal_strlit("sec-websocket-version");
        reveal_strlit("13");
        reveal_strlit("sec-websocket-key");
    }
    let get_word = ascii_bytes("get");
    if !eq_ignore_case(trim_bytes(method), get_word.as_slice()) {
        return Err(Error::UnexpectedHttpMethod(Method::Get));
    }
    verify_common_header(headers)?;
    let version_key = ascii_bytes("sec-websocket-version");
    let version_value = ascii_bytes("13");
    if !has_header_key_and_value(headers, version_key.as_slice(), version_value.as_slice()) {
        return Err(Error::MissingHeader { expected: KnownHeaderName::SecWebsocketVersion });
    }
    let key_name = ascii_bytes("sec-websocket-key");
    let ghost hs = spec_headers_view(headers@);
    proof {
        assert(hs.skip(0) =~= hs);
    }
    let mut i: usize = 0;
    while i < headers.len()
        invariant
            hs == spec_headers_view(headers@),
            i <= headers@.len(),
            key_name@ == spec_ascii("sec-websocket-key"),
            spec_eq_ignore_case(spec_trim(method@), spec_ascii("get")),
            spec_has_header_key_and_value(hs, spec_ascii("connection"), spec_ascii("upgrade")),
            spec_has_header_key_and_value(hs, spec_ascii("upgrade"), spec_ascii("websocket")),
            spec_has_header_key_and_value(
                hs,
                spec_ascii("sec-websocket-version"),
                spec_ascii("13"),
            ),
            spec_websocket_key(hs) == spec_websocket_key(hs.skip(i as int)),
        decreases headers@.len() - i,
    {
        proof {
            assert(hs[i as int] == (headers@[i as int].0@, headers@[i as int].1@));
            assert(hs.skip(i as int)[0] == hs[i as int]);
        }
        if eq_ignore_case(headers[i].0.as_slice(), key_name.as_slice()) {
            let key = vstd::slice::slice_to_vec(headers[i].1.as_slice());
            proof {
                assert(spec_websocket_key(hs.skip(i as int)) == Some(hs[i as int].1));
            }
            return Ok(key);
        }
        proof {
            assert(hs.skip(i as int).skip(1) =~= hs.skip(i + 1));
        }
        i += 1;
    }
    proof {
        assert(hs.skip(headers@.len() as int).len() == 0);
    }
    Err(Error::MissingHeader { expected: KnownHeaderName::SecWebsocketKey })
}

/// The fixed bytes of the switching-protocols response up to the accept
/// value.
pub open spec fn spec_res_head(swa: Seq<u8>) -> Seq<u8> {
    spec_ascii("HTTP/1.1 101 Switching Protocols\r\nConnection: Upgrade\r\nSec-WebSocket-Accept: ")
        + swa + spec_ascii("\r\nUpgrade: websocket\r\n")
}

/// Builds the server's switching-protocols response: the fixed head, the
/// codec's extension headers, and the final empty line.
pub fn build_res<NC: crate::compression::NegotiatedCompression>(compression: &NC, swa: &[u8]) -> (r:
    Vec<u8>)
    ensures
        spec_res_head(swa@).is_prefix_of(r@),
        exists|ext: Seq<u8>|
            r@ == spec_res_head(swa@) + ext + (#[trigger] seq_crlf_with(ext)),
{
    proof {
        reveal_strlit(
            "HTTP/1.1 101 Switching Protocols\r\nConnection: Upgrade\r\nSec-WebSocket-Accept: ",
        );
        reveal_strlit("\r\nUpgrade: websocket\r\n");
        reveal_strlit("\r\n");
    }
    let mut r = ascii_bytes(
        "HTTP/1.1 101 Switching Protocols\r\nConnection: Upgrade\r\nSec-WebSocket-Accept: ",
    );
    let mut swa_vec = vstd::slice::slice_to_vec(swa);
    r.append(&mut swa_vec);
    let mut tail = ascii_bytes("\r\nUpgrade: websocket\r\n");
    r.append(&mut tail);
    let ghost head = r@;
    compression.write_res_headers(&mut r);
    let ghost ext = r@.skip(head.len() as int);
    let mut crlf = ascii_bytes("\r\n");
    r.append(&mut crlf);
    proof {
        assert(r@ =~= spec_res_head(swa@) + ext + seq_crlf_with(ext));
        assert(spec_res_head(swa@).is_prefix_of(r@)) by {
            assert(r@.subrange(0, spec_res_head(swa@).len() as int) =~= spec_res_head(swa@));
        }
    }
    r
}

/// The final empty line of a handshake message; the unused parameter
/// carries the quantifier trigger in `build_res`'s contract.
pub open spec fn seq_crlf_with(ext: Seq<u8>) -> Seq<u8> {
    seq![0x0du8, 0x0au8]
}

/// The two little-endian words the nonce is built from.
pub open spec fn spec_nonce_bytes(state: u64) -> Seq<u8> {
    spec_u64_le_bytes(crate::rng::spec_xorshift64(state)) + spec_u64_le_bytes(
        crate::rng::spec_xorshift64(crate::rng::spec_xorshift64(state)),
    )
}

/// The eight little-endian bytes of a 64-bit word.
pub open spec fn spec_u64_le_bytes(x: u64) -> Seq<u8> {
    seq![
        (x & 0xff) as u8,
        ((x >> 8) & 0xff) as u8,
        ((x >> 16) & 0xff) as u8,
        ((x >> 24) & 0xff) as u8,
        ((x >> 32) & 0xff) as u8,
        ((x >> 40) & 0xff) as u8,
        ((x >> 48) & 0xff) as u8,
        ((x >> 56) & 0xff) as u8,
    ]
}

/// A 16-byte nonce encoded in base64: the `Sec-WebSocket-Key` header of a
/// client handshake.
pub fn gen_key(rng: &mut crate::rng::Xorshift64) -> (r: Vec<u8>)
    ensures
        r@ == crate::base64::spec_base64_encode(spec_nonce_bytes(old(rng).state())),
        final(rng).state() == crate::rng::spec_xorshift64(
            crate::rng::spec_xorshift64(old(rng).state()),
        ),
        r@.len() == 24,
{
    let a = rng.next_u64();
    let b = rng.next_u64();
    let mut nonce: Vec<u8> = Vec::new();
    push_u64_le(&mut nonce, a);
    push_u64_le(&mut nonce, b);
    let r = base64_encode(nonce.as_slice());
    proof {
        assert(nonce@ =~= spec_nonce_bytes(old(rng).state()));
        lemma_b64_len_mod3(nonce@);
    }
    r
}

/// Appends the eight little-endian bytes of a 64-bit word.
fn push_u64_le(out: &mut Vec<u8>, x: u64)
    ensures
        final(out)@ == old(out)@ + spec_u64_le_bytes(x),
{
    out.push((x & 0xff) as u8);
    out.push(((x >> 8u64) & 0xff) as u8);
    out.push(((x >> 16u64) & 0xff) as u8);
    out.push(((x >> 24u64) & 0xff) as u8);
    out.push(((x >> 32u64) & 0xff) as u8);
    out.push(((x >> 40u64) & 0xff) as u8);
    out.push(((x >> 48u64) & 0xff) as u8);
    out.push(((x >> 56u64) & 0xff) as u8);
    proof {
        assert(final(out)@ =~= old(out)@ + spec_u64_le_bytes(x));
    }
}

/// The parts of a request target, held as plain strings so that the
/// handshake can be stated over them.
#[derive(Debug)]
pub struct Uri {
    /// The scheme, such as `ws` or `wss`.
    pub schema: String,
    /// The host name without the port.
    pub hostname: String,
    /// The port as digits.
    pub port: String,
    /// The path and query sent on the request line.
    pub path: String,
}

/// One header line of the upgrade request.
pub open spec fn spec_header_line(header: (Vec<u8>, Vec<u8>)) -> Seq<u8> {
    header.0@ + spec_ascii(": ") + header.1@ + spec_ascii("\r\n")
}

/// The caller's header lines, in order.
pub open spec fn spec_header_lines(headers: Seq<(Vec<u8>, Vec<u8>)>) -> Seq<u8>
    decreases headers.len(),
{
    if headers.len() == 0 {
        Seq::empty()
    } else {
        spec_header_line(headers[0]) + spec_header_lines(headers.skip(1))
    }
}

/// One more header line extends the lines at their back.
proof fn lemma_header_lines_snoc(headers: Seq<(Vec<u8>, Vec<u8>)>, i: int)
    requires
        0 <= i < headers.len(),
    ensures
        spec_header_lines(headers.take(i + 1)) == spec_header_lines(headers.take(i))
            + spec_header_line(headers[i]),
    decreases i,
{
    if i == 0 {
        assert(headers.take(1)[0] == headers[0]);
        let e = headers.take(1).skip(1);
        assert(e =~= Seq::<(Vec<u8>, Vec<u8>)>::empty());
        assert(spec_header_lines(e) == Seq::<u8>::empty());
        assert(headers.take(0) =~= Seq::<(Vec<u8>, Vec<u8>)>::empty());
        assert(spec_header_lines(headers.take(0)) == Seq::<u8>::empty());
        assert(spec_header_lines(headers.take(1)) =~= spec_header_lines(headers.take(0))
            + spec_header_line(headers[0]));
    } else {
        lemma_header_lines_snoc(headers.skip(1), i - 1);
        assert(headers.take(i + 1)[0] == headers[0]);
        assert(headers.take(i)[0] == headers[0]);
        assert(headers.take(i + 1).skip(1) =~= headers.skip(1).take(i));
        assert(headers.take(i).skip(1) =~= headers.skip(1).take(i - 1));
        assert(headers.skip(1)[i - 1] == headers[i]);
        assert(spec_header_lines(headers.take(i + 1)) =~= spec_header_lines(headers.take(i))
            + spec_header_line(headers[i]));
    }
}

/// Whether the port is the scheme's default, left off the `Host` value.
pub open spec fn spec_is_default_port(schema: Seq<u8>, port: Seq<u8>) -> bool {
    (spec_eq_ignore_case(schema, spec_ascii("http")) || spec_eq_ignore_case(
        schema,
        spec_ascii("ws"),
    )) && spec_eq_ignore_case(port, spec_ascii("80")) || (spec_eq_ignore_case(
        schema,
        spec_ascii("https"),
    ) || spec_eq_ignore_case(schema, spec_ascii("wss"))) && spec_eq_ignore_case(
        port,
        spec_ascii("443"),
    )
}

/// The value of the `Host` header: the host name, with the port appended
/// only when it is neither empty nor the scheme's default.
pub open spec fn spec_host_value(schema: Seq<u8>, hostname: Seq<u8>, port: Seq<u8>) -> Seq<u8> {
    if !spec_is_default_port(schema, port) && port.len() > 0 {
        hostname + spec_ascii(":") + port
    } else {
        hostname
    }
}

/// The bytes of the upgrade request up to the codec's extension headers.
pub open spec fn spec_req_bytes(
    uri: Uri,
    headers: Seq<(Vec<u8>, Vec<u8>)>,
    key: Seq<u8>,
) -> Seq<u8> {
    spec_ascii("GET ") + vstd::utf8::encode_utf8(uri.path@) + spec_ascii(" HTTP/1.1\r\n")
        + spec_header_lines(headers) + spec_ascii("Connection: Upgrade\r\n") + spec_ascii("Host: ")
        + spec_host_value(
        vstd::utf8::encode_utf8(uri.schema@),
        vstd::utf8::encode_utf8(uri.hostname@),
        vstd::utf8::encode_utf8(uri.port@),
    ) + spec_ascii("\r\n") + spec_ascii("Sec-WebSocket-Key: ") + key + spec_ascii("\r\n")
        + spec_ascii("Sec-WebSocket-Version: 13\r\n") + spec_ascii("Upgrade: websocket\r\n")
}

/// Builds the client's upgrade request: the request line, the caller's
/// headers, the mandatory upgrade headers (with the default port left off
/// the `Host` value), the key, the codec's extension headers and the final
/// empty line.
#[verifier::rlimit(100)]
pub fn build_req<NC: crate::compression::NegotiatedCompression>(
    compression: &NC,
    headers: &Vec<(Vec<u8>, Vec<u8>)>,
    key: &[u8],
    uri: &Uri,
) -> (r: Vec<u8>)
    ensures
        exists|ext: Seq<u8>|
            r@ == spec_req_bytes(*uri, headers@, key@) + ext + (#[trigger] seq_crlf_with(ext)),
{
    proof {
        reveal_strlit("GET ");
        reveal_strlit(" HTTP/1.1\r\n");
        reveal_strlit(": ");
        reveal_strlit("\r\n");
        reveal_strlit("Connection: Upgrade\r\n");
        reveal_strlit("Host: ");
        reveal_strlit(":");
        reveal_strlit("Sec-WebSocket-Key: ");
        reveal_strlit("Sec-WebSocket-Version: 13\r\n");
        reveal_strlit("Upgrade: websocket\r\n");
        reveal_strlit("http");
        reveal_strlit("ws");
        reveal_strlit("https");
        reveal_strlit("wss");
        reveal_strlit("80");
        reveal_strlit("443");
    }
    let mut r = ascii_bytes("GET ");
    let mut path = vstd::slice::slice_to_vec(uri.path.as_str().as_bytes());
    r.append(&mut path);
    let mut rest: Vec<u8> = Vec::new();
    append_ascii(&mut rest, " HTTP/1.1\r\n");
    let ghost lines_base = rest@;
    proof {
        assert(headers@.take(0) =~= Seq::<(Vec<u8>, Vec<u8>)>::empty());
        assert(rest@ =~= lines_base + spec_header_lines(headers@.take(0)));
    }
    let mut i: usize = 0;
    while i < headers.len()
        invariant
            i <= headers@.len(),
            rest@ == lines_base + spec_header_lines(headers@.take(i as int)),
        decreases headers@.len() - i,
    {
        proof {
            reveal_strlit(": ");
            reveal_strlit("\r\n");
        }
        let ghost before = rest@;
        let mut name = vstd::slice::slice_to_vec(headers[i].0.as_slice());
        rest.append(&mut name);
        append_ascii(&mut rest, ": ");
        let mut value = vstd::slice::slice_to_vec(headers[i].1.as_slice());
        rest.append(&mut value);
        append_ascii(&mut rest, "\r\n");
        proof {
            assert(rest@ =~= before + spec_header_line(headers@[i as int]));
            lemma_header_lines_snoc(headers@, i as int);
            assert(rest@ =~= lines_base + spec_header_lines(headers@.take(i + 1)));
        }
        i += 1;
    }
    proof {
        assert(headers@.take(headers@.len() as int) =~= headers@);
    }
    append_ascii(&mut rest, "Connection: Upgrade\r\n");
    append_ascii(&mut rest, "Host: ");
    let ghost host_base = rest@;
    let mut hostname = vstd::slice::slice_to_vec(uri.hostname.as_str().as_bytes());
    rest.append(&mut hostname);
    let schema = uri.schema.as_str().as_bytes();
    let port = uri.port.as_str().as_bytes();
    let http_w = ascii_bytes("http");
    let ws_w = ascii_bytes("ws");
    let https_w = ascii_bytes("https");
    let wss_w = ascii_bytes("wss");
    let p80 = ascii_bytes("80");
    let p443 = ascii_bytes("443");
    let default_port = (eq_ignore_case(schema, http_w.as_slice()) || eq_ignore_case(
        schema,
        ws_w.as_slice(),
    )) && eq_ignore_case(port, p80.as_slice()) || (eq_ignore_case(schema, https_w.as_slice())
        || eq_ignore_case(schema, wss_w.as_slice())) && eq_ignore_case(port, p443.as_slice());
    proof {
        assert(default_port == spec_is_default_port(
            vstd::utf8::encode_utf8(uri.schema@),
            vstd::utf8::encode_utf8(uri.port@),
        ));
    }
    if !default_port && port.len() > 0 {
        append_ascii(&mut rest, ":");
        let mut port_vec = vstd::slice::slice_to_vec(port);
        rest.append(&mut port_vec);
    }
    proof {
        assert(rest@ =~= host_base + spec_host_value(
            vstd::utf8::encode_utf8(uri.schema@),
            vstd::utf8::encode_utf8(uri.hostname@),
            vstd::utf8::encode_utf8(uri.port@),
        ));
    }
    append_ascii(&mut rest, "\r\n");
    append_ascii(&mut rest, "Sec-WebSocket-Key: ");
    let mut key_vec = vstd::slice::slice_to_vec(key);
    rest.append(&mut key_vec);
    append_ascii(&mut rest, "\r\n");
    append_ascii(&mut rest, "Sec-WebSocket-Version: 13\r\n");
    append_ascii(&mut rest, "Upgrade: websocket\r\n");
    let ghost head_end = rest@;
    proof {
        assert(head_end =~= spec_ascii(" HTTP/1.1\r\n") + spec_header_lines(headers@)
            + spec_ascii("Connection: Upgrade\r\n") + spec_ascii("Host: ") + spec_host_value(
            vstd::utf8::encode_utf8(uri.schema@),
            vstd::utf8::encode_utf8(uri.hostname@),
            vstd::utf8::encode_utf8(uri.port@),
        ) + spec_ascii("\r\n") + spec_ascii("Sec-WebSocket-Key: ") + key@ + spec_ascii("\r\n")
            + spec_ascii("Sec-WebSocket-Version: 13\r\n") + spec_ascii(
            "Upgrade: websocket\r\n",
        ));
    }
    compression.write_req_headers(&mut rest);
    let ghost ext = rest@.skip(head_end.len() as int);
    proof {
        assert(rest@ =~= head_end + ext);
    }
    append_ascii(&mut rest, "\r\n");
    r.append(&mut rest);
    proof {
        assert(r@ =~= spec_req_bytes(*uri, headers@, key@) + ext + seq_crlf_with(ext));
    }
    r
}

/// A prefix of a sequence stays a prefix of any extension.
proof fn lemma_prefix_extends(p: Seq<u8>, mid: Seq<u8>, ext: Seq<u8>)
    requires
        p.is_prefix_of(mid),
        mid.is_prefix_of(ext),
    ensures
        p.is_prefix_of(ext),
{
    assert forall|i: int| 0 <= i < p.len() implies ext[i] == p[i] by {
        assert(mid.subrange(0, p.len() as int)[i] == ext.subrange(0, mid.len() as int)[i]);
    }
    assert(ext.subrange(0, p.len() as int) =~= p);
}

/// Appends the bytes of an ASCII literal.
fn append_ascii(out: &mut Vec<u8>, s: &str)
    requires
        vstd::string::is_ascii(s),
    ensures
        final(out)@ == old(out)@ + spec_ascii(s),
{
    let mut bytes = ascii_bytes(s);
    out.append(&mut bytes);
}

/// Checks everything a switching-protocols response must satisfy, given
/// the accept value derived from the key the client sent.
pub fn check_response(code: u16, headers: &Vec<(Vec<u8>, Vec<u8>)>, swa: &[u8]) -> (r: Result<
    (),
    Error,
>)
    ensures
        ({
            let connection = spec_has_header_key_and_value(
                spec_headers_view(headers@),
                spec_ascii("connection"),
                spec_ascii("upgrade"),
            );
            let upgrade = spec_has_header_key_and_value(
                spec_headers_view(headers@),
                spec_ascii("upgrade"),
                spec_ascii("websocket"),
            );
            let swa_ok = spec_has_header_key_and_value(
                spec_headers_view(headers@),
                spec_ascii("sec-websocket-accept"),
                swa@,
            );
            match r {
                Ok(()) => code == 101 && connection && upgrade && swa_ok,
                Err(e) => (code != 101 && e == Error::WebSocket(
                    WebSocketError::MissingSwitchingProtocols,
                )) || (code == 101 && !connection && e == Error::MissingHeader {
                    expected: KnownHeaderName::Connection,
                }) || (code == 101 && connection && !upgrade && e == Error::MissingHeader {
                    expected: KnownHeaderName::Upgrade,
                }) || (code == 101 && connection && upgrade && !swa_ok && e == Error::MissingHeader {
                    expected: KnownHeaderName::SecWebsocketKey,
                }),
            }
        }),
{
    if code != 101 {
        return Err(Error::WebSocket(WebSocketError::MissingSwitchingProtocols));
    }
    verify_common_header(headers)?;
    proof {
        reveal_strlit("sec-websocket-accept");
    }
    let accept_key = ascii_bytes("sec-websocket-accept");
    if !has_header_key_and_value(headers, accept_key.as_slice(), swa) {
        return Err(Error::MissingHeader { expected: KnownHeaderName::SecWebsocketKey });
    }
    Ok(())
}

/// What `httparse::Request::parse` makes of a byte sequence with 64
/// header slots and the default configuration: a parse error, a partial
/// request, or the byte offset of the body together with the method bytes
/// and the header list. The parse reads nothing but its input, so the
/// result is a function of the bytes alone.
pub uninterp spec fn spec_parsed_request(bytes: Seq<u8>) -> Result<
    Option<(int, Seq<u8>, Seq<(Seq<u8>, Seq<u8>)>)>,
    (),
>;

/// What `httparse::Response::parse` makes of a byte sequence with 64
/// header slots and the default configuration: a parse error, a partial
/// response, or the byte offset of the body together with the status code
/// and the header list. The parse reads nothing but its input, so the
/// result is a function of the bytes alone.
pub uninterp spec fn spec_parsed_response(bytes: Seq<u8>) -> Result<
    Option<(int, u16, Seq<(Seq<u8>, Seq<u8>)>)>,
    (),
>;

/// Relies on `httparse::Request::parse` with 64 header slots: a complete
/// request reports the byte offset of the body (within the buffer, as its
/// documentation says), and the parsed method and header list are
/// converted to owned plain values. `Ok(None)` stands for a partial
/// request; every parse error is folded into one error value.
#[verifier::external_body]
pub fn parse_request(bytes: &[u8]) -> (r: Result<
    Option<(usize, Vec<u8>, Vec<(Vec<u8>, Vec<u8>)>)>,
    Error,
>)
    ensures
        r is Err <==> spec_parsed_request(bytes@) is Err,
        r is Err ==> (r matches Err(e) && e == Error::HttpParse),
        r matches Ok(None) ==> spec_parsed_request(bytes@) matches Ok(None),
        spec_parsed_request(bytes@) matches Ok(None) ==> r matches Ok(None),
        r matches Ok(Some(t)) ==> (spec_parsed_request(bytes@) matches Ok(Some(p)) && p.0 == t.0
            as int && p.1 == t.1@ && p.2 == spec_headers_view(t.2@) && t.0 <= bytes@.len()),
{
    let mut slots = [httparse::EMPTY_HEADER; 64];
    let mut req = httparse::Request::new(&mut slots);
    match req.parse(bytes) {
        Ok(httparse::Status::Complete(consumed)) => {
            let method = req.method.unwrap_or("").as_bytes().to_vec();
            let headers = req.headers.iter().map(
                |h| (h.name.as_bytes().to_vec(), h.value.to_vec()),
            ).collect();
            Ok(Some((consumed, method, headers)))
        },
        Ok(httparse::Status::Partial) => Ok(None),
        Err(_) => Err(Error::HttpParse),
    }
}

/// Relies on `httparse::Response::parse` with 64 header slots: a complete
/// response reports the byte offset of the body (within the buffer, as its
/// documentation says), and the parsed status code and header list are
/// converted to owned plain values. `Ok(None)` stands for a partial
/// response; every parse error is folded into one error value.
#[verifier::external_body]
pub fn parse_response(bytes: &[u8]) -> (r: Result<
    Option<(usize, u16, Vec<(Vec<u8>, Vec<u8>)>)>,
    Error,
>)
    ensures
        r is Err <==> spec_parsed_response(bytes@) is Err,
        r is Err ==> (r matches Err(e) && e == Error::HttpParse),
        r matches Ok(None) ==> spec_parsed_response(bytes@) matches Ok(None),
        spec_parsed_response(bytes@) matches Ok(None) ==> r matches Ok(None),
        r matches Ok(Some(t)) ==> (spec_parsed_response(bytes@) matches Ok(Some(p)) && p.0 == t.0
            as int && p.1 == t.1 && p.2 == spec_headers_view(t.2@) && t.0 <= bytes@.len()),
{
    let mut slots = [httparse::EMPTY_HEADER; 64];
    let mut res = httparse::Response::new(&mut slots);
    match res.parse(bytes) {
        Ok(httparse::Status::Complete(consumed)) => {
            let code = res.code.unwrap_or(0);
            let headers = res.headers.iter().map(
                |h| (h.name.as_bytes().to_vec(), h.value.to_vec()),
            ).collect();
            Ok(Some((consumed, code, headers)))
        },
        Ok(httparse::Status::Partial) => Ok(None),
        Err(_) => Err(Error::HttpParse),
    }
}

/// One attempt of the server side of the opening handshake over the bytes
/// read so far: asks for more bytes, or checks the request, derives the
/// accept value and builds the response. The consumed count excludes any
/// bytes of frames the client sent after its request; the caller hands
/// those to the reader engine untouched.
pub fn accept<NC: crate::compression::NegotiatedCompression>(
    compression: &NC,
    request: &[u8],
) -> (r: Result<Option<(Vec<u8>, usize)>, Error>)
    ensures
        r matches Ok(Some(t)) ==> t.1 <= request@.len(),
        ({
            let parsed = spec_parsed_request(request@);
            match parsed {
                Err(_) => r == Err::<Option<(Vec<u8>, usize)>, Error>(Error::HttpParse),
                Ok(None) => if request@.len() >= MAX_READ_LEN {
                    r == Err::<Option<(Vec<u8>, usize)>, Error>(Error::UnexpectedEOF)
                } else {
                    r == Ok::<Option<(Vec<u8>, usize)>, Error>(None)
                },
                Ok(Some(req)) => {
                    let hs = req.2;
                    let get_ok = spec_eq_ignore_case(spec_trim(req.1), spec_ascii("get"));
                    let connection = spec_has_header_key_and_value(
                        hs,
                        spec_ascii("connection"),
                        spec_ascii("upgrade"),
                    );
                    let upgrade = spec_has_header_key_and_value(
                        hs,
                        spec_ascii("upgrade"),
                        spec_ascii("websocket"),
                    );
                    let version = spec_has_header_key_and_value(
                        hs,
                        spec_ascii("sec-websocket-version"),
                        spec_ascii("13"),
                    );
                    let key = spec_websocket_key(hs);
                    if !get_ok {
                        r == Err::<Option<(Vec<u8>, usize)>, Error>(
                            Error::UnexpectedHttpMethod(Method::Get),
                        )
                    } else if !connection {
                        r == Err::<Option<(Vec<u8>, usize)>, Error>(
                            Error::MissingHeader { expected: KnownHeaderName::Connection },
                        )
                    } else if !upgrade {
                        r == Err::<Option<(Vec<u8>, usize)>, Error>(
                            Error::MissingHeader { expected: KnownHeaderName::Upgrade },
                        )
                    } else if !version {
                        r == Err::<Option<(Vec<u8>, usize)>, Error>(
                            Error::MissingHeader {
                                expected: KnownHeaderName::SecWebsocketVersion,
                            },
                        )
                    } else if key is None {
                        r == Err::<Option<(Vec<u8>, usize)>, Error>(
                            Error::MissingHeader { expected: KnownHeaderName::SecWebsocketKey },
                        )
                    } else if key->0.len() + 108 >= usize::MAX || key->0.len() + 36
                        >= 0x2000_0000_0000_0000 {
                        r == Err::<Option<(Vec<u8>, usize)>, Error>(Error::UnexpectedBufferState)
                    } else {
                        r matches Ok(Some(t)) && t.1 == req.0 && exists|ext: Seq<u8>|
                            t.0@ == spec_res_head(spec_derived_key(key->0)) + ext + (
                            #[trigger] seq_crlf_with(ext))
                    }
                },
            }
        }),
{
    let parsed = parse_request(request)?;
    let Some((consumed, method, headers)) = parsed else {
        if request.len() >= MAX_READ_LEN {
            return Err(Error::UnexpectedEOF);
        }
        return Ok(None);
    };
    let key = accept_key_of_request(method.as_slice(), &headers)?;
    if key.len() >= usize::MAX - 108 || (key.len() as u64) >= 0x2000_0000_0000_0000u64 - 36 {
        return Err(Error::UnexpectedBufferState);
    }
    let swa = derived_key(key.as_slice());
    let response = build_res(compression, swa.as_slice());
    Ok(Some((response, consumed)))
}

/// One attempt of the client side of the opening handshake over the bytes
/// read so far: asks for more bytes, or checks the response against the
/// accept value expected for the sent key. The consumed count excludes any
/// bytes of frames the server sent after its response.
pub fn connect_reply(key: &[u8], response: &[u8]) -> (r: Result<Option<usize>, Error>)
    requires
        key@.len() + 108 < usize::MAX,
        key@.len() + 36 < 0x2000_0000_0000_0000,
    ensures
        r matches Ok(Some(consumed)) ==> consumed <= response@.len(),
        ({
            let parsed = spec_parsed_response(response@);
            match parsed {
                Err(_) => r == Err::<Option<usize>, Error>(Error::HttpParse),
                Ok(None) => if response@.len() >= MAX_READ_LEN {
                    r == Err::<Option<usize>, Error>(Error::UnexpectedEOF)
                } else {
                    r == Ok::<Option<usize>, Error>(None)
                },
                Ok(Some(res)) => {
                    let hs = res.2;
                    let connection = spec_has_header_key_and_value(
                        hs,
                        spec_ascii("connection"),
                        spec_ascii("upgrade"),
                    );
                    let upgrade = spec_has_header_key_and_value(
                        hs,
                        spec_ascii("upgrade"),
                        spec_ascii("websocket"),
                    );
                    let swa_ok = spec_has_header_key_and_value(
                        hs,
                        spec_ascii("sec-websocket-accept"),
                        spec_derived_key(key@),
                    );
                    if res.1 != 101 {
                        r == Err::<Option<usize>, Error>(
                            Error::WebSocket(WebSocketError::MissingSwitchingProtocols),
                        )
                    } else if !connection {
                        r == Err::<Option<usize>, Error>(
                            Error::MissingHeader { expected: KnownHeaderName::Connection },
                        )
                    } else if !upgrade {
                        r == Err::<Option<usize>, Error>(
                            Error::MissingHeader { expected: KnownHeaderName::Upgrade },
                        )
                    } else if !swa_ok {
                        r == Err::<Option<usize>, Error>(
                            Error::MissingHeader { expected: KnownHeaderName::SecWebsocketKey },
                        )
                    } else {
                        r == Ok::<Option<usize>, Error>(Some(res.0 as usize)) && res.0
                            <= response@.len()
                    }
                },
            }
        }),
{
    let parsed = parse_response(response)?;
    let Some((consumed, code, headers)) = parsed else {
        if response.len() >= MAX_READ_LEN {
            return Err(Error::UnexpectedEOF);
        }
        return Ok(None);
    };
    let swa = derived_key(key);
    check_response(code, &headers, swa.as_slice())?;
    Ok(Some(consumed))
}

/// Marker used to implement the server side of the handshake: bundles the
/// compression context, the generator, the stream and the buffers that an
/// I/O layer drives through [`accept`].
#[derive(Debug)]
pub struct WebSocketAcceptRaw<C, RNG, S, WSB> {
    /// Compression
    pub compression: C,
    /// Random Number Generator
    pub rng: RNG,
    /// Stream
    pub stream: S,
    /// WebSocket Buffer
    pub wsb: WSB,
}

/// Marker used to implement the client side of the handshake: bundles the
/// compression context, the generator, the stream, the target and the
/// buffers that an I/O layer drives through [`build_req`] and
/// [`connect_reply`].
#[derive(Debug)]
pub struct WebSocketConnectRaw<C, RNG, S, WSB> {
    /// Initial compression
    pub compression: C,
    /// Random Number Generator
    pub rng: RNG,
    /// Stream
    pub stream: S,
    /// Uri
    pub uri: Uri,
    /// WebSocket Buffer
    pub wsb: WSB,
}

} // verus!
