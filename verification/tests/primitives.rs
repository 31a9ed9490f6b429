//! The supporting primitives: the inline string, the conversions, the
//! buffers, the codecs and the validators.

use wtx::array_string::{ArrayString, ArrayStringError};
use wtx::base64::base64_encode;
use wtx::error::Error;
use wtx::incremental_utf8::{validate_full, validate_partial, CompletionErr};
use wtx::num::Usize;
use wtx::op_code::{CloseCode, OpCode};
use wtx::partitioned_filled_buffer::PartitionedFilledBuffer;
use wtx::read_frame_info::{encode_header, ReadFrameInfo};
use wtx::sha1::sha1;
use wtx::unmask::unmask;

#[test]
fn array_string_push_and_len() {
    let mut s: ArrayString<16> = ArrayString::new();
    assert_eq!(s.len(), 0);
    assert_eq!(s.capacity(), 16);
    s.push('a').unwrap();
    s.push_str("bc").unwrap();
    s.push('\u{20ac}').unwrap();
    assert_eq!(s.len(), 6);
    assert_eq!(s.as_str(), "abc\u{20ac}");
    assert_eq!(s.remaining_capacity(), 10);
    s.clear();
    assert_eq!(s.len(), 0);
    assert_eq!(s.as_str(), "");
}

#[test]
fn array_string_equality_goes_by_contents() {
    let mut a: ArrayString<8> = ArrayString::new();
    a.push_str("abc").unwrap();
    let mut b: ArrayString<8> = ArrayString::new();
    b.push_str("abcd").unwrap();
    assert!(a != b);
    b.truncate(3);
    assert!(a == b);
    b.clear();
    assert!(a != b);
}

#[test]
fn array_string_overflow_errors() {
    let mut s: ArrayString<3> = ArrayString::new();
    s.push_str("ab").unwrap();
    assert_eq!(s.push_str("cd").unwrap_err(), ArrayStringError::PushStrOverflow);
    assert_eq!(s.push('\u{20ac}').unwrap_err(), ArrayStringError::PushOverflow);
    assert_eq!(s.as_str(), "ab");
}

#[test]
fn array_string_from_parts_validates() {
    let mut data = [0u8; 4];
    data[0] = b'h';
    data[1] = b'i';
    let s: ArrayString<4> = ArrayString::from_parts(data, 2).unwrap();
    assert_eq!(s.as_str(), "hi");
    let mut bad = [0u8; 4];
    bad[0] = 0xff;
    let r: Result<ArrayString<4>, Error> = ArrayString::from_parts(bad, 1);
    assert_eq!(r.unwrap_err(), Error::InvalidUTF8);
    // a length beyond the capacity is clamped
    let s2: ArrayString<4> = ArrayString::from_parts(*b"abcd", 9).unwrap();
    assert_eq!(s2.len(), 4);
}

#[test]
fn array_string_replace() {
    let mut s: ArrayString<8> = ArrayString::new();
    s.push_str("abcdef").unwrap();
    s.replace(2, "XY").unwrap();
    assert_eq!(s.as_str(), "abXYef");
    assert_eq!(
        s.replace(5, "toolong").unwrap_err(),
        ArrayStringError::ReplaceHasOutOfBoundsParams
    );
    // an overwrite that would cut a character in half is rolled back
    let mut t: ArrayString<8> = ArrayString::new();
    t.push_str("a\u{20ac}b").unwrap();
    assert_eq!(t.replace(2, "Z").unwrap_err(), ArrayStringError::BadFormat);
    assert_eq!(t.as_str(), "a\u{20ac}b");
}

#[test]
fn array_string_truncate_is_idempotent() {
    let mut a: ArrayString<16> = ArrayString::new();
    a.push_str("hello world").unwrap();
    a.truncate(5);
    assert_eq!(a.as_str(), "hello");
    a.truncate(5);
    assert_eq!(a.as_str(), "hello");
    // truncating beyond the content changes nothing
    a.truncate(99);
    assert_eq!(a.as_str(), "hello");
    // a cut inside a character moves back to its start
    let mut b: ArrayString<16> = ArrayString::new();
    b.push_str("a\u{20ac}").unwrap();
    b.truncate(2);
    assert_eq!(b.as_str(), "a");
}

#[test]
fn usize_conversions() {
    assert_eq!(Usize::from_u32(77).into_usize(), 77);
    assert_eq!(Usize::from_usize(123).into_u64(), 123);
    assert_eq!(Usize::from_u64(u64::MAX).is_none(), usize::MAX as u64 != u64::MAX);
    assert_eq!(Usize::from_u64(5).unwrap().into_u32(), Some(5));
    let big = Usize::from_usize(usize::MAX);
    assert_eq!(big.into_u32(), None);
}

#[test]
fn unmask_applies_the_key_cyclically() {
    let mut data = *b"abcdefg";
    let key = [1u8, 2, 4, 8];
    unmask(&mut data, key);
    assert_eq!(
        data,
        [b'a' ^ 1, b'b' ^ 2, b'c' ^ 4, b'd' ^ 8, b'e' ^ 1, b'f' ^ 2, b'g' ^ 4]
    );
    unmask(&mut data, key);
    assert_eq!(&data, b"abcdefg");
}

#[test]
fn header_codec_round_trips() {
    let bytes = encode_header(true, false, OpCode::Text, 2, None);
    assert_eq!(bytes, vec![0x81, 0x02]);
    let rfi = ReadFrameInfo::decode(&bytes, true, false, false, 1024).unwrap().unwrap();
    assert!(rfi.fin);
    assert_eq!(rfi.op_code, OpCode::Text);
    assert_eq!(rfi.payload_len, 2);
    assert_eq!(rfi.header_len, 2);
    assert_eq!(rfi.mask, None);

    let masked = encode_header(true, false, OpCode::Binary, 300, Some([9, 8, 7, 6]));
    assert_eq!(&masked[..4], &[0x82, 0x80 | 126, 0x01, 0x2c]);
    let rfi2 = ReadFrameInfo::decode(&masked, false, false, false, 1024).unwrap().unwrap();
    assert_eq!(rfi2.payload_len, 300);
    assert_eq!(rfi2.mask, Some([9, 8, 7, 6]));
    assert_eq!(rfi2.header_len, 8);
}

#[test]
fn header_decode_asks_for_more_bytes() {
    let r = ReadFrameInfo::decode(&[0x81], true, false, false, 1024).unwrap();
    assert!(r.is_none());
    let r2 = ReadFrameInfo::decode(&[0x81, 0x7e, 0x01], true, false, false, 70000).unwrap();
    assert!(r2.is_none());
}

#[test]
fn close_codes() {
    assert!(CloseCode::normal().is_allowed());
    assert!(CloseCode::protocol().is_allowed());
    assert!(CloseCode::from_u16(3500).is_allowed());
    assert!(!CloseCode::from_u16(1005).is_allowed());
    assert!(!CloseCode::from_u16(1006).is_allowed());
    assert!(!CloseCode::from_u16(2999).is_allowed());
    assert_eq!(CloseCode::from_u16(1000).to_u16(), 1000);
}

#[test]
fn partitioned_filled_buffer_indices() {
    let mut pfb = PartitionedFilledBuffer::new();
    pfb.push_following(&[1, 2, 3, 4, 5]).unwrap();
    assert_eq!(pfb.following(), &[1, 2, 3, 4, 5]);
    pfb.set_indices(2, 4, 5).unwrap();
    assert_eq!(pfb.current(), &[3, 4]);
    assert_eq!(pfb.following(), &[5]);
    assert!(pfb.set_indices(4, 2, 5).is_err());
    assert!(pfb.set_indices(0, 3, 99).is_err());
    pfb.set_indices(2, 5, 5).unwrap();
    pfb.clear_if_following_is_empty();
    assert_eq!(pfb.following_end_idx(), 0);
}

#[test]
fn utf8_validators() {
    assert!(validate_full("hé€𐍈".as_bytes()).is_ok());
    assert!(validate_full(&[0xc0, 0xaf]).is_err());
    assert!(validate_full(&[0xed, 0xa0, 0x80]).is_err());
    assert!(validate_full(&[0xe2, 0x82]).is_err());

    assert!(validate_partial(b"plain").unwrap().is_none());
    let pending = validate_partial(&[b'a', 0xe2, 0x82]).unwrap().unwrap();
    let (rslt, consumed) = {
        let mut p = pending;
        let r = p.complete(&[0xac, b'x']);
        r
    };
    assert_eq!(rslt, Ok(()));
    assert_eq!(consumed, 1);
    assert!(validate_partial(&[0xff]).is_err());

    let mut cut = validate_partial(&[0xf0, 0x9f]).unwrap().unwrap();
    let (insufficient, took) = cut.complete(&[0x92]);
    assert_eq!(insufficient, Err(CompletionErr::InsufficientInput));
    assert_eq!(took, 1);
    let (done, took2) = cut.complete(&[0x96]);
    assert_eq!(done, Ok(()));
    assert_eq!(took2, 1);

    let mut bad = validate_partial(&[0xe2]).unwrap().unwrap();
    let (err, _) = bad.complete(&[0x28]);
    assert_eq!(err, Err(CompletionErr::HasInvalidBytes));
}

#[test]
fn base64_vectors() {
    assert_eq!(base64_encode(b""), b"".to_vec());
    assert_eq!(base64_encode(b"f"), b"Zg==".to_vec());
    assert_eq!(base64_encode(b"fo"), b"Zm8=".to_vec());
    assert_eq!(base64_encode(b"foo"), b"Zm9v".to_vec());
    assert_eq!(base64_encode(b"foobar"), b"Zm9vYmFy".to_vec());
}

#[test]
fn sha1_vectors() {
    let empty = sha1(b"");
    assert_eq!(
        empty,
        vec![
            0xda, 0x39, 0xa3, 0xee, 0x5e, 0x6b, 0x4b, 0x0d, 0x32, 0x55, 0xbf, 0xef, 0x95, 0x60,
            0x18, 0x90, 0xaf, 0xd8, 0x07, 0x09,
        ]
    );
    let abc = sha1(b"abc");
    assert_eq!(
        abc,
        vec![
            0xa9, 0x99, 0x3e, 0x36, 0x47, 0x06, 0x81, 0x6a, 0xba, 0x3e, 0x25, 0x71, 0x78, 0x50,
            0xc2, 0x6c, 0x9c, 0xd0, 0xd8, 0x9d,
        ]
    );
}

#[test]
fn from_parts_refuses_a_length_that_cuts_a_character() {
    let mut data = [0u8; 4];
    let euro = "\u{20ac}".as_bytes();
    data[0] = b'a';
    data[1] = euro[0];
    data[2] = euro[1];
    data[3] = euro[2];
    let whole: ArrayString<4> = ArrayString::from_parts(data, 4).unwrap();
    assert_eq!(whole.as_str(), "a\u{20ac}");
    let cut: Result<ArrayString<4>, Error> = ArrayString::from_parts(data, 2);
    assert_eq!(cut.unwrap_err(), Error::InvalidUTF8);
}
