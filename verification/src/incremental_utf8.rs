//! Incremental UTF-8 validation: byte streams may be cut at arbitrary
//! points, and a character split across two fragments is remembered and
//! completed when the next fragment arrives.
//!
//! Everything is specified against `vstd::utf8::valid_utf8`. A stream fed
//! fragment by fragment through [`validate_partial`] and
//! [`IncompleteUtf8Char::complete`] is accepted exactly when the
//! concatenation of the fragments is valid UTF-8 and no character is left
//! unfinished.

use vstd::prelude::*;
use vstd::utf8::{
    is_continuation_byte, length_of_first_scalar, valid_first_scalar,
    valid_leading_and_continuation_bytes_first_codepoint, valid_utf8,
};
use crate::error::Error;

verus! {

/// The encoding width announced by a leading byte, or zero for bytes that
/// can never start a character.
///
/// The bytes `0xc0` and `0xc1` (overlong two-byte forms) and `0xf5` to
/// `0xff` (values beyond the Unicode range) are excluded outright.
pub open spec fn spec_utf8_width(b: u8) -> int {
    if b <= 0x7f {
        1
    } else if 0xc2 <= b <= 0xdf {
        2
    } else if 0xe0 <= b <= 0xef {
        3
    } else if 0xf0 <= b <= 0xf4 {
        4
    } else {
        0
    }
}

/// The admissible range of the second byte, given the leading byte: the
/// tightened ranges exclude overlong encodings and surrogates.
pub open spec fn spec_second_byte_ok(b0: u8, b: u8) -> bool {
    if b0 == 0xe0 {
        0xa0 <= b <= 0xbf
    } else if b0 == 0xed {
        0x80 <= b <= 0x9f
    } else if b0 == 0xf0 {
        0x90 <= b <= 0xbf
    } else if b0 == 0xf4 {
        0x80 <= b <= 0x8f
    } else {
        0x80 <= b <= 0xbf
    }
}

/// Whether the byte at position `pos` of a character's encoding is
/// admissible, given the leading byte.
pub open spec fn spec_cont_ok_at(b0: u8, pos: int, b: u8) -> bool {
    if pos == 1 {
        spec_second_byte_ok(b0, b)
    } else {
        is_continuation_byte(b)
    }
}

/// All continuation bytes before position `k` are admissible.
pub open spec fn spec_head_ok_upto(s: Seq<u8>, k: int) -> bool {
    forall|j: int| 1 <= j < k ==> spec_cont_ok_at(s[0], j, #[trigger] s[j])
}

/// The width of the character starting the sequence, or zero when the
/// sequence does not start with a complete, well-formed character.
pub open spec fn spec_head_width(s: Seq<u8>) -> int {
    if s.len() == 0 {
        0
    } else {
        let w = spec_utf8_width(s[0]);
        if w > 0 && s.len() >= w && spec_head_ok_upto(s, w) {
            w
        } else {
            0
        }
    }
}

/// The sequence is a proper, so far well-formed prefix of one character's
/// encoding: more bytes are needed to finish it.
pub open spec fn spec_incomplete_valid(s: Seq<u8>) -> bool {
    &&& s.len() >= 1
    &&& spec_utf8_width(s[0]) > s.len()
    &&& spec_head_ok_upto(s, s.len() as int)
}

/// No extension of the sequence is valid UTF-8.
pub open spec fn spec_utf8_doomed(s: Seq<u8>) -> bool {
    forall|t: Seq<u8>| !valid_utf8(#[trigger] (s + t))
}

/// The range-based head test agrees with the scalar notion of
/// `vstd::utf8` and determines the same width.
pub proof fn lemma_head_width_equiv(s: Seq<u8>)
    requires
        s.len() > 0,
    ensures
        (spec_head_width(s) > 0) <==> valid_first_scalar(s),
        spec_head_width(s) > 0 ==> length_of_first_scalar(s) == spec_head_width(s),
{
    let b0 = s[0];
    let w = spec_utf8_width(b0);
    if b0 <= 0x7f {
        assert((b0 & 0x7f) as u32 <= 0x7f && !(0xd800 <= (b0 & 0x7f) as u32 <= 0xdfff))
            by (bit_vector)
            requires
                b0 <= 0x7f,
        ;
        assert(spec_head_width(s) == 1);
        assert(valid_first_scalar(s));
    } else if b0 <= 0xbf {
        assert(!valid_leading_and_continuation_bytes_first_codepoint(s));
        assert(spec_head_width(s) == 0);
    } else if b0 <= 0xc1 {
        assert(spec_head_width(s) == 0);
        if valid_leading_and_continuation_bytes_first_codepoint(s) {
            let b1 = s[1];
            assert((((b0 & 0x1f) as u32) << 6) | ((b1 & 0x3f) as u32) < 0x80) by (bit_vector)
                requires
                    0xc0 <= b0 <= 0xc1,
            ;
            assert(!valid_first_scalar(s));
        }
    } else if b0 <= 0xdf {
        if s.len() >= 2 && spec_second_byte_ok(b0, s[1]) {
            let b1 = s[1];
            let v = (((b0 & 0x1f) as u32) << 6) | ((b1 & 0x3f) as u32);
            assert(0x80 <= v <= 0x7ff) by (bit_vector)
                requires
                    0xc2 <= b0 <= 0xdf && 0x80 <= b1 <= 0xbf && v == (((b0 & 0x1f) as u32) << 6) | (
                    (b1 & 0x3f) as u32),
            ;
            assert(spec_head_width(s) == 2) by {
                assert(spec_cont_ok_at(b0, 1, s[1]));
            }
            assert(valid_first_scalar(s));
            assert(length_of_first_scalar(s) == 2);
        } else {
            assert(spec_head_width(s) == 0) by {
                if s.len() >= 2 && spec_head_ok_upto(s, 2) {
                    assert(spec_cont_ok_at(b0, 1, s[1]));
                }
            }
            assert(!valid_leading_and_continuation_bytes_first_codepoint(s));
        }
    } else if b0 <= 0xef {
        if s.len() >= 3 && spec_second_byte_ok(b0, s[1]) && is_continuation_byte(s[2]) {
            let b1 = s[1];
            let b2 = s[2];
            let v = (((b0 & 0x0f) as u32) << 12) | (((b1 & 0x3f) as u32) << 6) | ((b2
                & 0x3f) as u32);
            assert(0x800 <= v && !(0xd800 <= v <= 0xdfff)) by (bit_vector)
                requires
                    0xe0 <= b0 <= 0xef && 0x80 <= b1 <= 0xbf && 0x80 <= b2 <= 0xbf && (b0 == 0xe0
                        ==> 0xa0 <= b1) && (b0 == 0xed ==> b1 <= 0x9f) && v == (((b0
                        & 0x0f) as u32) << 12) | (((b1 & 0x3f) as u32) << 6) | ((b2 & 0x3f) as u32),
            ;
            assert(spec_head_width(s) == 3) by {
                assert(spec_cont_ok_at(b0, 1, s[1]));
                assert(spec_cont_ok_at(b0, 2, s[2]));
            }
            assert(valid_first_scalar(s));
            assert(length_of_first_scalar(s) == 3);
        } else {
            assert(spec_head_width(s) == 0) by {
                if s.len() >= 3 && spec_head_ok_upto(s, 3) {
                    assert(spec_cont_ok_at(b0, 1, s[1]));
                    assert(spec_cont_ok_at(b0, 2, s[2]));
                }
            }
            if valid_leading_and_continuation_bytes_first_codepoint(s) {
                let b1 = s[1];
                let b2 = s[2];
                if !spec_second_byte_ok(b0, b1) {
                    let v = (((b0 & 0x0f) as u32) << 12) | (((b1 & 0x3f) as u32) << 6) | ((b2
                        & 0x3f) as u32);
                    assert((b0 == 0xe0 && b1 < 0xa0 ==> v < 0x800) && (b0 == 0xed && b1 > 0x9f
                        ==> 0xd800 <= v <= 0xdfff)) by (bit_vector)
                        requires
                            0xe0 <= b0 <= 0xef && 0x80 <= b1 <= 0xbf && v == (((b0
                                & 0x0f) as u32) << 12) | (((b1 & 0x3f) as u32) << 6) | ((b2
                                & 0x3f) as u32),
                    ;
                    assert(!valid_first_scalar(s));
                } else {
                    assert(!valid_first_scalar(s));
                }
            }
        }
    } else if b0 <= 0xf4 {
        if s.len() >= 4 && spec_second_byte_ok(b0, s[1]) && is_continuation_byte(s[2])
            && is_continuation_byte(s[3]) {
            let b1 = s[1];
            let b2 = s[2];
            let b3 = s[3];
            let v = (((b0 & 0x07) as u32) << 18) | (((b1 & 0x3f) as u32) << 12) | (((b2
                & 0x3f) as u32) << 6) | ((b3 & 0x3f) as u32);
            assert(0x10000 <= v <= 0x10ffff) by (bit_vector)
                requires
                    0xf0 <= b0 <= 0xf4 && 0x80 <= b1 <= 0xbf && 0x80 <= b2 <= 0xbf && 0x80 <= b3
                        <= 0xbf && (b0 == 0xf0 ==> 0x90 <= b1) && (b0 == 0xf4 ==> b1 <= 0x8f) && v
                        == (((b0 & 0x07) as u32) << 18) | (((b1 & 0x3f) as u32) << 12) | (((b2
                        & 0x3f) as u32) << 6) | ((b3 & 0x3f) as u32),
            ;
            assert(spec_head_width(s) == 4) by {
                assert(spec_cont_ok_at(b0, 1, s[1]));
                assert(spec_cont_ok_at(b0, 2, s[2]));
                assert(spec_cont_ok_at(b0, 3, s[3]));
            }
            assert(valid_first_scalar(s));
            assert(length_of_first_scalar(s) == 4);
        } else {
            assert(spec_head_width(s) == 0) by {
                if s.len() >= 4 && spec_head_ok_upto(s, 4) {
                    assert(spec_cont_ok_at(b0, 1, s[1]));
                    assert(spec_cont_ok_at(b0, 2, s[2]));
                    assert(spec_cont_ok_at(b0, 3, s[3]));
                }
            }
            if valid_leading_and_continuation_bytes_first_codepoint(s) {
                let b1 = s[1];
                let b2 = s[2];
                let b3 = s[3];
                if !spec_second_byte_ok(b0, b1) {
                    let v = (((b0 & 0x07) as u32) << 18) | (((b1 & 0x3f) as u32) << 12) | (((b2
                        & 0x3f) as u32) << 6) | ((b3 & 0x3f) as u32);
                    assert((b0 == 0xf0 && b1 < 0x90 ==> v < 0x10000) && (b0 == 0xf4 && b1 > 0x8f
                        ==> v > 0x10ffff)) by (bit_vector)
                        requires
                            0xf0 <= b0 <= 0xf4 && 0x80 <= b1 <= 0xbf && v == (((b0
                                & 0x07) as u32) << 18) | (((b1 & 0x3f) as u32) << 12) | (((b2
                                & 0x3f) as u32) << 6) | ((b3 & 0x3f) as u32),
                    ;
                    assert(!valid_first_scalar(s));
                } else {
                    assert(!valid_first_scalar(s));
                }
            }
        }
    } else if b0 <= 0xf7 {
        assert(spec_head_width(s) == 0);
        if valid_leading_and_continuation_bytes_first_codepoint(s) {
            let b1 = s[1];
            let b2 = s[2];
            let b3 = s[3];
            let v = (((b0 & 0x07) as u32) << 18) | (((b1 & 0x3f) as u32) << 12) | (((b2
                & 0x3f) as u32) << 6) | ((b3 & 0x3f) as u32);
            assert(v > 0x10ffff) by (bit_vector)
                requires
                    0xf5 <= b0 <= 0xf7 && v == (((b0 & 0x07) as u32) << 18) | (((b1
                        & 0x3f) as u32) << 12) | (((b2 & 0x3f) as u32) << 6) | ((b3 & 0x3f) as u32),
            ;
            assert(!valid_first_scalar(s));
        }
    } else {
        assert(!valid_leading_and_continuation_bytes_first_codepoint(s));
        assert(spec_head_width(s) == 0);
    }
}

/// When the bytes from some boundary onward neither form a complete
/// character nor a well-formed prefix of one, no extension of the whole
/// sequence is valid UTF-8.
pub proof fn lemma_doomed_at(s: Seq<u8>, i: int)
    requires
        0 <= i < s.len(),
        valid_utf8(s.subrange(0, i)),
        spec_head_width(s.subrange(i, s.len() as int)) == 0,
        !spec_incomplete_valid(s.subrange(i, s.len() as int)),
    ensures
        spec_utf8_doomed(s),
        !valid_utf8(s),
{
    let h = s.subrange(i, s.len() as int);
    assert forall|t: Seq<u8>| !valid_utf8(#[trigger] (s + t)) by {
        let full = s + t;
        assert(full.subrange(0, i) =~= s.subrange(0, i));
        let ht = full.subrange(i, full.len() as int);
        assert(ht =~= h + t);
        lemma_head_extension_stays_dead(h, t);
        lemma_head_width_equiv(ht);
        assert(!valid_utf8(ht));
        vstd::utf8::partial_valid_partial_invalid_utf8(full, i);
    }
    assert(s + Seq::<u8>::empty() =~= s);
    assert(!valid_utf8(s + Seq::<u8>::empty()));
}

/// A head that is dead (neither complete nor completable) stays dead under
/// any extension.
proof fn lemma_head_extension_stays_dead(h: Seq<u8>, t: Seq<u8>)
    requires
        h.len() > 0,
        spec_head_width(h) == 0,
        !spec_incomplete_valid(h),
    ensures
        spec_head_width(h + t) == 0,
{
    let w = spec_utf8_width(h[0]);
    let ht = h + t;
    assert(ht[0] == h[0]);
    if w > 0 {
        if h.len() >= w {
            assert(!spec_head_ok_upto(h, w));
            let j = choose|j: int| 1 <= j < w && !spec_cont_ok_at(h[0], j, #[trigger] h[j]);
            assert(ht[j] == h[j]);
            assert(!spec_head_ok_upto(ht, w));
        } else {
            assert(!spec_head_ok_upto(h, h.len() as int));
            let j = choose|j: int|
                1 <= j < h.len() && !spec_cont_ok_at(h[0], j, #[trigger] h[j]);
            assert(ht[j] == h[j]);
            assert(!spec_head_ok_upto(ht, w));
        }
    }
}

/// A valid UTF-8 sequence never ends in a well-formed but unfinished
/// character: cutting a valid sequence anywhere but at a character
/// boundary makes it invalid.
pub proof fn lemma_valid_has_no_pending(s: Seq<u8>, i: int)
    requires
        0 <= i <= s.len(),
        valid_utf8(s.subrange(0, i)),
        spec_incomplete_valid(s.subrange(i, s.len() as int)),
    ensures
        !valid_utf8(s),
{
    let u = s.subrange(i, s.len() as int);
    if valid_utf8(s) {
        assert(0xc2 <= u[0]) by {
            assert(spec_utf8_width(u[0]) >= 2);
        }
        assert(!is_continuation_byte(s[i]));
        broadcast use vstd::utf8::is_char_boundary_iff_not_is_continuation_byte;
        broadcast use vstd::utf8::valid_utf8_split;

        assert(vstd::utf8::is_char_boundary(s, i));
        assert(valid_utf8(u));
        lemma_head_width_equiv(u);
        assert(spec_head_width(u) == 0);
        assert(false);
    }
}

/// What inspecting the head of a byte sequence can find.
enum HeadCheck {
    /// A complete character of the given width starts the sequence.
    Scalar(usize),
    /// The sequence is a well-formed prefix of one character, cut short.
    Incomplete,
    /// The sequence can never grow into valid UTF-8.
    Invalid,
}

/// Classifies the bytes of `bytes` from position `i` on.
fn check_head(bytes: &[u8], i: usize) -> (r: HeadCheck)
    requires
        i < bytes@.len(),
    ensures
        ({
            let tail = bytes@.subrange(i as int, bytes@.len() as int);
            match r {
                HeadCheck::Scalar(w) => 1 <= w <= 4 && spec_head_width(tail) == w,
                HeadCheck::Incomplete => spec_incomplete_valid(tail) && spec_head_width(tail)
                    == 0,
                HeadCheck::Invalid => spec_head_width(tail) == 0 && !spec_incomplete_valid(tail),
            }
        }),
{
    let ghost tail = bytes@.subrange(i as int, bytes@.len() as int);
    let b0 = bytes[i];
    let w: usize = if b0 <= 0x7f {
        1
    } else if 0xc2 <= b0 && b0 <= 0xdf {
        2
    } else if 0xe0 <= b0 && b0 <= 0xef {
        3
    } else if 0xf0 <= b0 && b0 <= 0xf4 {
        4
    } else {
        0
    };
    if w == 0 {
        return HeadCheck::Invalid;
    }
    let avail = bytes.len() - i;
    if w >= 2 && avail >= 2 {
        let b1 = bytes[i + 1];
        let ok = if b0 == 0xe0 {
            0xa0 <= b1 && b1 <= 0xbf
        } else if b0 == 0xed {
            0x80 <= b1 && b1 <= 0x9f
        } else if b0 == 0xf0 {
            0x90 <= b1 && b1 <= 0xbf
        } else if b0 == 0xf4 {
            0x80 <= b1 && b1 <= 0x8f
        } else {
            0x80 <= b1 && b1 <= 0xbf
        };
        if !ok {
            proof {
                assert(!spec_cont_ok_at(tail[0], 1, tail[1]));
            }
            return HeadCheck::Invalid;
        }
    }
    if w >= 3 && avail >= 3 {
        let b2 = bytes[i + 2];
        if !(0x80 <= b2 && b2 <= 0xbf) {
            proof {
                assert(!spec_cont_ok_at(tail[0], 2, tail[2]));
            }
            return HeadCheck::Invalid;
        }
    }
    if w == 4 && avail >= 4 {
        let b3 = bytes[i + 3];
        if !(0x80 <= b3 && b3 <= 0xbf) {
            proof {
                assert(!spec_cont_ok_at(tail[0], 3, tail[3]));
            }
            return HeadCheck::Invalid;
        }
    }
    if avail < w {
        proof {
            assert forall|j: int| 1 <= j < tail.len() implies spec_cont_ok_at(
                tail[0],
                j,
                #[trigger] tail[j],
            ) by {}
        }
        HeadCheck::Incomplete
    } else {
        proof {
            assert forall|j: int| 1 <= j < w implies spec_cont_ok_at(
                tail[0],
                j,
                #[trigger] tail[j],
            ) by {}
        }
        HeadCheck::Scalar(w)
    }
}

/// A complete head keeps its width under any extension.
pub proof fn lemma_head_width_extend(s: Seq<u8>, x: Seq<u8>)
    requires
        s.len() > 0,
        spec_head_width(s) > 0,
    ensures
        spec_head_width(s + x) == spec_head_width(s),
{
    let w = spec_head_width(s);
    let sx = s + x;
    assert(sx[0] == s[0]);
    assert forall|j: int| 1 <= j < w implies spec_cont_ok_at(sx[0], j, #[trigger] sx[j]) by {
        assert(sx[j] == s[j]);
        assert(spec_cont_ok_at(s[0], j, s[j]));
    }
    assert(spec_head_ok_upto(sx, w));
}

/// Prepending one complete character to a byte sequence preserves and
/// reflects UTF-8 validity.
pub proof fn lemma_scalar_prepend(s: Seq<u8>, x: Seq<u8>)
    requires
        s.len() > 0,
        spec_head_width(s) == s.len(),
    ensures
        valid_utf8(s + x) <==> valid_utf8(x),
{
    let sx = s + x;
    lemma_head_width_extend(s, x);
    lemma_head_width_equiv(sx);
    lemma_head_width_equiv(s);
    assert(valid_first_scalar(sx));
    assert(length_of_first_scalar(sx) == s.len());
    let pop = vstd::utf8::pop_first_scalar(sx);
    assert(pop =~= x);
}

/// A valid prefix can be cancelled: what follows it in a valid sequence is
/// itself valid UTF-8.
pub proof fn lemma_valid_prefix_cancel(v: Seq<u8>, z: Seq<u8>)
    requires
        valid_utf8(v),
        valid_utf8(v + z),
    ensures
        valid_utf8(z),
    decreases v.len(),
{
    if v.len() == 0 {
        assert(v + z =~= z);
    } else {
        let vz = v + z;
        assert(valid_first_scalar(v));
        lemma_head_width_equiv(v);
        let w = spec_head_width(v);
        lemma_head_width_extend(v, z);
        lemma_head_width_equiv(vz);
        assert(length_of_first_scalar(vz) == w);
        let pv = vstd::utf8::pop_first_scalar(v);
        let pvz = vstd::utf8::pop_first_scalar(vz);
        assert(pvz =~= pv + z);
        assert(valid_utf8(pv + z));
        lemma_valid_prefix_cancel(pv, z);
    }
}

/// Why completing a split character failed.
#[derive(Clone, Copy, Debug, PartialEq, Eq, Structural)]
pub enum CompletionErr {
    /// A byte outside the admissible ranges was found.
    HasInvalidBytes,
    /// The new fragment still does not finish the character.
    InsufficientInput,
}

/// Up to three pending bytes of a character whose encoding was cut at a
/// fragment boundary, waiting for the rest.
#[derive(Clone, Copy, Debug)]
pub struct IncompleteUtf8Char {
    buffer: [u8; 4],
    len: u8,
}

impl View for IncompleteUtf8Char {
    type V = Seq<u8>;

    closed spec fn view(&self) -> Seq<u8> {
        self.buffer@.subrange(0, self.len as int)
    }
}

impl IncompleteUtf8Char {
    /// The count of pending bytes stays within the buffer.
    pub closed spec fn len_inv(&self) -> bool {
        1 <= self.len <= 3
    }

    /// The pending bytes are a well-formed prefix of one character.
    pub open spec fn wf(&self) -> bool {
        &&& self.len_inv()
        &&& 1 <= self@.len() <= 3
        &&& spec_incomplete_valid(self@)
    }

    /// Bytes still missing before the character is complete.
    pub open spec fn spec_needed(&self) -> int {
        spec_utf8_width(self@[0]) - self@.len()
    }

    /// Buffers the pending bytes of a cut character.
    pub fn from_bytes(bytes: &[u8]) -> (r: Self)
        requires
            1 <= bytes@.len() <= 3,
            spec_incomplete_valid(bytes@),
        ensures
            r@ == bytes@,
            r.wf(),
    {
        let mut buffer = [0u8; 4];
        buffer[0] = bytes[0];
        if bytes.len() >= 2 {
            buffer[1] = bytes[1];
        }
        if bytes.len() >= 3 {
            buffer[2] = bytes[2];
        }
        let len = bytes.len() as u8;
        let r = IncompleteUtf8Char { buffer, len };
        proof {
            assert(r@ =~= bytes@);
        }
        r
    }

    /// Feeds the next fragment to the pending character. Consumed bytes are
    /// counted in the second component of the result.
    ///
    /// `Ok` finishes the character; `InsufficientInput` buffers the whole
    /// fragment and keeps waiting; `HasInvalidBytes` reports bytes that no
    /// extension could ever mend.
    pub fn complete(&mut self, more: &[u8]) -> (r: (Result<(), CompletionErr>, usize))
        requires
            old(self).wf(),
        ensures
            ({
                let pending = old(self)@;
                let needed = old(self).spec_needed();
                let w = spec_utf8_width(pending[0]);
                match r.0 {
                    Ok(()) => more@.len() >= needed && r.1 == needed && spec_head_width(
                        pending + more@.subrange(0, needed),
                    ) == w,
                    Err(CompletionErr::InsufficientInput) => more@.len() < needed && r.1
                        == more@.len() && final(self)@ == pending + more@ && final(self).wf(),
                    Err(CompletionErr::HasInvalidBytes) => forall|t: Seq<u8>|
                        spec_head_width(#[trigger] ((pending + more@) + t)) == 0,
                }
            }),
    {
        let ghost pending = self@;
        let b0 = self.buffer[0];
        let w: usize = if b0 <= 0x7f {
            1
        } else if 0xc2 <= b0 && b0 <= 0xdf {
            2
        } else if 0xe0 <= b0 && b0 <= 0xef {
            3
        } else {
            4
        };
        proof {
            assert(pending.len() >= 1);
            assert(pending[0] == self.buffer@.subrange(0, self.len as int)[0]);
            assert(pending[0] == self.buffer@[0]);
            assert(spec_utf8_width(pending[0]) > pending.len() >= 1);
            assert(spec_utf8_width(pending[0]) == w);
        }
        let len = self.len as usize;
        let needed = w - len;
        let take = if more.len() < needed {
            more.len()
        } else {
            needed
        };
        let mut k: usize = 0;
        while k < take
            invariant
                old(self).wf(),
                pending == old(self)@,
                take <= needed,
                b0 == pending[0],
                w == spec_utf8_width(pending[0]),
                len == pending.len(),
                needed == w - len,
                take <= more@.len(),
                k <= take,
                len + take <= 4,
                self.len == len,
                self.buffer@.subrange(0, len as int) == pending,
                self.buffer@.subrange(0, len + k as int) == pending + more@.subrange(0, k as int),
                forall|j: int|
                    len <= j < len + k ==> spec_cont_ok_at(
                        pending[0],
                        j,
                        #[trigger] self.buffer@[j],
                    ),
            decreases take - k,
        {
            let b = more[k];
            let pos = len + k;
            let ok = if pos == 1 {
                if b0 == 0xe0 {
                    0xa0 <= b && b <= 0xbf
                } else if b0 == 0xed {
                    0x80 <= b && b <= 0x9f
                } else if b0 == 0xf0 {
                    0x90 <= b && b <= 0xbf
                } else if b0 == 0xf4 {
                    0x80 <= b && b <= 0x8f
                } else {
                    0x80 <= b && b <= 0xbf
                }
            } else {
                0x80 <= b && b <= 0xbf
            };
            if !ok {
                proof {
                    let bad = pos as int;
                    let combined = pending + more@;
                    assert(combined[0] == pending[0]);
                    assert(combined[bad] == more@[k as int]);
                    assert(!spec_cont_ok_at(combined[0], bad, combined[bad]));
                    assert forall|t: Seq<u8>|
                        spec_head_width(#[trigger] ((pending + more@) + t)) == 0 by {
                        let full = (pending + more@) + t;
                        assert(full[0] == pending[0]);
                        assert(full[bad] == combined[bad]);
                        assert(!spec_head_ok_upto(full, spec_utf8_width(full[0])));
                    }
                }
                return (Err(CompletionErr::HasInvalidBytes), k);
            }
            let ghost prev_buf = self.buffer@;
            self.buffer[pos] = b;
            proof {
                assert(self.buffer@ == prev_buf.update(pos as int, b));
                assert forall|j: int| 0 <= j < len + k + 1 implies self.buffer@[j] == (pending
                    + more@.subrange(0, k + 1))[j] by {
                    if j < len + k {
                        assert(self.buffer@[j] == prev_buf[j]);
                        assert(prev_buf[j] == prev_buf.subrange(0, len + k as int)[j]);
                        assert(prev_buf.subrange(0, len + k as int)[j] == (pending
                            + more@.subrange(0, k as int))[j]);
                        if j < len {
                            assert((pending + more@.subrange(0, k as int))[j] == pending[j]);
                        } else {
                            assert((pending + more@.subrange(0, k as int))[j] == more@[j - len]);
                            assert((pending + more@.subrange(0, k + 1))[j] == more@[j - len]);
                        }
                    } else {
                        assert(self.buffer@[j] == b);
                        assert((pending + more@.subrange(0, k + 1))[j] == more@[k as int]);
                    }
                }
                assert(self.buffer@.subrange(0, len + k + 1) =~= pending + more@.subrange(
                    0,
                    k + 1,
                ));
                assert(self.buffer@.subrange(0, len as int) =~= pending);
            }
            k += 1;
        }
        if take < needed {
            self.len = (len + take) as u8;
            proof {
                let combined = pending + more@;
                assert(self@ =~= combined);
                assert(spec_incomplete_valid(self@)) by {
                    assert(combined[0] == pending[0]);
                    assert forall|j: int| 1 <= j < combined.len() implies spec_cont_ok_at(
                        combined[0],
                        j,
                        #[trigger] combined[j],
                    ) by {
                        if j < len {
                            assert(combined[j] == pending[j]);
                        } else {
                            assert(combined[j] == self.buffer@[j]);
                        }
                    }
                }
            }
            (Err(CompletionErr::InsufficientInput), take)
        } else {
            proof {
                let chunk = pending + more@.subrange(0, needed as int);
                assert(chunk == self.buffer@.subrange(0, len + take as int));
                assert(chunk[0] == pending[0]);
                assert(spec_head_width(chunk) == w) by {
                    assert forall|j: int| 1 <= j < w implies spec_cont_ok_at(
                        chunk[0],
                        j,
                        #[trigger] chunk[j],
                    ) by {
                        if j < len {
                            assert(chunk[j] == pending[j]);
                        } else {
                            assert(chunk[j] == self.buffer@[j]);
                        }
                    }
                }
            }
            (Ok(()), take)
        }
    }
}

/// Checks a whole byte sequence: `Ok` exactly when it is valid UTF-8.
pub fn validate_full(bytes: &[u8]) -> (r: Result<(), Error>)
    ensures
        r is Ok <==> valid_utf8(bytes@),
        r is Err ==> r == Err::<(), Error>(Error::InvalidUTF8),
{
    let mut i: usize = 0;
    while i < bytes.len()
        invariant
            i <= bytes@.len(),
            valid_utf8(bytes@.subrange(0, i as int)),
        decreases bytes@.len() - i,
    {
        match check_head(bytes, i) {
            HeadCheck::Scalar(w) => {
                proof {
                    let tail = bytes@.subrange(i as int, bytes@.len() as int);
                    lemma_head_width_equiv(tail);
                    broadcast use vstd::utf8::partial_valid_utf8_extend;

                    assert(vstd::utf8::partial_valid_utf8(bytes@, i as int));
                    assert(vstd::utf8::partial_valid_utf8(
                        bytes@,
                        i + length_of_first_scalar(tail),
                    ));
                }
                i += w;
            },
            HeadCheck::Incomplete => {
                proof {
                    let tail = bytes@.subrange(i as int, bytes@.len() as int);
                    lemma_valid_has_no_pending(bytes@, i as int);
                }
                return Err(Error::InvalidUTF8);
            },
            HeadCheck::Invalid => {
                proof {
                    lemma_doomed_at(bytes@, i as int);
                }
                return Err(Error::InvalidUTF8);
            },
        }
    }
    proof {
        assert(bytes@.subrange(0, bytes@.len() as int) =~= bytes@);
    }
    Ok(())
}

/// Checks the leading fragment of a text stream: `Ok(None)` exactly when
/// the bytes are valid UTF-8 on their own, `Ok(Some(_))` when a final
/// character was cut and its pending bytes must wait for the next
/// fragment, and an error when no continuation could mend the bytes.
pub fn validate_partial(bytes: &[u8]) -> (r: Result<Option<IncompleteUtf8Char>, Error>)
    ensures
        (r matches Ok(None)) <==> valid_utf8(bytes@),
        r matches Ok(Some(iuc)) ==> ({
            let cut = bytes@.len() - iuc@.len();
            &&& iuc.wf()
            &&& 1 <= iuc@.len() <= 3
            &&& iuc@.len() <= bytes@.len()
            &&& iuc@ == bytes@.subrange(cut, bytes@.len() as int)
            &&& valid_utf8(bytes@.subrange(0, cut))
            &&& !valid_utf8(bytes@)
        }),
        r is Err ==> (r == Err::<Option<IncompleteUtf8Char>, Error>(Error::InvalidUTF8)
            && spec_utf8_doomed(bytes@) && !valid_utf8(bytes@)),
{
    let mut i: usize = 0;
    while i < bytes.len()
        invariant
            i <= bytes@.len(),
            valid_utf8(bytes@.subrange(0, i as int)),
        decreases bytes@.len() - i,
    {
        match check_head(bytes, i) {
            HeadCheck::Scalar(w) => {
                proof {
                    let tail = bytes@.subrange(i as int, bytes@.len() as int);
                    lemma_head_width_equiv(tail);
                    broadcast use vstd::utf8::partial_valid_utf8_extend;

                    assert(vstd::utf8::partial_valid_utf8(bytes@, i as int));
                    assert(vstd::utf8::partial_valid_utf8(
                        bytes@,
                        i + length_of_first_scalar(tail),
                    ));
                }
                i += w;
            },
            HeadCheck::Incomplete => {
                let tail = vstd::slice::slice_subrange(bytes, i, bytes.len());
                let iuc = IncompleteUtf8Char::from_bytes(tail);
                proof {
                    lemma_valid_has_no_pending(bytes@, i as int);
                }
                return Ok(Some(iuc));
            },
            HeadCheck::Invalid => {
                proof {
                    lemma_doomed_at(bytes@, i as int);
                }
                return Err(Error::InvalidUTF8);
            },
        }
    }
    proof {
        assert(bytes@.subrange(0, bytes@.len() as int) =~= bytes@);
    }
    Ok(None)
}

} // verus!
