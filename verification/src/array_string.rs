//! A fixed-capacity inline string: a byte array of which a prefix is
//! filled, with the invariant that the filled prefix is valid UTF-8.

use vstd::prelude::*;
use vstd::string::StringSliceAdditionalSpecFns;
use vstd::utf8::{encode_scalar, is_continuation_byte, valid_utf8};
use crate::error::Error;
use crate::incremental_utf8::validate_full;

verus! {

broadcast use vstd::utf8::encode_utf8_valid_utf8;

/// Errors of [`ArrayString`].
#[derive(Clone, Copy, Debug, PartialEq, Eq, Structural)]
pub enum ArrayStringError {
    /// The replacement range does not fit in the filled prefix.
    ReplaceHasOutOfBoundsParams,
    /// The written bytes would not leave the string valid UTF-8.
    BadFormat,
    /// No room for one more character.
    PushOverflow,
    /// No room for the pushed string.
    PushStrOverflow,
}

/// A UTF-8 string stored inline in an array of `N` bytes.
#[derive(Clone, Copy, Debug)]
pub struct ArrayString<const N: usize> {
    len: u32,
    data: [u8; N],
}

impl<const N: usize> View for ArrayString<N> {
    type V = Seq<u8>;

    closed spec fn view(&self) -> Seq<u8> {
        self.data@.subrange(
            0,
            if self.len as int <= N as int {
                self.len as int
            } else {
                N as int
            },
        )
    }
}

impl<const N: usize> ArrayString<N> {
    /// The filled length never exceeds the capacity, and the capacity fits
    /// in an `u32`.
    pub closed spec fn len_inv(&self) -> bool {
        self.len as int <= N as int && N as int <= u32::MAX as int
    }

    /// The filled prefix is valid UTF-8 and within capacity.
    pub open spec fn wf(&self) -> bool {
        &&& self.len_inv()
        &&& self@.len() <= N as int
        &&& valid_utf8(self@)
    }

    /// Constructs a new, empty instance.
    pub fn new() -> (r: Self)
        requires
            N <= 0xffff_ffff,
        ensures
            r.wf(),
            r@ == Seq::<u8>::empty(),
    {
        let r = ArrayString { len: 0, data: [0; N] };
        proof {
            assert(r@ =~= Seq::<u8>::empty());
        }
        r
    }

    /// Builds an instance from an already filled array, keeping the first
    /// `len` bytes (clamped to the capacity), which must be valid UTF-8.
    pub fn from_parts(data: [u8; N], len: u32) -> (r: Result<Self, Error>)
        requires
            N <= 0xffff_ffff,
        ensures
            ({
                let m = if len as int <= N as int {
                    len as int
                } else {
                    N as int
                };
                match r {
                    Ok(s) => s.wf() && s@ == data@.subrange(0, m),
                    Err(e) => e == Error::InvalidUTF8 && !valid_utf8(data@.subrange(0, m)),
                }
            }),
    {
        let n = N as u32;
        let clamped = if len > n {
            n
        } else {
            len
        };
        let prefix = vstd::slice::slice_subrange(data.as_slice(), 0, clamped as usize);
        match validate_full(prefix) {
            Ok(()) => Ok(ArrayString { len: clamped, data }),
            Err(_) => Err(Error::InvalidUTF8),
        }
    }

    /// The filled prefix as a string slice.
    ///
    /// Relies on `core::str::from_utf8` for the reinterpretation; the
    /// well-formedness invariant guarantees that it accepts.
    pub fn as_str(&self) -> (r: &str)
        requires
            self.wf(),
        ensures
            r.spec_bytes() == self@,
    {
        let prefix = vstd::slice::slice_subrange(self.data.as_slice(), 0, self.len as usize);
        str_from_utf8(prefix)
    }

    /// The number of bytes that can be stored.
    pub fn capacity(&self) -> (r: u32)
        requires
            self.wf(),
        ensures
            r == N,
    {
        N as u32
    }

    /// Removes every byte.
    pub fn clear(&mut self)
        requires
            old(self).wf(),
        ensures
            final(self).wf(),
            final(self)@ == Seq::<u8>::empty(),
    {
        self.len = 0;
        proof {
            assert(self@ =~= Seq::<u8>::empty());
        }
    }

    /// Number of filled bytes.
    pub fn len(&self) -> (r: u32)
        requires
            self.wf(),
        ensures
            r == self@.len(),
    {
        self.len
    }

    /// How many bytes can still be added.
    pub fn remaining_capacity(&self) -> (r: u32)
        requires
            self.wf(),
        ensures
            r == N - self@.len(),
    {
        N as u32 - self.len
    }

    /// Appends the UTF-8 encoding of one character.
    pub fn push(&mut self, ch: char) -> (r: Result<(), ArrayStringError>)
        requires
            old(self).wf(),
        ensures
            final(self).wf(),
            r is Ok ==> final(self)@ == old(self)@ + encode_scalar(ch as u32),
            r is Err ==> (r == Err::<(), ArrayStringError>(ArrayStringError::PushOverflow)
                && final(self)@ == old(self)@ && old(self)@.len() + encode_scalar(
                ch as u32,
            ).len() > N),
    {
        let mut encoded: [u8; 4] = [0; 4];
        let width = encode_char(&mut encoded, ch);
        let bytes = vstd::slice::slice_subrange(encoded.as_slice(), 0, width);
        proof {
            let chars = seq![ch];
            reveal_with_fuel(vstd::utf8::encode_utf8, 2);
            assert(chars.drop_first() =~= Seq::<char>::empty());
            assert(vstd::utf8::encode_utf8(chars) =~= encode_scalar(ch as u32));
            assert(valid_utf8(vstd::utf8::encode_utf8(chars)));
        }
        self.push_bytes(ArrayStringError::PushOverflow, bytes)
    }

    /// Appends every byte of a string slice.
    pub fn push_str(&mut self, str: &str) -> (r: Result<(), ArrayStringError>)
        requires
            old(self).wf(),
        ensures
            final(self).wf(),
            r is Ok ==> final(self)@ == old(self)@ + str.spec_bytes(),
            r is Err ==> (r == Err::<(), ArrayStringError>(ArrayStringError::PushStrOverflow)
                && final(self)@ == old(self)@ && old(self)@.len() + str.spec_bytes().len() > N),
    {
        let bytes = str.as_bytes();
        self.push_bytes(ArrayStringError::PushStrOverflow, bytes)
    }

    /// Overwrites the bytes at `start..start + str.len()`, failing when the
    /// range leaves the filled prefix or when the overwrite would break the
    /// UTF-8 well-formedness of the content.
    pub fn replace(&mut self, start: usize, str: &str) -> (r: Result<(), ArrayStringError>)
        requires
            old(self).wf(),
        ensures
            final(self).wf(),
            ({
                let end = start + str.spec_bytes().len();
                match r {
                    Ok(()) => end <= old(self)@.len() && final(self)@ == old(self)@.subrange(
                        0,
                        start as int,
                    ) + str.spec_bytes() + old(self)@.subrange(end, old(self)@.len() as int),
                    Err(ArrayStringError::ReplaceHasOutOfBoundsParams) => end > old(self)@.len()
                        && final(self)@ == old(self)@,
                    Err(_) => r == Err::<(), ArrayStringError>(ArrayStringError::BadFormat)
                        && final(self)@ == old(self)@,
                }
            }),
    {
        let ghost prev = self@;
        let bytes = str.as_bytes();
        let Some(end) = start.checked_add(bytes.len()) else {
            return Err(ArrayStringError::ReplaceHasOutOfBoundsParams);
        };
        if end > self.len as usize {
            return Err(ArrayStringError::ReplaceHasOutOfBoundsParams);
        }
        let ghost candidate = prev.subrange(0, start as int) + str.spec_bytes() + prev.subrange(
            end as int,
            prev.len() as int,
        );
        let mut saved: Vec<u8> = Vec::new();
        let mut i: usize = 0;
        while i < bytes.len()
            invariant
                old(self).wf(),
                prev == old(self)@,
                start + bytes@.len() == end <= prev.len() <= N,
                self.len == old(self).len,
                i <= bytes@.len(),
                saved@ == prev.subrange(start as int, start + i as int),
                self.data@.len() == N,
                self@.len() == prev.len(),
                forall|j: int| 0 <= j < start ==> self@[j] == prev[j],
                forall|j: int| 0 <= j < i ==> self@[start + j] == bytes@[j],
                forall|j: int| start + i <= j < prev.len() ==> self@[j] == prev[j],
            decreases bytes@.len() - i,
        {
            saved.push(self.data[start + i]);
            proof {
                assert(saved@ =~= prev.subrange(start as int, start + i + 1));
            }
            self.data[start + i] = bytes[i];
            i += 1;
        }
        proof {
            assert(self@ =~= candidate);
        }
        let prefix = vstd::slice::slice_subrange(self.data.as_slice(), 0, self.len as usize);
        match validate_full(prefix) {
            Ok(()) => Ok(()),
            Err(_) => {
                let mut j: usize = 0;
                while j < saved.len()
                    invariant
                        old(self).wf(),
                        prev == old(self)@,
                        start + saved@.len() == end <= prev.len() <= N,
                        self.len == old(self).len,
                        j <= saved@.len(),
                        saved@ == prev.subrange(start as int, end as int),
                        self.data@.len() == N,
                        self@.len() == prev.len(),
                        forall|j2: int| 0 <= j2 < start + j ==> self@[j2] == prev[j2],
                        forall|j2: int| end <= j2 < prev.len() ==> self@[j2] == prev[j2],
                    decreases saved@.len() - j,
                {
                    self.data[start + j] = saved[j];
                    j += 1;
                }
                proof {
                    assert(self@ =~= prev);
                }
                Err(ArrayStringError::BadFormat)
            },
        }
    }

    /// Shortens the string to at most `len` bytes, never cutting a
    /// character in half: a cut that would fall inside one character is
    /// moved back to the character's start.
    pub fn truncate(&mut self, len: u32)
        requires
            old(self).wf(),
        ensures
            final(self).wf(),
            final(self)@ == old(self)@.subrange(0, spec_truncated_len(old(self)@, len as int)),
            len >= old(self)@.len() ==> final(self)@ == old(self)@,
    {
        let ghost prev = self@;
        if len >= self.len {
            proof {
                assert(prev.subrange(0, spec_truncated_len(prev, len as int)) =~= prev);
            }
            return ;
        }
        let mut cut = len;
        while cut > 0 && is_cont_byte(self.data[cut as usize])
            invariant
                old(self).wf(),
                *self == *old(self),
                prev == self@,
                cut <= len < self.len,
                spec_truncated_len(prev, len as int) == spec_truncated_len(prev, cut as int),
            decreases cut,
        {
            proof {
                assert(prev[cut as int] == self.data@[cut as int]);
            }
            cut -= 1;
        }
        proof {
            assert(prev[cut as int] == self.data@[cut as int]);
            assert(spec_truncated_len(prev, cut as int) == cut as int);
            broadcast use vstd::utf8::is_char_boundary_iff_not_is_continuation_byte;
            broadcast use vstd::utf8::valid_utf8_split;

            if cut > 0 {
                assert(vstd::utf8::is_char_boundary(prev, cut as int));
            } else {
                vstd::utf8::is_char_boundary_start_end_of_seq(prev);
            }
            assert(valid_utf8(prev.subrange(0, cut as int)));
        }
        self.len = cut;
        proof {
            assert(self@ =~= prev.subrange(0, cut as int));
        }
    }

    /// Appends raw bytes that are themselves valid UTF-8.
    fn push_bytes(&mut self, error: ArrayStringError, other: &[u8]) -> (r: Result<
        (),
        ArrayStringError,
    >)
        requires
            old(self).wf(),
            valid_utf8(other@),
        ensures
            final(self).wf(),
            r is Ok ==> final(self)@ == old(self)@ + other@,
            r is Err ==> (r == Err::<(), ArrayStringError>(error) && final(self)@ == old(self)@
                && old(self)@.len() + other@.len() > N),
    {
        let ghost prev = self@;
        if other.len() > N - self.len as usize {
            return Err(error);
        }
        let begin = self.len as usize;
        let mut i: usize = 0;
        while i < other.len()
            invariant
                old(self).wf(),
                prev == old(self)@,
                begin == old(self).len,
                begin + other@.len() <= N,
                self.len == old(self).len,
                i <= other@.len(),
                self.data@.len() == N,
                forall|j: int| 0 <= j < begin ==> self.data@[j] == old(self).data@[j],
                forall|j: int| 0 <= j < i ==> self.data@[begin + j] == other@[j],
            decreases other@.len() - i,
        {
            self.data[begin + i] = other[i];
            i += 1;
        }
        self.len = self.len + other.len() as u32;
        proof {
            assert(self@ =~= prev + other@);
            vstd::utf8::valid_utf8_concat(prev, other@);
        }
        Ok(())
    }
}

/// The length the filled prefix keeps when cut at `len`: the cut moves
/// back to the start of the character it would split.
pub open spec fn spec_truncated_len(s: Seq<u8>, len: int) -> int
    decreases len,
{
    if len >= s.len() {
        s.len() as int
    } else if len <= 0 {
        0
    } else if is_continuation_byte(s[len]) {
        spec_truncated_len(s, len - 1)
    } else {
        len
    }
}

/// Law: truncating twice to one length equals truncating once.
pub proof fn lemma_truncate_idempotent(s: Seq<u8>, len: int)
    ensures
        ({
            let once = s.subrange(0, spec_truncated_len(s, len));
            once.subrange(0, spec_truncated_len(once, len)) == once
        }),
{
    let c = spec_truncated_len(s, len);
    lemma_truncated_len_bounds(s, len);
    let once = s.subrange(0, c);
    assert(spec_truncated_len(once, len) == once.len());
    assert(once.subrange(0, once.len() as int) =~= once);
}

proof fn lemma_truncated_len_bounds(s: Seq<u8>, len: int)
    ensures
        0 <= spec_truncated_len(s, len),
        spec_truncated_len(s, len) <= s.len(),
        len >= 0 ==> spec_truncated_len(s, len) <= len,
    decreases len,
{
    if len >= s.len() || len <= 0 {
    } else if is_continuation_byte(s[len]) {
        lemma_truncated_len_bounds(s, len - 1);
    }
}

/// Writes the UTF-8 encoding of `ch` into the start of `out`, returning
/// its width.
fn encode_char(out: &mut [u8; 4], ch: char) -> (w: usize)
    ensures
        1 <= w <= 4,
        final(out)@.subrange(0, w as int) == encode_scalar(ch as u32),
{
    proof {
        vstd::utf8::char_is_scalar(ch);
    }
    let c = ch as u32;
    if c <= 0x7f {
        out[0] = c as u8;
        proof {
            assert((c & 0x7f) as u8 == c as u8) by (bit_vector)
                requires
                    c <= 0x7f,
            ;
            assert(final(out)@.subrange(0, 1) =~= encode_scalar(ch as u32));
        }
        1
    } else if c <= 0x7ff {
        out[0] = 0xc0 | ((c >> 6u32) & 0x1f) as u8;
        out[1] = 0x80 | (c & 0x3f) as u8;
        proof {
            assert(final(out)@.subrange(0, 2) =~= encode_scalar(ch as u32));
        }
        2
    } else if c <= 0xffff {
        out[0] = 0xe0 | ((c >> 12u32) & 0x0f) as u8;
        out[1] = 0x80 | ((c >> 6u32) & 0x3f) as u8;
        out[2] = 0x80 | (c & 0x3f) as u8;
        proof {
            assert(final(out)@.subrange(0, 3) =~= encode_scalar(ch as u32));
        }
        3
    } else {
        out[0] = 0xf0 | ((c >> 18u32) & 0x07) as u8;
        out[1] = 0x80 | ((c >> 12u32) & 0x3f) as u8;
        out[2] = 0x80 | ((c >> 6u32) & 0x3f) as u8;
        out[3] = 0x80 | (c & 0x3f) as u8;
        proof {
            assert(final(out)@.subrange(0, 4) =~= encode_scalar(ch as u32));
        }
        4
    }
}

impl<const N: usize> PartialEq for ArrayString<N> {
    /// Equality goes by string contents: only the filled prefixes are
    /// compared.
    fn eq(&self, other: &Self) -> (r: bool) {
        let a_len = if self.len as usize <= N {
            self.len as usize
        } else {
            N
        };
        let b_len = if other.len as usize <= N {
            other.len as usize
        } else {
            N
        };
        if a_len != b_len {
            return false;
        }
        let mut i: usize = 0;
        while i < a_len
            invariant
                a_len == self@.len() && a_len == other@.len(),
                a_len <= N,
                i <= a_len,
                self.data@.len() == N && other.data@.len() == N,
                forall|j: int| 0 <= j < a_len ==> self@[j] == self.data@[j],
                forall|j: int| 0 <= j < a_len ==> other@[j] == other.data@[j],
                forall|j: int| 0 <= j < i ==> self@[j] == other@[j],
            decreases a_len - i,
        {
            if self.data[i] != other.data[i] {
                proof {
                    assert(self@[i as int] != other@[i as int]);
                }
                return false;
            }
            i += 1;
        }
        proof {
            assert(self@ =~= other@);
        }
        true
    }
}

impl<const N: usize> vstd::std_specs::cmp::PartialEqSpecImpl for ArrayString<N> {
    open spec fn obeys_eq_spec() -> bool {
        true
    }

    open spec fn eq_spec(&self, other: &Self) -> bool {
        self@ == other@
    }
}

/// Whether the byte has the form `10xxxxxx` of a UTF-8 continuation byte.
fn is_cont_byte(b: u8) -> (r: bool)
    ensures
        r == is_continuation_byte(b),
{
    0x80 <= b && b <= 0xbf
}

/// Relies on `core::str::from_utf8`: it accepts exactly the valid UTF-8
/// byte sequences and returns a string slice over the same bytes.
#[verifier::external_body]
fn str_from_utf8(bytes: &[u8]) -> (r: &str)
    requires
        valid_utf8(bytes@),
    ensures
        r.spec_bytes() == bytes@,
{
    core::str::from_utf8(bytes).unwrap_or("")
}

} // verus!
