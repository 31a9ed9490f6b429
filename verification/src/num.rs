//! Infallible and checked conversions between `usize` and the fixed-width
//! unsigned integers, for platforms whose pointers are at least 32 bits wide.

use vstd::prelude::*;

verus! {

/// An `usize` that can be infallibly converted from an `u32`, which
/// effectively drops the support for 16-bit hardware.
#[derive(Clone, Copy, Debug)]
pub struct Usize {
    value: usize,
}

impl View for Usize {
    type V = int;

    closed spec fn view(&self) -> int {
        self.value as int
    }
}

impl Usize {
    /// Widens an `u32`; never fails because pointers are at least 32 bits.
    pub fn from_u32(from: u32) -> (r: Self)
        ensures
            r@ == from,
    {
        Usize { value: from as usize }
    }

    /// Narrows an `u64`, refusing values that do not fit in a pointer.
    pub fn from_u64(from: u64) -> (r: Option<Self>)
        ensures
            from <= usize::MAX ==> (r matches Some(v) && v@ == from),
            from > usize::MAX ==> r is None,
    {
        if from <= usize::MAX as u64 {
            Some(Usize { value: from as usize })
        } else {
            None
        }
    }

    /// Wraps an `usize` unchanged.
    pub fn from_usize(from: usize) -> (r: Self)
        ensures
            r@ == from,
    {
        Usize { value: from }
    }

    /// Unwraps back to `usize`.
    pub fn into_usize(self) -> (r: usize)
        ensures
            r == self@,
    {
        self.value
    }

    /// Narrows to an `u32`, refusing values above `u32::MAX`.
    pub fn into_u32(self) -> (r: Option<u32>)
        ensures
            self@ <= u32::MAX ==> (r matches Some(v) && v == self@),
            self@ > u32::MAX ==> r is None,
    {
        if self.value <= u32::MAX as usize {
            Some(self.value as u32)
        } else {
            None
        }
    }

    /// Widens to an `u64`; never fails because pointers are at most 64 bits.
    pub fn into_u64(self) -> (r: u64)
        ensures
            r == self@,
    {
        self.value as u64
    }
}

} // verus!
