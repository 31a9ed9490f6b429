//! A single contiguous byte region split by three indices into an antecedent
//! part `[0..a)` (already consumed), a current part `[a..b)` (the payload
//! that was last surfaced) and a following part `[b..c)` (bytes read past
//! the current frame, belonging to subsequent frames).

use vstd::prelude::*;
use crate::error::Error;

verus! {

/// The three-region network read buffer.
///
/// The partition never moves bytes: all operations only shift the indices
/// or append freshly read bytes after the following part.
pub struct PartitionedFilledBuffer {
    antecedent_end_idx: usize,
    current_end_idx: usize,
    following_end_idx: usize,
    data: Vec<u8>,
}

impl PartitionedFilledBuffer {
    /// End of the antecedent part.
    pub closed spec fn a(&self) -> int {
        self.antecedent_end_idx as int
    }

    /// End of the current part.
    pub closed spec fn b(&self) -> int {
        self.current_end_idx as int
    }

    /// End of the following part.
    pub closed spec fn c(&self) -> int {
        self.following_end_idx as int
    }

    /// Every byte the buffer holds, filled or spare.
    pub closed spec fn bytes(&self) -> Seq<u8> {
        self.data@
    }

    /// Total capacity.
    pub open spec fn cap(&self) -> int {
        self.bytes().len() as int
    }

    /// The indices are ordered and within capacity.
    pub open spec fn wf(&self) -> bool {
        0 <= self.a() <= self.b() <= self.c() <= self.cap()
    }

    /// The current part `[a..b)`.
    pub open spec fn current_view(&self) -> Seq<u8> {
        self.bytes().subrange(self.a(), self.b())
    }

    /// The following part `[b..c)`.
    pub open spec fn following_view(&self) -> Seq<u8> {
        self.bytes().subrange(self.b(), self.c())
    }

    /// An empty buffer with all indices at zero.
    pub fn new() -> (r: Self)
        ensures
            r.wf(),
            r.a() == 0 && r.b() == 0 && r.c() == 0,
            r.cap() == 0,
    {
        PartitionedFilledBuffer {
            antecedent_end_idx: 0,
            current_end_idx: 0,
            following_end_idx: 0,
            data: Vec::new(),
        }
    }

    /// End of the antecedent part.
    pub fn antecedent_end_idx(&self) -> (r: usize)
        ensures
            r == self.a(),
    {
        self.antecedent_end_idx
    }

    /// End of the current part.
    pub fn current_end_idx(&self) -> (r: usize)
        ensures
            r == self.b(),
    {
        self.current_end_idx
    }

    /// End of the following part.
    pub fn following_end_idx(&self) -> (r: usize)
        ensures
            r == self.c(),
    {
        self.following_end_idx
    }

    /// Total capacity.
    pub fn capacity(&self) -> (r: usize)
        ensures
            r == self.cap(),
    {
        self.data.len()
    }

    /// Number of bytes of the current part.
    pub fn current_len(&self) -> (r: usize)
        requires
            self.wf(),
        ensures
            r == self.current_view().len(),
    {
        self.current_end_idx - self.antecedent_end_idx
    }

    /// Number of bytes of the following part.
    pub fn following_len(&self) -> (r: usize)
        requires
            self.wf(),
        ensures
            r == self.following_view().len(),
    {
        self.following_end_idx - self.current_end_idx
    }

    /// Whether bytes of subsequent frames were already read.
    pub fn has_following(&self) -> (r: bool)
        requires
            self.wf(),
        ensures
            r == (self.following_view().len() > 0),
    {
        self.following_end_idx > self.current_end_idx
    }

    /// The current part `[a..b)`.
    pub fn current(&self) -> (r: &[u8])
        requires
            self.wf(),
        ensures
            r@ == self.current_view(),
    {
        vstd::slice::slice_subrange(
            self.data.as_slice(),
            self.antecedent_end_idx,
            self.current_end_idx,
        )
    }

    /// The following part `[b..c)`.
    pub fn following(&self) -> (r: &[u8])
        requires
            self.wf(),
        ensures
            r@ == self.following_view(),
    {
        vstd::slice::slice_subrange(
            self.data.as_slice(),
            self.current_end_idx,
            self.following_end_idx,
        )
    }

    /// The current part `[a..b)`, writable in place.
    pub fn current_mut(&mut self) -> (r: &mut [u8])
        requires
            old(self).wf(),
        ensures
            r@ == old(self).current_view(),
            final(self).a() == old(self).a(),
            final(self).b() == old(self).b(),
            final(self).c() == old(self).c(),
            final(self).bytes() == old(self).bytes().subrange(0, old(self).a()) + final(r)@ + old(
                self,
            ).bytes().subrange(old(self).b(), old(self).cap()),
    {
        let a = self.antecedent_end_idx;
        let b = self.current_end_idx;
        let (_, rest) = self.data.as_mut_slice().split_at_mut(a);
        let (current, _) = rest.split_at_mut(b - a);
        current
    }

    /// The following part `[b..c)`, writable in place.
    pub fn following_mut(&mut self) -> (r: &mut [u8])
        requires
            old(self).wf(),
        ensures
            r@ == old(self).following_view(),
            final(self).a() == old(self).a(),
            final(self).b() == old(self).b(),
            final(self).c() == old(self).c(),
            final(self).bytes() == old(self).bytes().subrange(0, old(self).b()) + final(r)@ + old(
                self,
            ).bytes().subrange(old(self).c(), old(self).cap()),
    {
        let b = self.current_end_idx;
        let c = self.following_end_idx;
        let (_, rest) = self.data.as_mut_slice().split_at_mut(b);
        let (following, _) = rest.split_at_mut(c - b);
        following
    }

    /// The uncommitted tail `[b..cap)`, for reading fresh bytes into.
    pub fn following_rest_mut(&mut self) -> (r: &mut [u8])
        requires
            old(self).wf(),
        ensures
            r@ == old(self).bytes().subrange(old(self).b(), old(self).cap()),
            final(self).a() == old(self).a(),
            final(self).b() == old(self).b(),
            final(self).c() == old(self).c(),
            final(self).bytes() == old(self).bytes().subrange(0, old(self).b()) + final(r)@,
    {
        let b = self.current_end_idx;
        let (_, rest) = self.data.as_mut_slice().split_at_mut(b);
        rest
    }

    /// An arbitrary filled or spare range `[start..end)`.
    pub fn slice_range(&self, start: usize, end: usize) -> (r: &[u8])
        requires
            start <= end <= self.cap(),
        ensures
            r@ == self.bytes().subrange(start as int, end as int),
    {
        vstd::slice::slice_subrange(self.data.as_slice(), start, end)
    }

    /// One byte of the region.
    pub fn get_byte(&self, idx: usize) -> (r: u8)
        requires
            idx < self.cap(),
        ensures
            r == self.bytes()[idx as int],
    {
        self.data[idx]
    }

    /// Overwrites one byte; the partition is untouched.
    pub fn set_byte(&mut self, idx: usize, byte: u8)
        requires
            idx < old(self).cap(),
        ensures
            final(self).bytes() == old(self).bytes().update(idx as int, byte),
            final(self).a() == old(self).a(),
            final(self).b() == old(self).b(),
            final(self).c() == old(self).c(),
    {
        self.data[idx] = byte;
    }

    /// XOR-unmasks the current part in place with the repeating 4-byte key.
    pub fn unmask_current(&mut self, key: [u8; 4])
        requires
            old(self).wf(),
        ensures
            final(self).wf(),
            final(self).a() == old(self).a(),
            final(self).b() == old(self).b(),
            final(self).c() == old(self).c(),
            final(self).cap() == old(self).cap(),
            final(self).current_view() == crate::unmask::spec_unmask(
                old(self).current_view(),
                key,
            ),
            final(self).following_view() == old(self).following_view(),
            final(self).bytes().subrange(old(self).b(), old(self).cap()) == old(
                self,
            ).bytes().subrange(old(self).b(), old(self).cap()),
            final(self).bytes().subrange(0, old(self).a()) == old(self).bytes().subrange(
                0,
                old(self).a(),
            ),
    {
        let ghost prev = *self;
        let a = self.antecedent_end_idx;
        let b = self.current_end_idx;
        let (head, rest) = self.data.as_mut_slice().split_at_mut(a);
        let (cur, tail) = rest.split_at_mut(b - a);
        crate::unmask::unmask(cur, key);
        proof {
            assert(self.data@ == prev.data@.subrange(0, a as int) + crate::unmask::spec_unmask(
                prev.current_view(),
                key,
            ) + prev.data@.subrange(b as int, prev.data@.len() as int));
            assert(self.current_view() =~= crate::unmask::spec_unmask(prev.current_view(), key));
            assert(self.following_view() =~= prev.following_view());
            assert(self.bytes().subrange(prev.b(), prev.cap()) =~= prev.bytes().subrange(
                prev.b(),
                prev.cap(),
            ));
            assert(self.bytes().subrange(0, prev.a()) =~= prev.bytes().subrange(0, prev.a()));
        }
    }

    /// Establishes a partition; fails if the indices are out of order or
    /// past the capacity, leaving the buffer untouched.
    pub fn set_indices(
        &mut self,
        antecedent_end_idx: usize,
        current_end_idx: usize,
        following_end_idx: usize,
    ) -> (r: Result<(), Error>)
        ensures
            final(self).bytes() == old(self).bytes(),
            antecedent_end_idx <= current_end_idx <= following_end_idx <= old(self).cap()
                ==> (r is Ok
                && final(self).a() == antecedent_end_idx
                && final(self).b() == current_end_idx
                && final(self).c() == following_end_idx),
            !(antecedent_end_idx <= current_end_idx <= following_end_idx <= old(self).cap())
                ==> (r == Err::<(), Error>(Error::UnexpectedBufferState)
                && final(self).a() == old(self).a()
                && final(self).b() == old(self).b()
                && final(self).c() == old(self).c()),
    {
        if antecedent_end_idx <= current_end_idx && current_end_idx <= following_end_idx
            && following_end_idx <= self.data.len() {
            self.antecedent_end_idx = antecedent_end_idx;
            self.current_end_idx = current_end_idx;
            self.following_end_idx = following_end_idx;
            Ok(())
        } else {
            Err(Error::UnexpectedBufferState)
        }
    }

    /// Establishes a partition, growing the region as needed to make the
    /// last index fit.
    pub fn set_indices_through_expansion(
        &mut self,
        antecedent_end_idx: usize,
        current_end_idx: usize,
        following_end_idx: usize,
    ) -> (r: Result<(), Error>)
        ensures
            antecedent_end_idx <= current_end_idx <= following_end_idx ==> (r is Ok
                && final(self).wf()
                && final(self).a() == antecedent_end_idx
                && final(self).b() == current_end_idx
                && final(self).c() == following_end_idx
                && old(self).bytes().is_prefix_of(final(self).bytes())),
            !(antecedent_end_idx <= current_end_idx <= following_end_idx)
                ==> r == Err::<(), Error>(Error::UnexpectedBufferState),
    {
        if antecedent_end_idx <= current_end_idx && current_end_idx <= following_end_idx {
            if following_end_idx > self.data.len() {
                self.data.resize(following_end_idx, 0);
            }
            self.antecedent_end_idx = antecedent_end_idx;
            self.current_end_idx = current_end_idx;
            self.following_end_idx = following_end_idx;
            Ok(())
        } else {
            Err(Error::UnexpectedBufferState)
        }
    }

    /// Ensures that `additional` bytes fit after the following part,
    /// growing the region when needed. The partition is untouched.
    pub fn reserve(&mut self, additional: usize) -> (r: Result<(), Error>)
        ensures
            final(self).a() == old(self).a(),
            final(self).b() == old(self).b(),
            final(self).c() == old(self).c(),
            old(self).bytes().is_prefix_of(final(self).bytes()),
            r is Ok ==> final(self).cap() >= final(self).c() + additional,
            r is Err ==> (r == Err::<(), Error>(Error::UnexpectedBufferState) && final(self).bytes()
                == old(self).bytes()),
    {
        let Some(needed) = self.following_end_idx.checked_add(additional) else {
            return Err(Error::UnexpectedBufferState);
        };
        if needed > self.data.len() {
            self.data.resize(needed, 0);
        }
        Ok(())
    }

    /// Forgets every region; the bytes and the capacity stay.
    pub fn clear(&mut self)
        ensures
            final(self).bytes() == old(self).bytes(),
            final(self).a() == 0 && final(self).b() == 0 && final(self).c() == 0,
            final(self).wf(),
    {
        self.antecedent_end_idx = 0;
        self.current_end_idx = 0;
        self.following_end_idx = 0;
    }

    /// Resets all indices to zero when no bytes of subsequent frames were
    /// read, so that the next read starts at offset zero.
    pub fn clear_if_following_is_empty(&mut self)
        requires
            old(self).wf(),
        ensures
            final(self).bytes() == old(self).bytes(),
            final(self).wf(),
            old(self).c() == old(self).b() ==> final(self).a() == 0 && final(self).b() == 0
                && final(self).c() == 0,
            old(self).c() != old(self).b() ==> *final(self) == *old(self),
            final(self).following_view() == old(self).following_view(),
    {
        if self.following_end_idx == self.current_end_idx {
            self.antecedent_end_idx = 0;
            self.current_end_idx = 0;
            self.following_end_idx = 0;
        }
        proof {
            assert(final(self).following_view() =~= old(self).following_view());
        }
    }

    /// Appends bytes after the following part, growing the region as
    /// needed; only the index `c` moves.
    pub fn push_following(&mut self, other: &[u8]) -> (r: Result<(), Error>)
        requires
            old(self).wf(),
        ensures
            final(self).wf(),
            final(self).a() == old(self).a(),
            final(self).b() == old(self).b(),
            r is Ok ==> final(self).following_view() == old(self).following_view() + other@,
            r is Ok ==> final(self).current_view() == old(self).current_view(),
            r is Ok ==> final(self).c() == old(self).c() + other@.len(),
            r is Ok ==> final(self).bytes().subrange(0, old(self).c())
                == old(self).bytes().subrange(0, old(self).c()),
            r is Err <==> old(self).c() + other@.len() > usize::MAX,
            r is Err ==> (r == Err::<(), Error>(Error::UnexpectedBufferState)
                && *final(self) == *old(self)),
    {
        let ghost prev = *self;
        let Some(new_end) = self.following_end_idx.checked_add(other.len()) else {
            return Err(Error::UnexpectedBufferState);
        };
        if new_end > self.data.len() {
            self.data.resize(new_end, 0);
        }
        assert(self.bytes().subrange(0, prev.c()) == prev.bytes().subrange(0, prev.c()));
        let mut i: usize = 0;
        while i < other.len()
            invariant
                prev.wf(),
                i <= other@.len(),
                new_end == prev.c() + other@.len(),
                self.a() == prev.a() && self.b() == prev.b() && self.c() == prev.c(),
                self.cap() >= new_end,
                self.bytes().subrange(0, prev.c()) == prev.bytes().subrange(0, prev.c()),
                self.bytes().subrange(prev.c(), prev.c() + i as int) == other@.subrange(
                    0,
                    i as int,
                ),
            decreases other@.len() - i,
        {
            let idx = self.following_end_idx + i;
            self.data[idx] = other[i];
            proof {
                assert(self.bytes().subrange(0, prev.c()) =~= prev.bytes().subrange(0, prev.c()));
                assert(self.bytes().subrange(prev.c(), prev.c() + i + 1) =~= other@.subrange(
                    0,
                    i + 1,
                ));
            }
            i += 1;
        }
        self.following_end_idx = new_end;
        proof {
            let pc = prev.c();
            assert forall|j: int| 0 <= j < pc implies self.bytes()[j] == prev.bytes()[j] by {
                assert(self.bytes().subrange(0, pc)[j] == prev.bytes().subrange(0, pc)[j]);
            }
            assert forall|j: int| 0 <= j < other@.len() implies self.bytes()[pc + j]
                == other@[j] by {
                assert(self.bytes().subrange(pc, pc + other@.len() as int)[j] == other@.subrange(
                    0,
                    other@.len() as int,
                )[j]);
            }
            assert(self.following_view() =~= prev.following_view() + other@);
            assert(self.current_view() =~= prev.current_view());
            assert(self.bytes().subrange(0, pc) =~= prev.bytes().subrange(0, pc));
        }
        Ok(())
    }
}

} // verus!
