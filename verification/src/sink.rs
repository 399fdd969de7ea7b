//! Seekable, writable byte sinks, and an in-memory one.

use vstd::prelude::*;
use crate::error::{ErrorKind, IoError};
use crate::model::unconstrained;
use crate::util::{available, copy_at, ReaderAt};

verus! {

/// The bytes of `s` after `data` has been written at offset `pos`: bytes under the write
/// are replaced, a gap between the old end and `pos` reads as zeros, and writing nothing
/// changes nothing.
pub open spec fn splice(s: Seq<u8>, pos: nat, data: Seq<u8>) -> Seq<u8> {
    if data.len() == 0 {
        s
    } else {
        Seq::new(
            if s.len() >= pos + data.len() {
                s.len()
            } else {
                pos + data.len()
            },
            |i: int|
                if pos <= i < pos + data.len() {
                    data[i - pos]
                } else if i < s.len() {
                    s[i]
                } else {
                    0u8
                },
        )
    }
}

/// Writing `a` and then `b` right behind it is writing their concatenation.
pub proof fn lemma_splice_concat(s: Seq<u8>, pos: nat, a: Seq<u8>, b: Seq<u8>)
    ensures
        splice(splice(s, pos, a), pos + a.len(), b) =~= splice(s, pos, a + b),
{
    if a.len() == 0 {
        assert(a + b =~= b);
    } else if b.len() == 0 {
        assert(a + b =~= a);
    }
}

/// What was written at the front of a sink is a prefix of what the sink holds.
pub proof fn lemma_splice_prefix(s: Seq<u8>, data: Seq<u8>)
    ensures
        data.is_prefix_of(splice(s, 0, data)),
{
    assert(data =~= splice(s, 0, data).subrange(0, data.len() as int));
}

/// Overwriting the front of what was written with as many other bytes has the effect of
/// having written those in the first place.
pub proof fn lemma_splice_front(s: Seq<u8>, front: Seq<u8>, rest: Seq<u8>, other: Seq<u8>)
    requires
        front.len() == other.len(),
    ensures
        splice(splice(s, 0, front + rest), 0, other) =~= splice(s, 0, other + rest),
{
    if other.len() == 0 {
        assert(front + rest =~= other + rest);
    }
}

/// A sequence of `n` zero bytes.
pub open spec fn zeros(n: nat) -> Seq<u8> {
    Seq::new(n, |i: int| 0u8)
}

/// A sink with a write position that can be moved to any absolute offset.
pub trait WriteSeek {
    /// The bytes the sink holds. For an implementation that gives no model they are some
    /// function of the sink of which nothing is known.
    open spec fn bytes(&self) -> Seq<u8> {
        (choose|model: spec_fn(&Self) -> Seq<u8>| unconstrained(model))(self)
    }

    /// The offset at which the next write begins. For an implementation that gives no
    /// model it is some function of the sink of which nothing is known.
    open spec fn position(&self) -> nat {
        (choose|model: spec_fn(&Self) -> nat| unconstrained(model))(self)
    }

    /// An offset up to which the sink cannot fail: where it is positive, a seek to it or
    /// below, a write that ends at it or below, and a flush all succeed. Zero for a sink
    /// that may fail at any time, which is what an implementation is taken for unless it
    /// says otherwise; of such a sink no success is demanded.
    open spec fn reliable_len() -> nat {
        0
    }

    /// Moves the write position to the absolute offset `pos`.
    fn seek(&mut self, pos: u64) -> (r: Result<(), IoError>)
        ensures
            Self::reliable_len() > 0 && pos <= Self::reliable_len() ==> r is Ok,
            r is Ok ==> final(self).bytes() == old(self).bytes() && final(self).position() == pos,
    ;

    /// Writes all of `buf` at the write position and advances the position behind it.
    fn write_all(&mut self, buf: &[u8]) -> (r: Result<(), IoError>)
        ensures
            Self::reliable_len() > 0 && old(self).position() + buf@.len() <= Self::reliable_len()
                ==> r is Ok,
            r is Ok ==> final(self).bytes() == splice(old(self).bytes(), old(self).position(), buf@)
                && final(self).position() == old(self).position() + buf@.len(),
    ;

    /// Hands buffered bytes on to the medium.
    fn flush(&mut self) -> (r: Result<(), IoError>)
        ensures
            Self::reliable_len() > 0 ==> r is Ok,
            r is Ok ==> final(self).bytes() == old(self).bytes() && final(self).position() == old(
                self,
            ).position(),
    ;
}

/// An in-memory buffer with a position, usable as a sink and as a source.
pub struct Cursor<T> {
    inner: T,
    pos: u64,
}

impl<T> Cursor<T> {
    /// The wrapped buffer, as a specification value.
    pub closed spec fn spec_get_ref(&self) -> &T {
        &self.inner
    }

    /// The position, as a specification value.
    pub closed spec fn spec_position(&self) -> u64 {
        self.pos
    }

    /// Wraps `inner` with the position at zero.
    pub fn new(inner: T) -> (c: Self)
        ensures
            *c.spec_get_ref() == inner,
            c.spec_position() == 0,
    {
        Cursor { inner, pos: 0 }
    }

    /// Unwraps the buffer.
    pub fn into_inner(self) -> (inner: T)
        ensures
            inner == *self.spec_get_ref(),
    {
        self.inner
    }

    /// The wrapped buffer.
    #[verifier::when_used_as_spec(spec_get_ref)]
    pub fn get_ref(&self) -> (inner: &T)
        ensures
            inner == self.spec_get_ref(),
    {
        &self.inner
    }

    /// The current position.
    #[verifier::when_used_as_spec(spec_position)]
    pub fn position(&self) -> (pos: u64)
        ensures
            pos == self.spec_position(),
    {
        self.pos
    }

    /// Moves the position to `pos`.
    pub fn set_position(&mut self, pos: u64)
        ensures
            final(self).spec_position() == pos,
            final(self).spec_get_ref() == old(self).spec_get_ref(),
    {
        self.pos = pos;
    }
}

impl WriteSeek for Cursor<Vec<u8>> {
    open spec fn bytes(&self) -> Seq<u8> {
        self.spec_get_ref()@
    }

    open spec fn position(&self) -> nat {
        self.spec_position() as nat
    }

    open spec fn reliable_len() -> nat {
        usize::MAX as nat
    }

    fn seek(&mut self, pos: u64) -> (r: Result<(), IoError>)
        ensures
            r is Ok,
    {
        self.pos = pos;
        Ok(())
    }

    /// Fails with `InvalidInput`, changing nothing, exactly when `buf` is not empty and
    /// would end beyond the largest length a vector can have.
    fn write_all(&mut self, buf: &[u8]) -> (r: Result<(), IoError>)
        ensures
            r is Ok <==> buf@.len() == 0 || old(self).position() + buf@.len() <= usize::MAX,
            r matches Err(e) ==> e.kind() == ErrorKind::InvalidInput && *final(self) == *old(self),
    {
        let count = buf.len();
        if count == 0 {
            return Ok(());
        }
        if self.pos > usize::MAX as u64 || count > usize::MAX - self.pos as usize {
            return Err(IoError::new(ErrorKind::InvalidInput));
        }
        let start = self.pos as usize;
        let ghost before = self.inner@;
        while self.inner.len() < start
            invariant
                self.pos == start,
                self.inner@.len() <= start || self.inner@ == before,
                self.inner@ =~= Seq::new(
                    self.inner@.len(),
                    |i: int|
                        if i < before.len() {
                            before[i]
                        } else {
                            0u8
                        },
                ),
                self.inner@.len() >= before.len(),
            decreases start - self.inner@.len(),
        {
            self.inner.push(0u8);
        }
        let ghost padded = self.inner@;
        let mut i: usize = 0;
        while i < count
            invariant
                i <= count,
                count == buf@.len(),
                start + count <= usize::MAX,
                self.pos == start,
                padded.len() >= start,
                self.inner@.len() >= padded.len(),
                self.inner@.len() >= start + i,
                self.inner@.len() == padded.len() || self.inner@.len() == start + i,
                forall|j: int|
                    0 <= j < self.inner@.len() ==> #[trigger] self.inner@[j] == (if start <= j
                        < start + i {
                        buf@[j - start]
                    } else {
                        padded[j]
                    }),
            decreases count - i,
        {
            if start + i < self.inner.len() {
                self.inner[start + i] = buf[i];
            } else {
                self.inner.push(buf[i]);
            }
            i += 1;
        }
        self.pos = self.pos + count as u64;
        assert(self.inner@ =~= splice(before, start as nat, buf@));
        Ok(())
    }

    fn flush(&mut self) -> (r: Result<(), IoError>)
        ensures
            r is Ok,
    {
        Ok(())
    }
}

/// Reading does not move the position.
impl ReaderAt for Cursor<Vec<u8>> {
    open spec fn bytes(&self) -> Seq<u8> {
        self.spec_get_ref()@
    }

    open spec fn reliable(&self) -> bool {
        true
    }

    /// Never fails, and reads as many bytes as the buffer holds from `offset` on and
    /// `buf` has room for.
    fn read_at(&self, buf: &mut [u8], offset: u64) -> (r: Result<usize, IoError>)
        ensures
            r == Ok::<usize, IoError>(
                available(self.spec_get_ref()@.len(), old(buf)@.len(), offset) as usize,
            ),
    {
        let n = copy_at(self.inner.as_slice(), buf, offset);
        assert(self.inner@.len() == self.inner.len());
        Ok(n)
    }
}

} // verus!
