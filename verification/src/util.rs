//! Positional reads and the pairs of little-endian integers of the file format.

use vstd::prelude::*;
use crate::error::{ErrorKind, IoError};
use crate::format::{u32_pair_at, u32_pair_bytes};
use crate::model::unconstrained;
use crate::sink::{lemma_splice_concat, splice, WriteSeek};

verus! {

/// How often in a row an interrupted read is retried before the interruption is reported.
pub const MAX_INTERRUPT_RETRIES: u64 = 0xffff_ffff_ffff_ffff;

/// What filling a buffer does next, after one read.
#[derive(Clone, Copy, Debug, PartialEq, Eq)]
pub enum ReadStep {
    /// The buffer is full.
    Done,
    /// The buffer holds `filled` bytes and is not full: read on behind them, with all
    /// retries available again.
    Continue { filled: usize },
    /// The read was interrupted: read again at the same place, with `retries` left.
    Retry { retries: u64 },
    /// Give up with this error.
    Fail(IoError),
}

/// The decision after a read into a buffer of `total` bytes of which `filled` were full
/// before, with `retries` retries left: a read of nothing is the end of the source, any
/// other read fills the buffer further or up; an interruption is retried while retries
/// are left; every other error, and an interruption when none is left, is passed on as
/// it is.
pub open spec fn read_step(
    total: usize,
    filled: usize,
    retries: u64,
    outcome: Result<usize, IoError>,
) -> ReadStep {
    match outcome {
        Ok(n) => if n == 0 {
            ReadStep::Fail(IoError::of_kind(ErrorKind::UnexpectedEof))
        } else if filled + n >= total {
            ReadStep::Done
        } else {
            ReadStep::Continue { filled: (filled + n) as usize }
        },
        Err(e) => if e.kind() == ErrorKind::Interrupted && retries > 0 {
            ReadStep::Retry { retries: (retries - 1) as u64 }
        } else {
            ReadStep::Fail(e)
        },
    }
}

/// Decides what `read_exact_at` does after a read that returned `outcome`.
pub fn after_read(
    total: usize,
    filled: usize,
    retries: u64,
    outcome: Result<usize, IoError>,
) -> (step: ReadStep)
    ensures
        step == read_step(total, filled, retries, outcome),
{
    match outcome {
        Ok(n) => {
            if n == 0 {
                ReadStep::Fail(IoError::new(ErrorKind::UnexpectedEof))
            } else if filled >= total || n >= total - filled {
                ReadStep::Done
            } else {
                ReadStep::Continue { filled: filled + n }
            }
        },
        Err(e) => {
            if e.kind() == ErrorKind::Interrupted && retries > 0 {
                ReadStep::Retry { retries: retries - 1 }
            } else {
                ReadStep::Fail(e)
            }
        },
    }
}

/// A source of bytes that can be read at any absolute offset without moving a cursor.
pub trait ReaderAt {
    /// The bytes of the source. For an implementation that gives no model they are some
    /// function of the source of which nothing is known.
    open spec fn bytes(&self) -> Seq<u8> {
        (choose|model: spec_fn(&Self) -> Seq<u8>| unconstrained(model))(self)
    }

    /// Whether reads of this source never fail (an in-memory source). Unless an
    /// implementation says otherwise, they may.
    open spec fn reliable(&self) -> bool {
        false
    }

    /// Reads up to `buf.len()` bytes at `offset` into the front of `buf` and returns how
    /// many were read. Zero is returned only for an empty buffer or at the end of the
    /// source.
    fn read_at(&self, buf: &mut [u8], offset: u64) -> (r: Result<usize, IoError>)
        ensures
            final(buf)@.len() == old(buf)@.len(),
            self.reliable() ==> r is Ok,
            self.bytes().len() <= u64::MAX,
            r matches Ok(n) ==> {
                &&& n <= old(buf)@.len()
                &&& n == 0 ==> final(buf)@ == old(buf)@ && (old(buf)@.len() == 0 || offset
                    >= self.bytes().len())
                &&& n > 0 ==> offset + n <= self.bytes().len() && final(buf)@
                    == self.bytes().subrange(offset as int, offset + n) + old(buf)@.subrange(
                    n as int,
                    old(buf)@.len() as int,
                )
            },
    ;

    /// Fills `buf` with the bytes at `offset`, reading repeatedly until it is full.
    ///
    /// After each read `after_read` decides how to go on: short reads are continued, an
    /// interrupted read is retried, up to `MAX_INTERRUPT_RETRIES` times in a row,
    /// reaching the end of the source first is `UnexpectedEof`, and any other failure of
    /// `read_at` is passed on. An empty buffer is full without a read.
    fn read_exact_at(&self, buf: &mut [u8], offset: u64) -> (r: Result<(), IoError>)
        ensures
            final(buf)@.len() == old(buf)@.len(),
            old(buf)@.len() == 0 ==> r is Ok,
            old(buf)@.len() > 0 ==> self.bytes().len() <= u64::MAX,
            r is Ok ==> {
                &&& old(buf)@.len() > 0 ==> offset + old(buf)@.len() <= self.bytes().len()
                &&& old(buf)@.len() > 0 ==> final(buf)@ == self.bytes().subrange(
                    offset as int,
                    offset + old(buf)@.len(),
                )
                &&& old(buf)@.len() == 0 ==> final(buf)@ == old(buf)@
            },
            self.reliable() ==> (r is Ok <==> (old(buf)@.len() == 0 || offset + old(buf)@.len()
                <= self.bytes().len())),
            self.reliable() ==> (r matches Err(e) ==> e.kind() == ErrorKind::UnexpectedEof),
    {
        let total = buf.len();
        let mut filled: usize = 0;
        let mut at: u64 = offset;
        let mut retries: u64 = MAX_INTERRUPT_RETRIES;
        while filled < total
            invariant
                buf@.len() == total,
                total == old(buf)@.len(),
                filled > 0 ==> self.bytes().len() <= u64::MAX,
                filled <= total,
                at == offset + filled,
                filled > 0 ==> offset + filled <= self.bytes().len(),
                filled > 0 ==> buf@.subrange(0, filled as int) == self.bytes().subrange(
                    offset as int,
                    offset + filled,
                ),
            decreases total - filled, retries,
        {
            let (_, rest) = buf.split_at_mut(filled);
            let outcome = self.read_at(rest, at);
            match after_read(total, filled, retries, outcome) {
                ReadStep::Done => {
                    assert(buf@ =~= buf@.subrange(0, total as int));
                    return Ok(());
                },
                ReadStep::Continue { filled: now } => {
                    at += (now - filled) as u64;
                    filled = now;
                    retries = MAX_INTERRUPT_RETRIES;
                },
                ReadStep::Retry { retries: left } => {
                    retries = left;
                },
                ReadStep::Fail(e) => {
                    proof {
                        IoError::lemma_of_kind(e, ErrorKind::UnexpectedEof);
                    }
                    return Err(e);
                },
            }
        }
        Ok(())
    }
}

/// How many bytes a read at `offset` into a buffer of `room` bytes takes from an
/// in-memory source of `len` bytes: as many as both hold.
pub open spec fn available(len: nat, room: nat, offset: u64) -> nat {
    if offset >= len {
        0
    } else if room < len - offset {
        room
    } else {
        (len - offset) as nat
    }
}

/// Copies the bytes of `src` that start at `offset` into the front of `buf`, as many as
/// both hold, and returns their number.
pub(crate) fn copy_at(src: &[u8], buf: &mut [u8], offset: u64) -> (n: usize)
    ensures
        final(buf)@.len() == old(buf)@.len(),
        n == available(src@.len(), old(buf)@.len(), offset),
        n <= old(buf)@.len(),
        n == 0 ==> final(buf)@ == old(buf)@ && (old(buf)@.len() == 0 || offset >= src@.len()),
        n > 0 ==> offset + n <= src@.len() && final(buf)@ == src@.subrange(
            offset as int,
            offset + n,
        ) + old(buf)@.subrange(n as int, old(buf)@.len() as int),
{
    if offset >= src.len() as u64 {
        return 0;
    }
    let start = offset as usize;
    let remaining = src.len() - start;
    let count = if buf.len() < remaining {
        buf.len()
    } else {
        remaining
    };
    let mut i: usize = 0;
    while i < count
        invariant
            i <= count,
            count <= buf@.len(),
            start + count <= src@.len() <= usize::MAX,
            buf@.len() == old(buf)@.len(),
            buf@ =~= src@.subrange(start as int, start + i) + old(buf)@.subrange(
                i as int,
                old(buf)@.len() as int,
            ),
        decreases count - i,
    {
        buf[i] = src[start + i];
        i += 1;
    }
    count
}

/// A byte slice is a source that never fails.
impl<'a> ReaderAt for &'a [u8] {
    open spec fn bytes(&self) -> Seq<u8> {
        (*self)@
    }

    open spec fn reliable(&self) -> bool {
        true
    }

    /// Never fails, and reads as many bytes as the slice has from `offset` on and the
    /// buffer has room for.
    fn read_at(&self, buf: &mut [u8], offset: u64) -> (r: Result<usize, IoError>)
        ensures
            r == Ok::<usize, IoError>(
                available(self@.len(), old(buf)@.len(), offset) as usize,
            ),
    {
        let n = copy_at(*self, buf, offset);
        assert(self@.len() == self.len());
        Ok(n)
    }
}

/// Reads the two little-endian 32-bit integers stored in the eight bytes at `offset`.
pub fn read_tuple<R: ReaderAt + ?Sized>(reader: &R, offset: u64) -> (r: Result<(u32, u32), IoError>)
    ensures
        reader.bytes().len() <= u64::MAX,
        r matches Ok(pair) ==> offset + 8 <= reader.bytes().len() && pair == u32_pair_at(
            reader.bytes(),
            offset as int,
        ),
        reader.reliable() ==> (r is Ok <==> offset + 8 <= reader.bytes().len()),
        reader.reliable() ==> (r matches Err(e) ==> e.kind() == ErrorKind::UnexpectedEof),
{
    let mut buffer = [0u8; 8];
    match reader.read_exact_at(&mut buffer, offset) {
        Ok(()) => {},
        Err(e) => {
            return Err(e);
        },
    }
    let first = vstd::bytes::u32_from_le_bytes(&buffer[0..4]);
    let second = vstd::bytes::u32_from_le_bytes(&buffer[4..8]);
    proof {
        let s = reader.bytes();
        assert(buffer@.subrange(0, 4) =~= s.subrange(offset as int, offset + 4));
        assert(buffer@.subrange(4, 8) =~= s.subrange(offset + 4, offset + 8));
    }
    Ok((first, second))
}

/// Writes `first` and `second` at the write position, four little-endian bytes each.
pub fn write_tuple<W: WriteSeek + ?Sized>(writer: &mut W, first: u32, second: u32) -> (r: Result<
    (),
    IoError,
>)
    ensures
        old(writer).position() + 8 <= W::reliable_len() ==> r is Ok,
        r is Ok ==> final(writer).bytes() == splice(
            old(writer).bytes(),
            old(writer).position(),
            u32_pair_bytes(first, second),
        ) && final(writer).position() == old(writer).position() + 8,
{
    let a = vstd::bytes::u32_to_le_bytes(first);
    let b = vstd::bytes::u32_to_le_bytes(second);
    match writer.write_all(a.as_slice()) {
        Ok(()) => {},
        Err(e) => {
            return Err(e);
        },
    }
    match writer.write_all(b.as_slice()) {
        Ok(()) => {},
        Err(e) => {
            return Err(e);
        },
    }
    proof {
        lemma_splice_concat(old(writer).bytes(), old(writer).position(), a@, b@);
    }
    Ok(())
}

} // verus!
