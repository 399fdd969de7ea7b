//! A walk over the records of a database in the order in which they were added.

use vstd::prelude::*;
use crate::cdb::Cdb;
use crate::decode::{bounded_upto, data_end, least_bound_upto, record_at, records_from};
use crate::error::{ErrorKind, IoError};
use crate::format::{Record, HEADER_SIZE};
use crate::hash::KeyHasher;
use crate::util::ReaderAt;

verus! {

/// A single pass over the data region of a database.
pub struct CdbIterator<'cdb, R, H> {
    cdb: &'cdb Cdb<R, H>,
    current_pos: u64,
    end_pos: u64,
    current: Option<(Vec<u8>, Vec<u8>)>,
    error: Option<IoError>,
}

/// The record that an iterator yielded, as a specification value.
pub open spec fn record_view(pair: (Vec<u8>, Vec<u8>)) -> Record {
    (pair.0@, pair.1@)
}

impl<'cdb, R: ReaderAt, H: KeyHasher> CdbIterator<'cdb, R, H> {
    /// The database that is walked.
    pub closed spec fn cdb(&self) -> &'cdb Cdb<R, H> {
        self.cdb
    }

    /// The offset of the next record.
    pub closed spec fn position(&self) -> u64 {
        self.current_pos
    }

    /// The offset at which the data region ends.
    pub closed spec fn end(&self) -> u64 {
        self.end_pos
    }

    /// The record that the last call of `next` yielded, if it yielded one.
    pub closed spec fn current(&self) -> Option<Record> {
        match self.current {
            Some(pair) => Some(record_view(pair)),
            None => None,
        }
    }

    /// The error that `next` reported, if it ever reported one. An error is fatal: it
    /// ends the walk, and it stays.
    pub closed spec fn last_error(&self) -> Option<IoError> {
        self.error
    }

    /// The database is well formed.
    pub closed spec fn wf(&self) -> bool {
        self.cdb.wf()
    }

    /// Whether the walk is over: the end of the data region is reached, or an error was
    /// reported.
    pub open spec fn ended(&self) -> bool {
        self.position() >= self.end() || self.last_error() is Some
    }

    /// The records still to come, up to the end of the data region or to the first
    /// record that cannot be read; none after an error.
    pub open spec fn remaining(&self) -> Seq<Record> {
        if self.last_error() is Some {
            Seq::empty()
        } else {
            records_from(
                self.cdb().source(),
                self.cdb().zero_copy(),
                self.position() as int,
                self.end() as int,
            )
        }
    }

    /// Creates an iterator at the first record. The data region ends where the first
    /// slot array begins, or right behind the directory if there is none.
    pub fn new(cdb: &'cdb Cdb<R, H>) -> (it: Self)
        requires
            cdb.wf(),
        ensures
            it.wf(),
            it.cdb() == cdb,
            it.position() == HEADER_SIZE,
            it.end() == data_end(cdb.directory()),
            it.current() is None,
            it.last_error() is None,
    {
        let mut calculated_end_pos = u64::MAX;
        let mut has_valid_table_offset = false;
        let mut i: usize = 0;
        while i < 256
            invariant
                i <= 256,
                calculated_end_pos == least_bound_upto(cdb.directory(), i as nat),
                has_valid_table_offset == bounded_upto(cdb.directory(), i as nat),
            decreases 256 - i,
        {
            let table_entry = cdb.table_entry(i);
            if table_entry.length > 0 && table_entry.offset >= HEADER_SIZE {
                if table_entry.offset < calculated_end_pos {
                    calculated_end_pos = table_entry.offset;
                }
                has_valid_table_offset = true;
            }
            i += 1;
        }
        let end_pos = if has_valid_table_offset {
            calculated_end_pos
        } else {
            HEADER_SIZE
        };
        CdbIterator { cdb, current_pos: HEADER_SIZE, end_pos, current: None, error: None }
    }

    /// Reads the next record and moves behind it.
    ///
    /// Returns `None` once the end of the data region is reached. A record that would
    /// extend beyond the data region is `InvalidData`. An error is fatal: it is reported
    /// once, and every later call returns `None`.
    pub fn next(&mut self) -> (r: Option<Result<(Vec<u8>, Vec<u8>), IoError>>)
        requires
            old(self).wf(),
        ensures
            final(self).wf(),
            final(self).cdb() == old(self).cdb(),
            final(self).end() == old(self).end(),
            r is None <==> old(self).ended(),
            r is None ==> final(self).position() == old(self).position() && final(self).current()
                is None && final(self).last_error() == old(self).last_error(),
            r is Some ==> final(self).position() > old(self).position() || final(self).ended(),
            r matches Some(Ok(pair)) ==> final(self).current() == Some(record_view(pair))
                && final(self).last_error() is None,
            r matches Some(Err(e)) ==> final(self).current() is None && final(self).last_error()
                == Some(e),
            r matches Some(Ok(pair)) ==> record_at(
                old(self).cdb().source(),
                old(self).cdb().zero_copy(),
                old(self).position() as int,
                old(self).end() as int,
            ) == Ok::<(Record, int), ErrorKind>((record_view(pair), final(self).position() as int))
                && old(self).remaining() == seq![record_view(pair)] + final(self).remaining(),
            r matches Some(Err(e)) ==> final(self).position() == old(self).position() && (old(
                self,
            ).cdb().reliable() ==> record_at(
                old(self).cdb().source(),
                old(self).cdb().zero_copy(),
                old(self).position() as int,
                old(self).end() as int,
            ) == Err::<(Record, int), ErrorKind>(e.kind())),
    {
        if self.error.is_some() || self.current_pos >= self.end_pos {
            self.current = None;
            return None;
        }
        match self.read_record() {
            Ok((key_buf, val_buf, next_pos)) => {
                self.current = Some(
                    (
                        vstd::slice::slice_to_vec(key_buf.as_slice()),
                        vstd::slice::slice_to_vec(val_buf.as_slice()),
                    ),
                );
                self.error = None;
                self.current_pos = next_pos;
                Some(Ok((key_buf, val_buf)))
            },
            Err(e) => {
                self.current = None;
                self.error = Some(e);
                Some(Err(e))
            },
        }
    }

    /// Reads the record at the current position; returns its key, its value and the
    /// offset behind it.
    fn read_record(&self) -> (r: Result<(Vec<u8>, Vec<u8>, u64), IoError>)
        requires
            self.wf(),
            self.position() < self.end(),
        ensures
            r matches Ok(out) ==> record_at(
                self.cdb().source(),
                self.cdb().zero_copy(),
                self.position() as int,
                self.end() as int,
            ) == Ok::<(Record, int), ErrorKind>(((out.0@, out.1@), out.2 as int)),
            r matches Err(e) ==> (self.cdb().reliable() ==> record_at(
                self.cdb().source(),
                self.cdb().zero_copy(),
                self.position() as int,
                self.end() as int,
            ) == Err::<(Record, int), ErrorKind>(e.kind())),
    {
        let (key_len, val_len) = match self.cdb.read_record_header(self.current_pos) {
            Ok(pair) => pair,
            Err(e) => {
                return Err(e);
            },
        };
        let record_data_offset = self.current_pos + 8;
        let record_len = key_len as u64 + val_len as u64;
        let next_pos = match record_data_offset.checked_add(record_len) {
            Some(p) => p,
            None => {
                return Err(IoError::new(ErrorKind::InvalidData));
            },
        };
        if next_pos > self.end_pos {
            return Err(IoError::new(ErrorKind::InvalidData));
        }
        let key_buf = match self.cdb.read_chunk(record_data_offset, key_len) {
            Ok(k) => k,
            Err(e) => {
                return Err(e);
            },
        };
        let val_buf = match self.cdb.read_chunk(record_data_offset + key_len as u64, val_len) {
            Ok(v) => v,
            Err(e) => {
                return Err(e);
            },
        };
        proof {
            assert(key_len == 0 ==> key_buf@ =~= Seq::<u8>::empty());
            assert(val_len == 0 ==> val_buf@ =~= Seq::<u8>::empty());
        }
        Ok((key_buf, val_buf, next_pos))
    }

    /// The key of the record that the last call of `next` yielded.
    pub fn key(&self) -> (k: &[u8])
        requires
            self.current() is Some,
        ensures
            k@ == self.current().unwrap().0,
    {
        match &self.current {
            Some(pair) => pair.0.as_slice(),
            None => vstd::pervasive::unreached(),
        }
    }

    /// The value of the record that the last call of `next` yielded.
    pub fn value(&self) -> (v: &[u8])
        requires
            self.current() is Some,
        ensures
            v@ == self.current().unwrap().1,
    {
        match &self.current {
            Some(pair) => pair.1.as_slice(),
            None => vstd::pervasive::unreached(),
        }
    }

    /// The error that ended the walk, if one did.
    pub fn err(&self) -> (e: Option<IoError>)
        ensures
            e == self.last_error(),
    {
        self.error
    }
}

} // verus!
