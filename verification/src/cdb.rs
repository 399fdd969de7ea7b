//! The reader: a snapshot of the directory and lookups by key.

use vstd::prelude::*;
use std::marker::PhantomData;
use memmap2::Mmap;
use crate::decode::{
    data_end, directory_at, directory_entry_at, lookup, overrun_kind, probe, probe_visits, value_at,
    Lookup,
};
use crate::error::{ErrorKind, IoError};
use crate::format::{
    lemma_probe_slot, start_slot, table_index, u32_pair_at, u64_pair_at, Slot, HEADER_SIZE,
};
use crate::hash::KeyHasher;
use crate::iterator::CdbIterator;
use crate::mmap::{mmap_bytes, mmap_slice};
use crate::util::{read_tuple, ReaderAt};

verus! {

/// One entry of the directory: where the slot array of a subtable begins and how many
/// slots it has.
#[derive(Debug, Copy, Clone)]
pub struct TableEntry {
    pub offset: u64,
    pub length: u64,
}

impl View for TableEntry {
    type V = Slot;

    open spec fn view(&self) -> Slot {
        (self.offset, self.length)
    }
}

impl Default for TableEntry {
    fn default() -> (e: Self)
        ensures
            e@ == (0u64, 0u64),
    {
        TableEntry { offset: 0, length: 0 }
    }
}

/// The value of a lookup result as a specification value.
pub open spec fn found_view(found: Option<Vec<u8>>) -> Option<Seq<u8>> {
    match found {
        Some(v) => Some(v@),
        None => None,
    }
}

/// Whether what a lookup returned is what the bytes determine: a returned value or
/// absence always is, and an error is the determined one where the source itself cannot
/// fail.
pub open spec fn agrees(
    r: Result<Option<Vec<u8>>, IoError>,
    outcome: Lookup,
    reliable: bool,
) -> bool {
    match r {
        Ok(found) => outcome == Ok::<Option<Seq<u8>>, ErrorKind>(found_view(found)),
        Err(e) => reliable ==> outcome == Err::<Option<Seq<u8>>, ErrorKind>(e.kind()),
    }
}

/// Whether the slot at which a probe for `hash` starts in the slot array `table` has an
/// offset that does not fit 64 bits, so that it lies beyond the end of any source.
pub open spec fn first_slot_unaddressable(table: Slot, hash: u64) -> bool {
    table.1 > 0 && table.0 + 16 * start_slot(hash, table.1 as int) > u64::MAX
}

/// Whether two byte strings are equal.
pub(crate) fn bytes_equal(a: &[u8], b: &[u8]) -> (eq: bool)
    ensures
        eq == (a@ == b@),
{
    if a.len() != b.len() {
        return false;
    }
    let mut i: usize = 0;
    while i < a.len()
        invariant
            i <= a@.len(),
            a@.len() == b@.len(),
            a@.take(i as int) == b@.take(i as int),
        decreases a@.len() - i,
    {
        if a[i] != b[i] {
            return false;
        }
        proof {
            assert(a@.take(i + 1) =~= a@.take(i as int).push(a@[i as int]));
            assert(b@.take(i + 1) =~= b@.take(i as int).push(b@[i as int]));
        }
        i += 1;
    }
    proof {
        assert(a@.take(i as int) =~= a@);
        assert(b@.take(i as int) =~= b@);
    }
    true
}

/// The `len` bytes of `bytes` from `start` on, if it has them.
pub(crate) fn slice_chunk(bytes: &[u8], start: u64, len: usize) -> (chunk: Option<&[u8]>)
    ensures
        chunk is Some <==> start + len <= bytes@.len(),
        chunk matches Some(c) ==> c@ == bytes@.subrange(start as int, start + len),
{
    let total = bytes.len();
    if start > total as u64 {
        return None;
    }
    let begin = start as usize;
    if len > total - begin {
        return None;
    }
    Some(vstd::slice::slice_subrange(bytes, begin, begin + len))
}

/// Decodes the 256 directory entries at the front of `bytes`.
pub(crate) fn decode_header(bytes: &[u8]) -> (header: [TableEntry; 256])
    requires
        bytes@.len() >= HEADER_SIZE,
    ensures
        forall|t: int| 0 <= t < 256 ==> (#[trigger] header@[t])@ == directory_entry_at(bytes@, t),
{
    let mut header = [TableEntry { offset: 0, length: 0 }; 256];
    let mut i: usize = 0;
    while i < 256
        invariant
            i <= 256,
            bytes@.len() >= HEADER_SIZE,
            forall|t: int| 0 <= t < i ==> (#[trigger] header@[t])@ == directory_entry_at(bytes@, t),
        decreases 256 - i,
    {
        let offset = vstd::bytes::u64_from_le_bytes(
            vstd::slice::slice_subrange(bytes, i * 16, i * 16 + 8),
        );
        let length = vstd::bytes::u64_from_le_bytes(
            vstd::slice::slice_subrange(bytes, i * 16 + 8, i * 16 + 16),
        );
        header[i] = TableEntry { offset, length };
        i += 1;
    }
    header
}

/// An open database. It can only be read.
pub struct Cdb<R, H> {
    reader: R,
    header: [TableEntry; 256],
    hasher: PhantomData<H>,
    mmap: Option<Mmap>,
}

impl<R: ReaderAt, H: KeyHasher> Cdb<R, H> {
    /// The bytes of the database: those of the memory map where there is one, those of
    /// the reader otherwise.
    pub closed spec fn source(&self) -> Seq<u8> {
        match self.mmap {
            Some(map) => mmap_bytes(map),
            None => self.reader.bytes(),
        }
    }

    /// Whether the database is decoded in place from a memory map.
    pub closed spec fn zero_copy(&self) -> bool {
        self.mmap is Some
    }

    /// Whether reads cannot fail for reasons other than the bytes themselves.
    pub closed spec fn reliable(&self) -> bool {
        self.mmap is Some || self.reader.reliable()
    }

    /// The directory as it was decoded when the database was opened.
    pub closed spec fn directory(&self) -> Seq<Slot> {
        Seq::new(256, |t: int| self.header@[t]@)
    }

    /// The directory is the one that the first 4096 bytes of the source encode.
    pub open spec fn wf(&self) -> bool {
        &&& HEADER_SIZE <= self.source().len() <= u64::MAX
        &&& self.directory() == directory_at(self.source())
    }

    /// Opens the database that `reader` holds: reads the directory, once.
    ///
    /// A source shorter than the directory is `UnexpectedEof`.
    pub fn new(reader: R) -> (r: Result<Self, IoError>)
        ensures
            r matches Ok(cdb) ==> cdb.wf() && cdb.source() == reader.bytes() && !cdb.zero_copy()
                && cdb.reliable() == reader.reliable(),
            reader.reliable() ==> (r is Ok <==> reader.bytes().len() >= HEADER_SIZE),
            reader.reliable() ==> (r matches Err(e) ==> e.kind() == ErrorKind::UnexpectedEof),
    {
        let mut cdb = Cdb {
            reader,
            header: [TableEntry { offset: 0, length: 0 }; 256],
            hasher: PhantomData,
            mmap: None,
        };
        match cdb.read_header() {
            Ok(()) => Ok(cdb),
            Err(e) => Err(e),
        }
    }

    /// Opens the database that `mmap` maps; every later read decodes the mapped bytes
    /// in place and `reader` is only kept.
    ///
    /// A map shorter than the directory is an error of kind `Other`.
    pub fn with_mmap(reader: R, mmap: Mmap) -> (r: Result<Self, IoError>)
        ensures
            r matches Ok(cdb) ==> cdb.wf() && cdb.source() == mmap_bytes(mmap) && cdb.zero_copy()
                && cdb.reliable(),
            r is Ok <==> mmap_bytes(mmap).len() >= HEADER_SIZE,
            r matches Err(e) ==> e.kind() == ErrorKind::Other,
    {
        let mut cdb = Cdb {
            reader,
            header: [TableEntry { offset: 0, length: 0 }; 256],
            hasher: PhantomData,
            mmap: Some(mmap),
        };
        match cdb.read_header_from_mmap() {
            Ok(()) => Ok(cdb),
            Err(e) => Err(e),
        }
    }

    /// Decodes the directory in place from the memory map. A database without a memory
    /// map is an error of kind `Other`.
    fn read_header_from_mmap(&mut self) -> (r: Result<(), IoError>)
        ensures
            final(self).reader == old(self).reader,
            final(self).mmap == old(self).mmap,
            r is Ok ==> final(self).wf(),
            r is Ok <==> old(self).mmap is Some && old(self).source().len() >= HEADER_SIZE,
            r matches Err(e) ==> e.kind() == ErrorKind::Other,
    {
        if let Some(mmap_ref) = self.mmap.as_ref() {
            match Self::read_header_from_mmap_internal(mmap_ref) {
                Ok(h) => {
                    self.header = h;
                    proof {
                        assert(self.directory() =~= directory_at(self.source()));
                    }
                    Ok(())
                },
                Err(e) => Err(e),
            }
        } else {
            Err(IoError::new(ErrorKind::Other))
        }
    }

    /// Reads the directory through the reader, or from the memory map where there is one.
    fn read_header(&mut self) -> (r: Result<(), IoError>)
        ensures
            final(self).reader == old(self).reader,
            final(self).mmap == old(self).mmap,
            r is Ok ==> final(self).wf(),
            old(self).reliable() ==> (r is Ok <==> old(self).source().len() >= HEADER_SIZE),
            old(self).reliable() ==> (r matches Err(e) ==> e.kind() == if old(self).mmap is Some {
                ErrorKind::Other
            } else {
                ErrorKind::UnexpectedEof
            }),
    {
        if self.mmap.is_some() {
            return self.read_header_from_mmap();
        }
        let mut header_buf = vec![0u8; 4096];
        match self.reader.read_exact_at(header_buf.as_mut_slice(), 0) {
            Ok(()) => {},
            Err(e) => {
                return Err(e);
            },
        }
        self.header = decode_header(header_buf.as_slice());
        proof {
            let s = self.source();
            assert forall|t: int| 0 <= t < 256 implies #[trigger] directory_entry_at(header_buf@, t)
                == directory_entry_at(s, t) by {
                assert(header_buf@.subrange(16 * t, 16 * t + 8) =~= s.subrange(16 * t, 16 * t + 8));
                assert(header_buf@.subrange(16 * t + 8, 16 * t + 16) =~= s.subrange(
                    16 * t + 8,
                    16 * t + 16,
                ));
            }
            assert(self.directory() =~= directory_at(s));
        }
        Ok(())
    }

    /// Returns the value of the first record with the given key that the probe sequence
    /// of the key's hash meets, or `None` if it meets none.
    ///
    /// The key's hash selects a subtable by its low byte and, by its remaining bits, the
    /// slot at which probing starts. An empty slot ends the search, as do as many steps
    /// as the subtable has slots. A slot or record that lies beyond the end of the source
    /// is an error.
    pub fn get(&self, key: &[u8]) -> (r: Result<Option<Vec<u8>>, IoError>)
        requires
            self.wf(),
        ensures
            agrees(
                r,
                lookup::<H>(self.source(), self.zero_copy(), self.directory(), key@),
                self.reliable(),
            ),
            self.directory()[table_index(H::spec_hash(key@))].1 == 0 ==> r matches Ok(None),
            first_slot_unaddressable(
                self.directory()[table_index(H::spec_hash(key@))],
                H::spec_hash(key@),
            ) ==> (r matches Err(e) && e.kind() == ErrorKind::UnexpectedEof),
    {
        let hash_val = H::hash(key);
        assert(hash_val & 0xff < 256) by (bit_vector);
        let table_idx = (hash_val & 0xff) as usize;
        let table_entry = self.header[table_idx];
        assert(table_entry@ == self.directory()[table_index(hash_val)]);

        if table_entry.length == 0 {
            return Ok(None);
        }
        let (found, _) = self.probe_table(table_entry, hash_val, key);
        found
    }

    /// Probes the slot array that `table_entry` describes for `key`, whose hash is
    /// `hash_val`. Returns the outcome and the number of slots that were inspected,
    /// which is never more than the array has.
    pub fn probe_table(&self, table_entry: TableEntry, hash_val: u64, key: &[u8]) -> (out: (
        Result<Option<Vec<u8>>, IoError>,
        u64,
    ))
        requires
            self.wf(),
            table_entry.length > 0,
        ensures
            agrees(
                out.0,
                probe(self.source(), self.zero_copy(), table_entry@, hash_val, key@, 0),
                self.reliable(),
            ),
            out.1 <= table_entry.length,
            first_slot_unaddressable(table_entry@, hash_val) ==> (out.0 matches Err(e) && e.kind()
                == ErrorKind::UnexpectedEof) && out.1 == 1,
            out.0 is Ok || self.reliable() ==> out.1 == probe_visits(
                self.source(),
                self.zero_copy(),
                table_entry@,
                hash_val,
                key@,
                0,
            ),
    {
        let starting_slot = (hash_val >> 8) % table_entry.length;
        let ghost s = self.source();
        let ghost zc = self.zero_copy();

        let mut i: u64 = 0;
        while i < table_entry.length
            invariant
                self.wf(),
                s == self.source(),
                zc == self.zero_copy(),
                table_entry.length > 0,
                starting_slot == start_slot(hash_val, table_entry.length as int),
                i <= table_entry.length,
                first_slot_unaddressable(table_entry@, hash_val) ==> i == 0,
                probe(s, zc, table_entry@, hash_val, key@, i as nat) == probe(
                    s,
                    zc,
                    table_entry@,
                    hash_val,
                    key@,
                    0,
                ),
                i + probe_visits(s, zc, table_entry@, hash_val, key@, i as nat) == probe_visits(
                    s,
                    zc,
                    table_entry@,
                    hash_val,
                    key@,
                    0,
                ),
            decreases table_entry.length - i,
        {
            let slot_to_check = if i < table_entry.length - starting_slot {
                starting_slot + i
            } else {
                i - (table_entry.length - starting_slot)
            };
            proof {
                lemma_probe_slot(starting_slot as int, i as int, table_entry.length as int);
            }
            let slot = match self.read_slot(table_entry.offset, slot_to_check) {
                Ok(pair) => pair,
                Err(e) => {
                    return (Err(e), i + 1);
                },
            };
            let (entry_hash, data_offset) = slot;
            if entry_hash == 0 && data_offset == 0 {
                return (Ok(None), i + 1);
            }
            if entry_hash == hash_val {
                match self.get_value_at(data_offset, key) {
                    Ok(Some(value)) => {
                        return (Ok(Some(value)), i + 1);
                    },
                    Ok(None) => {},
                    Err(e) => {
                        return (Err(e), i + 1);
                    },
                }
            }
            i += 1;
        }
        (Ok(None), i)
    }

    /// Reads slot `slot` of the slot array that begins at `table_offset`. A slot whose
    /// offset does not fit 64 bits lies beyond the end of any source: that is
    /// `UnexpectedEof`, and nothing is read.
    fn read_slot(&self, table_offset: u64, slot: u64) -> (r: Result<(u64, u64), IoError>)
        requires
            self.wf(),
        ensures
            table_offset + 16 * slot > u64::MAX ==> (r matches Err(e) && e.kind()
                == ErrorKind::UnexpectedEof),
            r matches Ok(pair) ==> table_offset + 16 * slot + 16 <= self.source().len() && pair
                == u64_pair_at(self.source(), table_offset + 16 * slot),
            self.reliable() ==> (r is Ok <==> table_offset + 16 * slot + 16
                <= self.source().len()),
            self.reliable() ==> (r matches Err(e) ==> e.kind() == ErrorKind::UnexpectedEof),
    {
        let slot_offset = match slot.checked_mul(16) {
            Some(delta) => match table_offset.checked_add(delta) {
                Some(at) => at,
                None => {
                    return Err(IoError::new(ErrorKind::UnexpectedEof));
                },
            },
            None => {
                return Err(IoError::new(ErrorKind::UnexpectedEof));
            },
        };
        if let Some(mmap_ref) = self.mmap.as_ref() {
            return read_tuple_from_mmap(mmap_ref, slot_offset);
        }
        let mut slot_buffer = [0u8; 16];
        match self.reader.read_exact_at(&mut slot_buffer, slot_offset) {
            Ok(()) => {},
            Err(e) => {
                return Err(e);
            },
        }
        let h = vstd::bytes::u64_from_le_bytes(&slot_buffer[0..8]);
        let d = vstd::bytes::u64_from_le_bytes(&slot_buffer[8..16]);
        proof {
            let s = self.source();
            assert(slot_buffer@.subrange(0, 8) =~= s.subrange(slot_offset as int, slot_offset + 8));
            assert(slot_buffer@.subrange(8, 16) =~= s.subrange(slot_offset + 8, slot_offset + 16));
        }
        Ok((h, d))
    }

    /// Compares the key of the record at `data_offset` with `expected_key` and returns
    /// the record's value if they are equal, `None` if they are not. No byte of an empty
    /// key or of an empty value is read.
    pub fn get_value_at(&self, data_offset: u64, expected_key: &[u8]) -> (r: Result<
        Option<Vec<u8>>,
        IoError,
    >)
        requires
            self.wf(),
        ensures
            agrees(
                r,
                value_at(self.source(), self.zero_copy(), data_offset as int, expected_key@),
                self.reliable(),
            ),
    {
        if let Some(mmap_ref) = self.mmap.as_ref() {
            return self.get_value_at_mmap(mmap_ref, data_offset, expected_key);
        }
        let (key_len, val_len) = match read_tuple(&self.reader, data_offset) {
            Ok(pair) => pair,
            Err(e) => {
                return Err(e);
            },
        };
        if key_len as u64 != expected_key.len() as u64 {
            return Ok(None);
        }
        let key_start = data_offset + 8;

        if expected_key.is_empty() {
            let mut value_buf = vec![0u8; val_len as usize];
            if val_len > 0 {
                match self.reader.read_exact_at(value_buf.as_mut_slice(), key_start) {
                    Ok(()) => {},
                    Err(e) => {
                        return Err(e);
                    },
                }
            }
            assert(val_len == 0 ==> value_buf@ =~= Seq::<u8>::empty());
            return Ok(Some(value_buf));
        }
        let mut key_buf = vec![0u8; key_len as usize];
        match self.reader.read_exact_at(key_buf.as_mut_slice(), key_start) {
            Ok(()) => {},
            Err(e) => {
                return Err(e);
            },
        }
        if !bytes_equal(key_buf.as_slice(), expected_key) {
            return Ok(None);
        }
        let mut value_buf = vec![0u8; val_len as usize];
        if val_len > 0 {
            let value_start = key_start + key_len as u64;
            match self.reader.read_exact_at(value_buf.as_mut_slice(), value_start) {
                Ok(()) => {},
                Err(e) => {
                    return Err(e);
                },
            }
        }
        assert(val_len == 0 ==> value_buf@ =~= Seq::<u8>::empty());
        Ok(Some(value_buf))
    }

    /// The same comparison on a memory map: the header and the key are decoded and
    /// compared in place, and only a matching record's value is copied out.
    fn get_value_at_mmap(&self, mmap_ref: &Mmap, data_offset: u64, expected_key: &[u8]) -> (r:
        Result<Option<Vec<u8>>, IoError>)
        ensures
            agrees(
                r,
                value_at(mmap_bytes(*mmap_ref), true, data_offset as int, expected_key@),
                true,
            ),
    {
        let bytes = mmap_slice(mmap_ref);
        assert(bytes@.len() == bytes.len());
        let header = match slice_chunk(bytes, data_offset, 8) {
            Some(h) => h,
            None => {
                return Err(IoError::new(ErrorKind::UnexpectedEof));
            },
        };
        let key_len = vstd::bytes::u32_from_le_bytes(vstd::slice::slice_subrange(header, 0, 4));
        let val_len = vstd::bytes::u32_from_le_bytes(vstd::slice::slice_subrange(header, 4, 8));
        proof {
            let s = bytes@;
            assert(header@.subrange(0, 4) =~= s.subrange(data_offset as int, data_offset + 4));
            assert(header@.subrange(4, 8) =~= s.subrange(data_offset + 4, data_offset + 8));
        }
        if key_len as u64 != expected_key.len() as u64 {
            return Ok(None);
        }
        let key_start = data_offset + 8;

        if expected_key.is_empty() {
            let value_buf = if val_len > 0 {
                match slice_chunk(bytes, key_start, val_len as usize) {
                    Some(v) => vstd::slice::slice_to_vec(v),
                    None => {
                        return Err(IoError::new(ErrorKind::InvalidData));
                    },
                }
            } else {
                Vec::new()
            };
            return Ok(Some(value_buf));
        }
        let key_buf_slice = match slice_chunk(bytes, key_start, key_len as usize) {
            Some(k) => k,
            None => {
                return Err(IoError::new(ErrorKind::InvalidData));
            },
        };
        if !bytes_equal(key_buf_slice, expected_key) {
            return Ok(None);
        }
        let value_buf = if val_len > 0 {
            let val_start = key_start + key_len as u64;
            match slice_chunk(bytes, val_start, val_len as usize) {
                Some(v) => vstd::slice::slice_to_vec(v),
                None => {
                    return Err(IoError::new(ErrorKind::InvalidData));
                },
            }
        } else {
            Vec::new()
        };
        Ok(Some(value_buf))
    }

    /// Returns an iterator over all records of the database, in the order in which they
    /// were added. It borrows the database, which can still be queried meanwhile.
    pub fn iter(&self) -> (it: CdbIterator<'_, R, H>)
        requires
            self.wf(),
        ensures
            it.wf(),
            it.cdb() == self,
            it.position() == HEADER_SIZE,
            it.end() == data_end(self.directory()),
            it.current() is None,
            it.last_error() is None,
    {
        CdbIterator::new(self)
    }

    /// The directory entry of subtable `t`.
    pub(crate) fn table_entry(&self, t: usize) -> (e: TableEntry)
        requires
            t < 256,
        ensures
            e@ == self.directory()[t as int],
    {
        self.header[t]
    }

    /// Reads the record header at `offset`: key length and value length.
    pub(crate) fn read_record_header(&self, offset: u64) -> (r: Result<(u32, u32), IoError>)
        requires
            self.wf(),
        ensures
            self.source().len() <= u64::MAX,
            r matches Ok(pair) ==> offset + 8 <= self.source().len() && pair == u32_pair_at(
                self.source(),
                offset as int,
            ),
            self.reliable() ==> (r is Ok <==> offset + 8 <= self.source().len()),
            self.reliable() ==> (r matches Err(e) ==> e.kind() == ErrorKind::UnexpectedEof),
    {
        if let Some(mmap_ref) = self.mmap.as_ref() {
            let header = match slice_chunk(mmap_slice(mmap_ref), offset, 8) {
                Some(h) => h,
                None => {
                    return Err(IoError::new(ErrorKind::UnexpectedEof));
                },
            };
            let key_len = vstd::bytes::u32_from_le_bytes(vstd::slice::slice_subrange(header, 0, 4));
            let val_len = vstd::bytes::u32_from_le_bytes(vstd::slice::slice_subrange(header, 4, 8));
            proof {
                let s = self.source();
                assert(header@.subrange(0, 4) =~= s.subrange(offset as int, offset + 4));
                assert(header@.subrange(4, 8) =~= s.subrange(offset + 4, offset + 8));
            }
            return Ok((key_len, val_len));
        }
        read_tuple(&self.reader, offset)
    }

    /// Copies out the `len` bytes at `offset`. Nothing is read where `len` is zero.
    pub(crate) fn read_chunk(&self, offset: u64, len: u32) -> (r: Result<Vec<u8>, IoError>)
        requires
            self.wf(),
        ensures
            len == 0 ==> r is Ok,
            r matches Ok(v) ==> v@.len() == len && (len > 0 ==> offset + len <= self.source().len()
                && v@ == self.source().subrange(offset as int, offset + len)),
            self.reliable() ==> (r is Ok <==> len == 0 || offset + len <= self.source().len()),
            self.reliable() ==> (r matches Err(e) ==> e.kind() == overrun_kind(self.zero_copy())),
    {
        if len == 0 {
            return Ok(Vec::new());
        }
        if let Some(mmap_ref) = self.mmap.as_ref() {
            return match slice_chunk(mmap_slice(mmap_ref), offset, len as usize) {
                Some(chunk) => Ok(vstd::slice::slice_to_vec(chunk)),
                None => Err(IoError::new(ErrorKind::InvalidData)),
            };
        }
        let mut buf = vec![0u8; len as usize];
        match self.reader.read_exact_at(buf.as_mut_slice(), offset) {
            Ok(()) => Ok(buf),
            Err(e) => Err(e),
        }
    }

    /// Decodes the directory in place from a memory map.
    fn read_header_from_mmap_internal(mmap_ref: &Mmap) -> (r: Result<[TableEntry; 256], IoError>)
        ensures
            r is Ok <==> mmap_bytes(*mmap_ref).len() >= HEADER_SIZE,
            mmap_bytes(*mmap_ref).len() <= usize::MAX,
            r matches Ok(header) ==> forall|t: int|
                0 <= t < 256 ==> (#[trigger] header@[t])@ == directory_entry_at(
                    mmap_bytes(*mmap_ref),
                    t,
                ),
            r matches Err(e) ==> e.kind() == ErrorKind::Other,
    {
        let bytes = mmap_slice(mmap_ref);
        if bytes.len() < 4096 {
            return Err(IoError::new(ErrorKind::Other));
        }
        Ok(decode_header(bytes))
    }
}

/// Decodes the two 64-bit integers at `offset` of a memory map in place.
fn read_tuple_from_mmap(mmap: &Mmap, offset: u64) -> (r: Result<(u64, u64), IoError>)
    ensures
        r is Ok <==> offset + 16 <= mmap_bytes(*mmap).len(),
        r matches Ok(pair) ==> pair == u64_pair_at(mmap_bytes(*mmap), offset as int),
        r matches Err(e) ==> e.kind() == ErrorKind::UnexpectedEof,
{
    let bytes = match slice_chunk(mmap_slice(mmap), offset, 16) {
        Some(b) => b,
        None => {
            return Err(IoError::new(ErrorKind::UnexpectedEof));
        },
    };
    let first = vstd::bytes::u64_from_le_bytes(vstd::slice::slice_subrange(bytes, 0, 8));
    let second = vstd::bytes::u64_from_le_bytes(vstd::slice::slice_subrange(bytes, 8, 16));
    proof {
        let s = mmap_bytes(*mmap);
        assert(bytes@.subrange(0, 8) =~= s.subrange(offset as int, offset + 8));
        assert(bytes@.subrange(8, 16) =~= s.subrange(offset + 8, offset + 16));
    }
    Ok((first, second))
}

} // verus!
