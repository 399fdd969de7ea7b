//! The builder: streams records into a sink, then lays out the slot arrays and rewrites
//! the directory.

use vstd::prelude::*;
use std::marker::PhantomData;
use crate::error::{Error, ErrorKind, IoError};
use crate::format::{
    buildable, data_bytes, data_len, directory, directory_entry, entries, fits, image, image_len,
    lemma_data_bytes_len, lemma_entries_push, lemma_entry_offsets, lemma_image_len,
    lemma_slots_bytes_len, lemma_tables_bytes_len, lemma_tables_len_bound, record_bytes, record_len,
    slot_table, slots_bytes, table_offset, tables_bytes, u32_pair_bytes, u64_pair_bytes, Record,
    Slot, HEADER_SIZE,
};
use crate::hash::{CdbHash, KeyHasher};
use crate::sink::{lemma_splice_concat, lemma_splice_front, splice, zeros, WriteSeek};
use crate::slots::build_slots;
use crate::util::write_tuple;

verus! {

/// Writes `first` and `second` at the write position, eight little-endian bytes each.
fn write_u64_pair<W: WriteSeek>(writer: &mut W, first: u64, second: u64) -> (r: Result<
    (),
    IoError,
>)
    ensures
        old(writer).position() + 16 <= W::reliable_len() ==> r is Ok,
        r is Ok ==> final(writer).bytes() == splice(
            old(writer).bytes(),
            old(writer).position(),
            u64_pair_bytes(first, second),
        ) && final(writer).position() == old(writer).position() + 16,
{
    let a = vstd::bytes::u64_to_le_bytes(first);
    let b = vstd::bytes::u64_to_le_bytes(second);
    match writer.write_all(a.as_slice()) {
        Ok(()) => {},
        Err(e) => {
            return Err(e);
        },
    }
    match writer.write_all(b.as_slice()) {
        Ok(()) => {},
        Err(e) => {
            return Err(e);
        },
    }
    proof {
        lemma_splice_concat(old(writer).bytes(), old(writer).position(), a@, b@);
    }
    Ok(())
}

/// Writes the slots one after the other at the write position.
fn write_slots<W: WriteSeek>(writer: &mut W, slots: &Vec<Slot>) -> (r: Result<(), IoError>)
    ensures
        old(writer).position() + 16 * slots@.len() <= W::reliable_len() ==> r is Ok,
        r is Ok ==> final(writer).bytes() == splice(
            old(writer).bytes(),
            old(writer).position(),
            slots_bytes(slots@),
        ) && final(writer).position() == old(writer).position() + 16 * slots@.len(),
{
    let ghost before = writer.bytes();
    let ghost at = writer.position();
    let mut j: usize = 0;
    proof {
        assert(slots@.take(0) =~= Seq::<Slot>::empty());
    }
    while j < slots.len()
        invariant
            j <= slots@.len(),
            at == old(writer).position(),
            before == old(writer).bytes(),
            writer.bytes() == splice(before, at, slots_bytes(slots@.take(j as int))),
            writer.position() == at + 16 * j,
        decreases slots@.len() - j,
    {
        let slot = slots[j];
        let ghost s0 = writer.bytes();
        match write_u64_pair(writer, slot.0, slot.1) {
            Ok(()) => {},
            Err(e) => {
                return Err(e);
            },
        }
        proof {
            let done = slots@.take(j as int);
            lemma_slots_bytes_len(done);
            assert(slots@.take(j + 1).drop_last() =~= done);
            lemma_splice_concat(before, at, slots_bytes(done), u64_pair_bytes(slot.0, slot.1));
        }
        j += 1;
    }
    proof {
        assert(slots@.take(j as int) =~= slots@);
    }
    Ok(())
}

/// Lays out the slot arrays of all subtables behind the data region, which ends at
/// `data_end`, and returns the directory that describes them.
fn write_slot_arrays<W: WriteSeek, H: KeyHasher>(
    writer: &mut W,
    tables: &Vec<Vec<Slot>>,
    data_end: u64,
    Ghost(rs): Ghost<Seq<Record>>,
) -> (r: Result<Vec<Slot>, IoError>)
    requires
        tables@.len() == 256,
        forall|t: int| 0 <= t < 256 ==> (#[trigger] tables@[t])@ == entries::<H>(rs, t),
        data_end == HEADER_SIZE + data_len(rs),
        image_len(rs) <= u64::MAX,
        2 * rs.len() <= usize::MAX,
    ensures
        image_len(rs) <= W::reliable_len() ==> r is Ok,
        r matches Ok(dir) ==> dir@ == directory::<H>(rs) && final(writer).bytes() == splice(
            old(writer).bytes(),
            data_end as nat,
            tables_bytes::<H>(rs, 256),
        ),
{
    let ghost before = writer.bytes();
    let mut header: Vec<Slot> = Vec::new();
    let mut pos: u64 = data_end;
    let mut i: usize = 0;
    while i < 256
        invariant
            i <= 256,
            tables@.len() == 256,
            forall|t: int| 0 <= t < 256 ==> (#[trigger] tables@[t])@ == entries::<H>(rs, t),
            data_end == HEADER_SIZE + data_len(rs),
            image_len(rs) <= u64::MAX,
            2 * rs.len() <= usize::MAX,
            before == old(writer).bytes(),
            pos == table_offset::<H>(rs, i as int),
            header@.len() == i,
            forall|t: int| 0 <= t < i ==> #[trigger] header@[t] == directory_entry::<H>(rs, t),
            writer.bytes() == splice(before, data_end as nat, tables_bytes::<H>(rs, i as nat)),
        decreases 256 - i,
    {
        let entries_in_this_table = &tables[i];
        proof {
            lemma_entry_offsets::<H>(rs, i as int);
            lemma_tables_len_bound::<H>(rs, i as nat);
            lemma_tables_len_bound::<H>(rs, (i + 1) as nat);
            assert(tables@[i as int]@ == entries::<H>(rs, i as int));
        }
        if entries_in_this_table.len() == 0 {
            header.push((0u64, 0u64));
            proof {
                assert(slot_table(entries::<H>(rs, i as int)) =~= Seq::<Slot>::empty());
                assert(tables_bytes::<H>(rs, (i + 1) as nat) =~= tables_bytes::<H>(rs, i as nat));
            }
        } else {
            let slots_data = build_slots(entries_in_this_table);
            let num_slots = slots_data.len();
            header.push((pos, num_slots as u64));
            match writer.seek(pos) {
                Ok(()) => {},
                Err(e) => {
                    return Err(e);
                },
            }
            match write_slots(writer, &slots_data) {
                Ok(()) => {},
                Err(e) => {
                    return Err(e);
                },
            }
            proof {
                let done = tables_bytes::<H>(rs, i as nat);
                lemma_tables_bytes_len::<H>(rs, i as nat);
                lemma_slots_bytes_len(slots_data@);
                lemma_splice_concat(before, data_end as nat, done, slots_bytes(slots_data@));
            }
            pos = pos + (num_slots as u64) * 16;
        }
        i += 1;
    }
    proof {
        assert(header@ =~= directory::<H>(rs));
    }
    Ok(header)
}

/// A builder of a database in the sink `W`, keyed by the hash `H`.
pub struct CdbWriter<W, H = CdbHash> {
    writer: W,
    entries_by_table: Vec<Vec<Slot>>,
    is_finalized: bool,
    current_data_offset: u64,
    slot_bytes: u64,
    hasher: PhantomData<H>,
    records: Ghost<Seq<Record>>,
    initial: Ghost<Seq<u8>>,
}

impl<W: WriteSeek, H: KeyHasher> CdbWriter<W, H> {
    /// The records added so far, in order.
    pub closed spec fn records(&self) -> Seq<Record> {
        self.records@
    }

    /// Whether the database has been finalized.
    pub closed spec fn finalized(&self) -> bool {
        self.is_finalized
    }

    /// The sink that is written to.
    pub closed spec fn sink(&self) -> W {
        self.writer
    }

    /// The bytes that the sink held when the builder took it.
    pub closed spec fn initial(&self) -> Seq<u8> {
        self.initial@
    }

    /// The offset at which the next record will be written.
    pub open spec fn data_end(&self) -> nat {
        HEADER_SIZE as nat + data_len(self.records())
    }

    /// What the builder has written from offset 0 on: before finalization a placeholder
    /// of zeros and the records behind it, afterwards the whole file.
    pub open spec fn content(&self) -> Seq<u8> {
        if self.finalized() {
            image::<H>(self.records())
        } else {
            zeros(HEADER_SIZE as nat) + data_bytes(self.records())
        }
    }

    /// The builder's bookkeeping matches the records added so far, and the file built
    /// from them stays addressable.
    pub closed spec fn wf(&self) -> bool {
        &&& self.entries_by_table@.len() == 256
        &&& forall|t: int|
            0 <= t < 256 ==> (#[trigger] self.entries_by_table@[t])@ == entries::<H>(
                self.records@,
                t,
            )
        &&& self.current_data_offset == HEADER_SIZE + data_len(self.records@)
        &&& self.slot_bytes == 32 * self.records@.len()
        &&& image_len(self.records@) <= u64::MAX
        &&& 2 * self.records@.len() <= usize::MAX
        &&& buildable(self.records@)
    }

    /// Whether the sink holds what the builder has written, laid over what the sink held
    /// before. An I/O failure leaves the sink in a state of which nothing is known.
    pub open spec fn intact(&self) -> bool {
        self.sink().bytes() == splice(self.initial(), 0, self.content())
    }

    /// The records of a well-formed builder can be built.
    pub proof fn lemma_records_buildable(&self)
        requires
            self.wf(),
        ensures
            buildable(self.records()),
    {
    }

    /// Creates a builder on `writer`: writes 4096 zero bytes at offset 0 as a placeholder
    /// for the directory.
    pub fn new(mut writer: W) -> (r: Result<Self, Error>)
        ensures
            HEADER_SIZE <= W::reliable_len() ==> r is Ok,
            r matches Ok(w) ==> {
                &&& w.wf()
                &&& w.intact()
                &&& !w.finalized()
                &&& w.records() == Seq::<Record>::empty()
                &&& w.initial() == writer.bytes()
            },
            r matches Err(e) ==> e is Io,
    {
        let ghost before = writer.bytes();
        match writer.seek(0) {
            Ok(()) => {},
            Err(e) => {
                return Err(Error::Io(e));
            },
        }
        let header_placeholder = vec![0u8; 4096];
        assert(header_placeholder@ =~= zeros(HEADER_SIZE as nat));
        match writer.write_all(header_placeholder.as_slice()) {
            Ok(()) => {},
            Err(e) => {
                return Err(Error::Io(e));
            },
        }
        let mut entries_by_table: Vec<Vec<Slot>> = Vec::new();
        while entries_by_table.len() < 256
            invariant
                entries_by_table@.len() <= 256,
                forall|t: int|
                    0 <= t < entries_by_table@.len() ==> (#[trigger] entries_by_table@[t])@
                        == Seq::<Slot>::empty(),
            decreases 256 - entries_by_table@.len(),
        {
            entries_by_table.push(Vec::new());
        }
        let w = CdbWriter {
            writer,
            entries_by_table,
            is_finalized: false,
            current_data_offset: HEADER_SIZE,
            slot_bytes: 0,
            hasher: PhantomData,
            records: Ghost(Seq::empty()),
            initial: Ghost(before),
        };
        proof {
            assert(zeros(HEADER_SIZE as nat) + data_bytes(Seq::<Record>::empty()) =~= zeros(
                HEADER_SIZE as nat,
            ));
        }
        Ok(w)
    }

    /// Creates a builder on `writer` for the hash of which `_hasher_instance` is an
    /// instance. The instance itself is not used: the hash is a function of the key alone.
    pub fn new_with_custom_hasher(writer: W, _hasher_instance: H) -> (r: Result<Self, Error>)
        ensures
            HEADER_SIZE <= W::reliable_len() ==> r is Ok,
            r matches Ok(w) ==> {
                &&& w.wf()
                &&& w.intact()
                &&& !w.finalized()
                &&& w.records() == Seq::<Record>::empty()
                &&& w.initial() == writer.bytes()
            },
            r matches Err(e) ==> e is Io,
    {
        Self::new(writer)
    }

    /// Adds a record: writes its header, key and value at the end of the data region and
    /// remembers its hash and offset for the subtable that the hash selects.
    ///
    /// Keys need not be unique. After finalization the call fails with
    /// `WriterFinalized`. A record that does not fit (see `fits`) is refused with an I/O
    /// error of kind `InvalidInput`. Either way nothing is written. A failure of the sink
    /// is passed on and leaves the record out.
    pub fn put(&mut self, key: &[u8], value: &[u8]) -> (r: Result<(), Error>)
        requires
            old(self).wf(),
        ensures
            final(self).wf(),
            final(self).finalized() == old(self).finalized(),
            final(self).initial() == old(self).initial(),
            old(self).finalized() ==> r == Err::<(), Error>(Error::WriterFinalized),
            !old(self).finalized() && !fits(old(self).records(), key@.len(), value@.len()) ==> (r
                matches Err(e) && e.is_io_of(ErrorKind::InvalidInput)),
            old(self).finalized() || !fits(old(self).records(), key@.len(), value@.len())
                ==> final(self).sink() == old(self).sink(),
            !old(self).finalized() && fits(old(self).records(), key@.len(), value@.len())
                && old(self).data_end() + record_len((key@, value@)) <= W::reliable_len()
                ==> r is Ok,
            r is Ok ==> {
                &&& final(self).records() == old(self).records().push((key@, value@))
                &&& final(self).data_end() == old(self).data_end() + record_len((key@, value@))
                &&& final(self).sink().bytes() == splice(
                    old(self).sink().bytes(),
                    old(self).data_end(),
                    record_bytes((key@, value@)),
                )
                &&& old(self).intact() ==> final(self).intact()
            },
            r matches Err(e) ==> final(self).records() == old(self).records() && (e is Io
                || e is WriterFinalized),
    {
        if self.is_finalized {
            return Err(Error::WriterFinalized);
        }
        if key.len() > u32::MAX as usize || value.len() > u32::MAX as usize {
            return Err(Error::Io(IoError::new(ErrorKind::InvalidInput)));
        }
        let record_size: u64 = 8 + key.len() as u64 + value.len() as u64;
        let image_size: u64 = self.current_data_offset + self.slot_bytes;
        if record_size + 32 > u64::MAX - image_size || self.slot_bytes / 16 + 2 > usize::MAX as u64
        {
            return Err(Error::Io(IoError::new(ErrorKind::InvalidInput)));
        }
        let ghost rs = self.records@;
        let ghost record: Record = (key@, value@);
        let ghost before = self.writer.bytes();
        let ghost at = self.current_data_offset as nat;

        match self.writer.seek(self.current_data_offset) {
            Ok(()) => {},
            Err(e) => {
                return Err(Error::Io(e));
            },
        }
        match write_tuple(&mut self.writer, key.len() as u32, value.len() as u32) {
            Ok(()) => {},
            Err(e) => {
                return Err(Error::Io(e));
            },
        }
        match self.writer.write_all(key) {
            Ok(()) => {},
            Err(e) => {
                return Err(Error::Io(e));
            },
        }
        match self.writer.write_all(value) {
            Ok(()) => {},
            Err(e) => {
                return Err(Error::Io(e));
            },
        }
        let hash_val = H::hash(key);
        assert(hash_val & 0xff < 256) by (bit_vector);
        let table_idx = (hash_val & 0xff) as usize;
        self.entries_by_table[table_idx].push((hash_val, self.current_data_offset));
        self.current_data_offset += record_size;
        self.slot_bytes += 32;
        self.records = Ghost(rs.push(record));
        proof {
            vstd::bytes::lemma_auto_spec_u32_to_from_le_bytes();
            let head = u32_pair_bytes(key@.len() as u32, value@.len() as u32);
            lemma_splice_concat(before, at, head, key@);
            lemma_splice_concat(before, at, head + key@, value@);
            assert(rs.push(record).drop_last() =~= rs);
            assert forall|t: int| 0 <= t < 256 implies (#[trigger] self.entries_by_table@[t])@
                == entries::<H>(self.records@, t) by {
                lemma_entries_push::<H>(rs, record, t);
            }
            if old(self).intact() {
                let written = zeros(HEADER_SIZE as nat) + data_bytes(rs);
                lemma_data_bytes_len(rs);
                lemma_splice_concat(self.initial@, 0, written, record_bytes(record));
                assert(written + record_bytes(record) =~= zeros(HEADER_SIZE as nat) + data_bytes(
                    rs.push(record),
                ));
            }
        }
        Ok(())
    }

    /// Lays out the slot arrays behind the data region and rewrites the directory at the
    /// front. Does nothing on a finalized builder, and does not finalize one.
    fn write_footer_and_header(&mut self) -> (r: Result<(), Error>)
        requires
            old(self).wf(),
        ensures
            final(self).wf(),
            final(self).records() == old(self).records(),
            final(self).initial() == old(self).initial(),
            final(self).finalized() == old(self).finalized(),
            old(self).finalized() ==> r is Ok && final(self).sink() == old(self).sink(),
            image_len(old(self).records()) <= W::reliable_len() ==> r is Ok,
            r matches Err(e) ==> e is Io,
            r is Ok && !old(self).finalized() ==> final(self).sink().bytes() == splice(
                splice(
                    old(self).sink().bytes(),
                    old(self).data_end(),
                    tables_bytes::<H>(old(self).records(), 256),
                ),
                0,
                slots_bytes(directory::<H>(old(self).records())),
            ),
    {
        if self.is_finalized {
            return Ok(());
        }
        match self.writer.flush() {
            Ok(()) => {},
            Err(e) => {
                return Err(Error::Io(e));
            },
        }
        let final_header_entries = match write_slot_arrays::<W, H>(
            &mut self.writer,
            &self.entries_by_table,
            self.current_data_offset,
            Ghost(self.records@),
        ) {
            Ok(dir) => dir,
            Err(e) => {
                return Err(Error::Io(e));
            },
        };
        match self.writer.seek(0) {
            Ok(()) => {},
            Err(e) => {
                return Err(Error::Io(e));
            },
        }
        proof {
            lemma_image_len::<H>(self.records@);
        }
        match write_slots(&mut self.writer, &final_header_entries) {
            Ok(()) => {},
            Err(e) => {
                return Err(Error::Io(e));
            },
        }
        Ok(())
    }

    /// Completes the database: lays out the slot array of every subtable behind the data
    /// region, rewrites the directory at the front, flushes the sink and, when all of
    /// that has succeeded, marks the builder finalized.
    ///
    /// A subtable with `n` entries gets `2 * n` slots, and each entry, in the order in
    /// which it was added, the first free slot on the probe sequence of its hash. On a
    /// finalized builder only the sink is flushed. A builder that was not finalized
    /// before is not finalized by a call that fails.
    pub fn finalize(&mut self) -> (r: Result<(), Error>)
        requires
            old(self).wf(),
        ensures
            final(self).wf(),
            final(self).records() == old(self).records(),
            final(self).initial() == old(self).initial(),
            old(self).finalized() ==> final(self).finalized(),
            r is Ok ==> final(self).finalized(),
            r is Err && !old(self).finalized() ==> !final(self).finalized(),
            image_len(old(self).records()) <= W::reliable_len() ==> r is Ok,
            r matches Err(e) ==> e is Io,
            r is Ok ==> {
                &&& final(self).sink().bytes() == if old(self).finalized() {
                    old(self).sink().bytes()
                } else {
                    splice(
                        splice(
                            old(self).sink().bytes(),
                            old(self).data_end(),
                            tables_bytes::<H>(old(self).records(), 256),
                        ),
                        0,
                        slots_bytes(directory::<H>(old(self).records())),
                    )
                }
                &&& old(self).intact() ==> final(self).intact()
            },
    {
        match self.write_footer_and_header() {
            Ok(()) => {},
            Err(e) => {
                return Err(e);
            },
        }
        match self.writer.flush() {
            Ok(()) => {},
            Err(e) => {
                return Err(Error::Io(e));
            },
        }
        self.is_finalized = true;
        proof {
            if old(self).intact() && !old(self).finalized() {
                let rs = self.records@;
                let placeholder = zeros(HEADER_SIZE as nat);
                let rest = data_bytes(rs) + tables_bytes::<H>(rs, 256);
                lemma_data_bytes_len(rs);
                lemma_image_len::<H>(rs);
                lemma_splice_concat(
                    self.initial@,
                    0,
                    placeholder + data_bytes(rs),
                    tables_bytes::<H>(rs, 256),
                );
                assert(placeholder + data_bytes(rs) + tables_bytes::<H>(rs, 256) =~= placeholder
                    + rest);
                lemma_splice_front(
                    self.initial@,
                    placeholder,
                    rest,
                    slots_bytes(directory::<H>(rs)),
                );
                assert(slots_bytes(directory::<H>(rs)) + rest =~= image::<H>(rs));
            }
        }
        Ok(())
    }

    /// Gives the sink back, flushed. Before finalization this fails with
    /// `WriterNotFinalized`.
    pub fn into_inner(self) -> (r: Result<W, Error>)
        ensures
            !self.finalized() ==> r == Err::<W, Error>(Error::WriterNotFinalized),
            self.finalized() && W::reliable_len() > 0 ==> r is Ok,
            self.finalized() ==> (r matches Err(e) ==> e is Io),
            r matches Ok(w) ==> w.bytes() == self.sink().bytes() && w.position()
                == self.sink().position(),
    {
        if !self.is_finalized {
            return Err(Error::WriterNotFinalized);
        }
        let mut writer = self.writer;
        match writer.flush() {
            Ok(()) => {},
            Err(e) => {
                return Err(Error::Io(e));
            },
        }
        Ok(writer)
    }
}

} // verus!
