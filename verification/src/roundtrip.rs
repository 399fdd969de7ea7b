//! What a reader finds in a file that the builder wrote.

use vstd::prelude::*;
use crate::cdb::Cdb;
use crate::decode::{
    bounded_upto, data_end, least_bound_upto, lookup, record_at, records_from, value_at,
};
use crate::error::ErrorKind;
use crate::format::{
    buildable, data_bytes, data_len, directory, entries, image, image_len, lemma_buildable,
    lemma_data_bytes_len, lemma_entry_offsets, lemma_entry_record, lemma_image_len,
    lemma_slot_table_len, lemma_table_index_range, lemma_tables_len_bound, record_bytes,
    record_offset, slot_table, table_index, tables_len, Record, HEADER_SIZE,
};
use crate::hash::KeyHasher;
use crate::iterator::CdbIterator;
use crate::layout::{
    compared, holds_at, lemma_directory_decoded, lemma_holds_concat, lemma_image_parts,
    lemma_record_at_record, lemma_record_held, lemma_table_held, lemma_value_at_record,
};
use crate::probing::{
    entries_point, first_value, lemma_first_value, lemma_placed, lemma_probe_first,
};
use crate::sink::{lemma_splice_prefix, WriteSeek};
use crate::util::ReaderAt;
use crate::writer::CdbWriter;

verus! {

/// The records of `rs` whose hash selects subtable `t`, in the order of `rs`.
pub open spec fn table_records<H: KeyHasher>(rs: Seq<Record>, t: int) -> Seq<Record>
    decreases rs.len(),
{
    if rs.len() == 0 {
        Seq::empty()
    } else if table_index(H::spec_hash(rs.last().0)) == t {
        table_records::<H>(rs.drop_last(), t).push(rs.last())
    } else {
        table_records::<H>(rs.drop_last(), t)
    }
}

/// In bytes that hold the data region of `rs`, the entries of the subtable that the
/// hash of `key` selects point to the records of that subtable, and the first of those
/// with the key `key` is the first of all records with that key.
pub proof fn lemma_entries_point<H: KeyHasher>(
    s: Seq<u8>,
    zero_copy: bool,
    rs: Seq<Record>,
    key: Seq<u8>,
)
    requires
        holds_at(s, HEADER_SIZE as int, data_bytes(rs)),
        buildable(rs),
    ensures
        entries_point(
            s,
            zero_copy,
            entries::<H>(rs, table_index(H::spec_hash(key))),
            table_records::<H>(rs, table_index(H::spec_hash(key))),
            H::spec_hash(key),
            key,
        ),
        first_value(table_records::<H>(rs, table_index(H::spec_hash(key))), key) == first_value(
            rs,
            key,
        ),
    decreases rs.len(),
{
    let t = table_index(H::spec_hash(key));
    if rs.len() > 0 {
        let before = rs.drop_last();
        let last = rs.last();
        lemma_buildable(rs);
        lemma_data_bytes_len(before);
        lemma_holds_concat(s, HEADER_SIZE as int, data_bytes(before), record_bytes(last));
        lemma_entries_point::<H>(s, zero_copy, before, key);
        if table_index(H::spec_hash(last.0)) == t {
            let es = entries::<H>(rs, t);
            let recs = table_records::<H>(rs, t);
            assert(recs.drop_last() =~= table_records::<H>(before, t));
            lemma_value_at_record(s, zero_copy, HEADER_SIZE + data_len(before), last, key);
            assert forall|m: int| 0 <= m < es.len() implies {
                &&& (#[trigger] es[m]).1 != 0
                &&& recs[m].0 == key ==> es[m].0 == H::spec_hash(key)
                &&& value_at(s, zero_copy, es[m].1 as int, key) == compared(recs[m], key)
            } by {
                if m < es.len() - 1 {
                    assert(es[m] == entries::<H>(before, t)[m]);
                    assert(recs[m] == table_records::<H>(before, t)[m]);
                }
            }
        }
    }
}

/// The directory entry of a subtable with entries says where its slot array lies: behind
/// the data region and the slot arrays of the subtables before it.
pub proof fn lemma_directory_entry<H: KeyHasher>(rs: Seq<Record>, t: int)
    requires
        buildable(rs),
        0 <= t < 256,
        entries::<H>(rs, t).len() > 0,
    ensures
        directory::<H>(rs)[t].0 == HEADER_SIZE + data_len(rs) + tables_len::<H>(rs, t as nat),
        directory::<H>(rs)[t].1 == 2 * entries::<H>(rs, t).len(),
        tables_len::<H>(rs, t as nat) + 32 * entries::<H>(rs, t).len() <= 32 * rs.len(),
{
    lemma_buildable(rs);
    lemma_tables_len_bound::<H>(rs, t as nat);
    lemma_tables_len_bound::<H>(rs, (t + 1) as nat);
}

/// A lookup in bytes that begin with the file built from `rs` finds the value of the
/// first record of `rs` with the key, or nothing if there is none.
pub proof fn lemma_lookup_built<H: KeyHasher>(
    s: Seq<u8>,
    zero_copy: bool,
    rs: Seq<Record>,
    key: Seq<u8>,
)
    requires
        image::<H>(rs).is_prefix_of(s),
        buildable(rs),
    ensures
        lookup::<H>(s, zero_copy, directory::<H>(rs), key) == Ok::<Option<Seq<u8>>, ErrorKind>(
            first_value(rs, key),
        ),
{
    let hash = H::spec_hash(key);
    let t = table_index(hash);
    lemma_table_index_range(hash);
    lemma_image_parts::<H>(s, rs);
    lemma_entries_point::<H>(s, zero_copy, rs, key);
    let es = entries::<H>(rs, t);
    let recs = table_records::<H>(rs, t);
    if es.len() == 0 {
        assert(recs =~= Seq::<Record>::empty());
    } else {
        lemma_directory_entry::<H>(rs, t);
        lemma_table_held::<H>(s, HEADER_SIZE + data_len(rs), rs, 256, t);
        lemma_probe_first(s, zero_copy, directory::<H>(rs)[t], es, recs, hash, key);
    }
}

/// The data region of a built file ends where the directory says the first slot array
/// begins.
pub proof fn lemma_data_end_built<H: KeyHasher>(rs: Seq<Record>)
    requires
        buildable(rs),
    ensures
        data_end(directory::<H>(rs)) == HEADER_SIZE + data_len(rs),
{
    lemma_buildable(rs);
    lemma_bounds_upto::<H>(rs, 256);
    lemma_tables_len_bound::<H>(rs, 256);
}

/// Among the first `n` directory entries of a built file, one bounds the data region
/// exactly if one of those subtables has entries, and the least bound is then the end of
/// the data region.
proof fn lemma_bounds_upto<H: KeyHasher>(rs: Seq<Record>, n: nat)
    requires
        buildable(rs),
        n <= 256,
    ensures
        bounded_upto(directory::<H>(rs), n) <==> tables_len::<H>(rs, n) > 0,
        bounded_upto(directory::<H>(rs), n) ==> least_bound_upto(directory::<H>(rs), n)
            == HEADER_SIZE + data_len(rs),
        !bounded_upto(directory::<H>(rs), n) ==> least_bound_upto(directory::<H>(rs), n)
            == u64::MAX,
    decreases n,
{
    if n > 0 {
        lemma_buildable(rs);
        lemma_bounds_upto::<H>(rs, (n - 1) as nat);
        if entries::<H>(rs, n - 1).len() > 0 {
            lemma_directory_entry::<H>(rs, n - 1);
        }
    }
}

/// A walk over bytes that begin with the file built from `rs`, from record `i` on, to
/// the end of the data region, yields the records of `rs` from `i` on.
pub proof fn lemma_walk_from<H: KeyHasher>(s: Seq<u8>, zero_copy: bool, rs: Seq<Record>, i: int)
    requires
        image::<H>(rs).is_prefix_of(s),
        buildable(rs),
        0 <= i <= rs.len(),
    ensures
        records_from(
            s,
            zero_copy,
            record_offset(rs, i) as int,
            HEADER_SIZE + data_len(rs),
        ) == rs.skip(i),
    decreases rs.len() - i,
{
    let end = HEADER_SIZE + data_len(rs);
    if i == rs.len() {
        assert(rs.take(i) =~= rs);
        assert(rs.skip(i) =~= Seq::<Record>::empty());
    } else {
        lemma_buildable(rs);
        lemma_image_parts::<H>(s, rs);
        lemma_record_held(s, HEADER_SIZE as int, rs, i);
        lemma_record_at_record(s, zero_copy, record_offset(rs, i) as int, end, rs[i]);
        assert(rs.take(i + 1).drop_last() =~= rs.take(i));
        lemma_walk_from::<H>(s, zero_copy, rs, i + 1);
        assert(rs.skip(i) =~= seq![rs[i]] + rs.skip(i + 1));
    }
}

/// A walk over bytes that begin with the file built from `rs` reads record `i` of `rs`
/// at its offset and arrives at the offset of the next.
pub proof fn lemma_walk_step<H: KeyHasher>(s: Seq<u8>, zero_copy: bool, rs: Seq<Record>, i: int)
    requires
        image::<H>(rs).is_prefix_of(s),
        buildable(rs),
        0 <= i < rs.len(),
    ensures
        record_offset(rs, i) < HEADER_SIZE + data_len(rs),
        record_at(s, zero_copy, record_offset(rs, i) as int, HEADER_SIZE + data_len(rs)) == Ok::<
            (Record, int),
            ErrorKind,
        >((rs[i], record_offset(rs, i + 1) as int)),
{
    lemma_buildable(rs);
    lemma_image_parts::<H>(s, rs);
    lemma_record_held(s, HEADER_SIZE as int, rs, i);
    lemma_record_at_record(
        s,
        zero_copy,
        record_offset(rs, i) as int,
        HEADER_SIZE + data_len(rs),
        rs[i],
    );
    assert(rs.take(i + 1).drop_last() =~= rs.take(i));
}

/// In a file built from `rs`, every slot of a slot array that is not empty carries a
/// hash that selects the array's subtable and points to a record that begins behind the
/// directory and ends no later than the data region, which ends where the first slot
/// array begins; and the array has at least twice as many slots as records whose hash
/// selects it.
pub proof fn lemma_slot_bounds<H: KeyHasher>(
    s: Seq<u8>,
    zero_copy: bool,
    rs: Seq<Record>,
    t: int,
    j: int,
)
    requires
        image::<H>(rs).is_prefix_of(s),
        buildable(rs),
        0 <= t < 256,
        0 <= j < slot_table(entries::<H>(rs, t)).len(),
        slot_table(entries::<H>(rs, t))[j] != (0u64, 0u64),
    ensures
        s.len() >= HEADER_SIZE,
        table_index(slot_table(entries::<H>(rs, t))[j].0) == t,
        HEADER_SIZE <= slot_table(entries::<H>(rs, t))[j].1 < data_end(directory::<H>(rs)),
        record_at(
            s,
            zero_copy,
            slot_table(entries::<H>(rs, t))[j].1 as int,
            data_end(directory::<H>(rs)) as int,
        ) is Ok,
        directory::<H>(rs)[t].0 >= data_end(directory::<H>(rs)),
        directory::<H>(rs)[t].1 == 2 * table_records::<H>(rs, t).len(),
{
    let es = entries::<H>(rs, t);
    lemma_buildable(rs);
    lemma_data_end_built::<H>(rs);
    lemma_image_parts::<H>(s, rs);
    lemma_entry_offsets::<H>(rs, t);
    lemma_slot_table_len(es);
    lemma_table_records_len::<H>(rs, t);
    let (pos, dist, owner) = lemma_placed(2 * es.len(), es);
    let m = owner[j];
    assert(pos[m] == j);
    let i = lemma_entry_record::<H>(rs, t, m);
    lemma_walk_step::<H>(s, zero_copy, rs, i);
    lemma_directory_entry::<H>(rs, t);
}

/// A subtable has as many entries as there are records whose hash selects it.
pub proof fn lemma_table_records_len<H: KeyHasher>(rs: Seq<Record>, t: int)
    ensures
        entries::<H>(rs, t).len() == table_records::<H>(rs, t).len(),
    decreases rs.len(),
{
    if rs.len() > 0 {
        lemma_table_records_len::<H>(rs.drop_last(), t);
    }
}

/// Whether `cdb` reads what the finalized builder `w` left in its sink.
pub open spec fn reopened<W: WriteSeek, R: ReaderAt, H: KeyHasher>(
    w: CdbWriter<W, H>,
    cdb: Cdb<R, H>,
) -> bool {
    &&& w.wf()
    &&& w.finalized()
    &&& w.intact()
    &&& cdb.wf()
    &&& cdb.source() == w.sink().bytes()
}

/// A database that was built and reopened begins with the file built from the records
/// that were added, and its directory is the directory of that file.
pub proof fn lemma_reopened<W: WriteSeek, R: ReaderAt, H: KeyHasher>(
    w: CdbWriter<W, H>,
    cdb: Cdb<R, H>,
)
    requires
        reopened(w, cdb),
    ensures
        buildable(w.records()),
        image::<H>(w.records()).is_prefix_of(cdb.source()),
        cdb.directory() == directory::<H>(w.records()),
{
    w.lemma_records_buildable();
    lemma_splice_prefix(w.initial(), image::<H>(w.records()));
    lemma_directory_decoded::<H>(cdb.source(), w.records());
}

/// After building and reopening, looking up a key finds the value of the first record
/// that was added with that key, and nothing if no record was added with it.
pub proof fn lemma_get_after_build<W: WriteSeek, R: ReaderAt, H: KeyHasher>(
    w: CdbWriter<W, H>,
    cdb: Cdb<R, H>,
    key: Seq<u8>,
)
    requires
        reopened(w, cdb),
    ensures
        lookup::<H>(cdb.source(), cdb.zero_copy(), cdb.directory(), key) == Ok::<
            Option<Seq<u8>>,
            ErrorKind,
        >(first_value(w.records(), key)),
{
    lemma_reopened(w, cdb);
    lemma_lookup_built::<H>(cdb.source(), cdb.zero_copy(), w.records(), key);
}

/// After building and reopening, looking up the key of a record before which no record
/// with the same key was added finds that record's value. Where all keys are unique
/// this is every record.
pub proof fn lemma_get_first_put<W: WriteSeek, R: ReaderAt, H: KeyHasher>(
    w: CdbWriter<W, H>,
    cdb: Cdb<R, H>,
    i: int,
)
    requires
        reopened(w, cdb),
        0 <= i < w.records().len(),
        forall|j: int| 0 <= j < i ==> (#[trigger] w.records()[j]).0 != w.records()[i].0,
    ensures
        lookup::<H>(cdb.source(), cdb.zero_copy(), cdb.directory(), w.records()[i].0) == Ok::<
            Option<Seq<u8>>,
            ErrorKind,
        >(Some(w.records()[i].1)),
{
    let key = w.records()[i].0;
    lemma_get_after_build(w, cdb, key);
    let first = lemma_first_value(w.records(), key);
    if first < i {
        assert(w.records()[first].0 != key);
    }
}

/// After building and reopening, looking up a key with which no record was added finds
/// nothing.
pub proof fn lemma_get_absent<W: WriteSeek, R: ReaderAt, H: KeyHasher>(
    w: CdbWriter<W, H>,
    cdb: Cdb<R, H>,
    key: Seq<u8>,
)
    requires
        reopened(w, cdb),
        forall|j: int| 0 <= j < w.records().len() ==> (#[trigger] w.records()[j]).0 != key,
    ensures
        lookup::<H>(cdb.source(), cdb.zero_copy(), cdb.directory(), key) == Ok::<
            Option<Seq<u8>>,
            ErrorKind,
        >(None),
{
    lemma_get_after_build(w, cdb, key);
    let first = lemma_first_value(w.records(), key);
}

/// After building and reopening, a fresh iterator has the records that were added still
/// to come, all of them and in the order in which they were added; so what it yields
/// and what was added are the same multiset.
pub proof fn lemma_iter_after_build<W: WriteSeek, R: ReaderAt, H: KeyHasher>(
    w: CdbWriter<W, H>,
    cdb: Cdb<R, H>,
    it: CdbIterator<R, H>,
)
    requires
        reopened(w, cdb),
        *it.cdb() == cdb,
        it.position() == HEADER_SIZE,
        it.end() == data_end(cdb.directory()),
        it.last_error() is None,
    ensures
        it.remaining() == w.records(),
        it.remaining().to_multiset() == w.records().to_multiset(),
{
    lemma_reopened(w, cdb);
    let rs = w.records();
    lemma_data_end_built::<H>(rs);
    lemma_walk_from::<H>(cdb.source(), cdb.zero_copy(), rs, 0);
    assert(rs.take(0) =~= Seq::<Record>::empty());
    assert(rs.skip(0) =~= rs);
}

/// After building and reopening, an iterator that stands at record `i` reads that
/// record, arrives at the next, and has the records from `i` on still to come; behind
/// the last record it stands at the end of the data region.
pub proof fn lemma_iter_step<W: WriteSeek, R: ReaderAt, H: KeyHasher>(
    w: CdbWriter<W, H>,
    cdb: Cdb<R, H>,
    it: CdbIterator<R, H>,
    i: int,
)
    requires
        reopened(w, cdb),
        *it.cdb() == cdb,
        it.end() == data_end(cdb.directory()),
        0 <= i <= w.records().len(),
        it.position() == record_offset(w.records(), i),
        it.last_error() is None,
    ensures
        it.remaining() == w.records().skip(i),
        i == w.records().len() <==> it.ended(),
        i < w.records().len() ==> record_at(
            cdb.source(),
            cdb.zero_copy(),
            it.position() as int,
            it.end() as int,
        ) == Ok::<(Record, int), ErrorKind>(
            (w.records()[i], record_offset(w.records(), i + 1) as int),
        ),
{
    lemma_reopened(w, cdb);
    let rs = w.records();
    lemma_buildable(rs);
    lemma_data_end_built::<H>(rs);
    lemma_walk_from::<H>(cdb.source(), cdb.zero_copy(), rs, i);
    if i < rs.len() {
        lemma_walk_step::<H>(cdb.source(), cdb.zero_copy(), rs, i);
    } else {
        assert(rs.take(i) =~= rs);
    }
}

/// Two finalized builders with the same hash to which the same records were added leave
/// the same file in their sinks: both sinks begin with it, a sink that held no more
/// bytes than the file takes holds nothing else, and sinks that held the same bytes
/// before hold the same bytes afterwards.
pub proof fn lemma_builds_agree<W1: WriteSeek, W2: WriteSeek, H: KeyHasher>(
    a: CdbWriter<W1, H>,
    b: CdbWriter<W2, H>,
)
    requires
        a.finalized() && a.intact(),
        b.finalized() && b.intact(),
        a.records() == b.records(),
    ensures
        image::<H>(a.records()).is_prefix_of(a.sink().bytes()),
        image::<H>(a.records()).is_prefix_of(b.sink().bytes()),
        a.initial().len() <= image_len(a.records()) ==> a.sink().bytes() == image::<H>(
            a.records(),
        ),
        a.initial() == b.initial() ==> a.sink().bytes() == b.sink().bytes(),
{
    let img = image::<H>(a.records());
    lemma_image_len::<H>(a.records());
    lemma_splice_prefix(a.initial(), img);
    lemma_splice_prefix(b.initial(), img);
    if a.initial().len() <= image_len(a.records()) {
        assert(a.sink().bytes() =~= img);
    }
}

} // verus!
