//! Where the parts of a built file lie in it, and what a reader decodes there.

use vstd::prelude::*;
use vstd::bytes::{lemma_auto_spec_u32_to_from_le_bytes, lemma_auto_spec_u64_to_from_le_bytes};
use crate::decode::{directory_at, directory_entry_at, record_at, value_at, Lookup};
use crate::error::ErrorKind;
use crate::format::{
    data_bytes, data_len, directory, entries, image, image_len, lemma_data_bytes_len,
    lemma_image_len, lemma_slots_bytes_len, lemma_tables_bytes_len, record_bytes, record_len,
    slot_table, slots_bytes, tables_bytes, tables_len, u32_pair_at, u32_pair_bytes, u64_pair_at,
    u64_pair_bytes, Record, Slot, HEADER_SIZE,
};
use crate::hash::KeyHasher;

verus! {

/// Whether `s` holds `part` at offset `base`.
pub open spec fn holds_at(s: Seq<u8>, base: int, part: Seq<u8>) -> bool {
    &&& 0 <= base
    &&& base + part.len() <= s.len()
    &&& s.subrange(base, base + part.len()) == part
}

/// A sequence that holds a concatenation holds both parts, the second behind the first.
pub proof fn lemma_holds_concat(s: Seq<u8>, base: int, a: Seq<u8>, b: Seq<u8>)
    requires
        holds_at(s, base, a + b),
    ensures
        holds_at(s, base, a),
        holds_at(s, base + a.len(), b),
{
    let whole = s.subrange(base, base + (a + b).len());
    assert(a =~= whole.subrange(0, a.len() as int));
    assert(b =~= whole.subrange(a.len() as int, (a + b).len() as int));
    assert(s.subrange(base, base + a.len()) =~= whole.subrange(0, a.len() as int));
    assert(s.subrange(base + a.len(), base + a.len() + b.len()) =~= whole.subrange(
        a.len() as int,
        (a + b).len() as int,
    ));
}

/// A sequence holds its prefix at offset 0.
pub proof fn lemma_holds_prefix(s: Seq<u8>, part: Seq<u8>)
    requires
        part.is_prefix_of(s),
    ensures
        holds_at(s, 0, part),
{
}

/// Where a pair of 64-bit integers is held, a reader decodes that pair.
pub proof fn lemma_u64_pair_held(s: Seq<u8>, base: int, first: u64, second: u64)
    requires
        holds_at(s, base, u64_pair_bytes(first, second)),
    ensures
        base + 16 <= s.len(),
        u64_pair_at(s, base) == (first, second),
{
    lemma_auto_spec_u64_to_from_le_bytes();
    lemma_holds_concat(
        s,
        base,
        vstd::bytes::spec_u64_to_le_bytes(first),
        vstd::bytes::spec_u64_to_le_bytes(second),
    );
}

/// Where a pair of 32-bit integers is held, a reader decodes that pair.
pub proof fn lemma_u32_pair_held(s: Seq<u8>, base: int, first: u32, second: u32)
    requires
        holds_at(s, base, u32_pair_bytes(first, second)),
    ensures
        base + 8 <= s.len(),
        u32_pair_at(s, base) == (first, second),
{
    lemma_auto_spec_u32_to_from_le_bytes();
    lemma_holds_concat(
        s,
        base,
        vstd::bytes::spec_u32_to_le_bytes(first),
        vstd::bytes::spec_u32_to_le_bytes(second),
    );
}

/// Where a slot array is held, each of its slots is held at sixteen times its index.
pub proof fn lemma_slot_held(s: Seq<u8>, base: int, slots: Seq<Slot>, j: int)
    requires
        holds_at(s, base, slots_bytes(slots)),
        0 <= j < slots.len(),
    ensures
        base + 16 * j + 16 <= s.len(),
        u64_pair_at(s, base + 16 * j) == slots[j],
    decreases slots.len(),
{
    let before = slots.drop_last();
    let last = u64_pair_bytes(slots.last().0, slots.last().1);
    lemma_slots_bytes_len(before);
    lemma_slots_bytes_len(slots);
    lemma_holds_concat(s, base, slots_bytes(before), last);
    if j == slots.len() - 1 {
        lemma_u64_pair_held(s, base + 16 * j, slots.last().0, slots.last().1);
    } else {
        lemma_slot_held(s, base, before, j);
    }
}

/// Where the data region is held, each record is held at its offset in the region.
pub proof fn lemma_record_held(s: Seq<u8>, base: int, rs: Seq<Record>, i: int)
    requires
        holds_at(s, base, data_bytes(rs)),
        0 <= i < rs.len(),
    ensures
        holds_at(s, base + data_len(rs.take(i)), record_bytes(rs[i])),
        data_len(rs.take(i)) + record_len(rs[i]) <= data_len(rs),
    decreases rs.len(),
{
    let before = rs.drop_last();
    lemma_data_bytes_len(before);
    lemma_data_bytes_len(rs);
    lemma_holds_concat(s, base, data_bytes(before), record_bytes(rs.last()));
    if i == rs.len() - 1 {
        assert(rs.take(i) =~= before);
    } else {
        lemma_record_held(s, base, before, i);
        assert(before.take(i) =~= rs.take(i));
    }
}

/// Where the slot arrays of the subtables below `n` are held, the slot array of each of
/// them is held behind those of the subtables before it.
pub proof fn lemma_table_held<H: KeyHasher>(s: Seq<u8>, base: int, rs: Seq<Record>, n: nat, t: int)
    requires
        holds_at(s, base, tables_bytes::<H>(rs, n)),
        0 <= t < n,
    ensures
        holds_at(
            s,
            base + tables_len::<H>(rs, t as nat),
            slots_bytes(slot_table(entries::<H>(rs, t))),
        ),
    decreases n,
{
    lemma_tables_bytes_len::<H>(rs, (n - 1) as nat);
    lemma_holds_concat(
        s,
        base,
        tables_bytes::<H>(rs, (n - 1) as nat),
        slots_bytes(slot_table(entries::<H>(rs, n - 1))),
    );
    if t < n - 1 {
        lemma_table_held::<H>(s, base, rs, (n - 1) as nat, t);
    }
}

/// The three parts of a file that `s` begins with: directory, data region, slot arrays.
pub proof fn lemma_image_parts<H: KeyHasher>(s: Seq<u8>, rs: Seq<Record>)
    requires
        image::<H>(rs).is_prefix_of(s),
    ensures
        holds_at(s, 0, slots_bytes(directory::<H>(rs))),
        holds_at(s, HEADER_SIZE as int, data_bytes(rs)),
        holds_at(s, HEADER_SIZE + data_len(rs), tables_bytes::<H>(rs, 256)),
        s.len() >= image_len(rs),
{
    lemma_image_len::<H>(rs);
    lemma_data_bytes_len(rs);
    lemma_holds_prefix(s, image::<H>(rs));
    let dir = slots_bytes(directory::<H>(rs));
    lemma_holds_concat(s, 0, dir + data_bytes(rs), tables_bytes::<H>(rs, 256));
    lemma_holds_concat(s, 0, dir, data_bytes(rs));
}

/// A file that begins with what was built from `rs` encodes the directory of `rs`.
pub proof fn lemma_directory_decoded<H: KeyHasher>(s: Seq<u8>, rs: Seq<Record>)
    requires
        image::<H>(rs).is_prefix_of(s),
    ensures
        directory_at(s) == directory::<H>(rs),
{
    lemma_image_parts::<H>(s, rs);
    let dir = directory::<H>(rs);
    assert forall|t: int| 0 <= t < 256 implies #[trigger] directory_entry_at(s, t) == dir[t] by {
        lemma_slot_held(s, 0, dir, t);
    }
    assert(directory_at(s) =~= dir);
}

/// What a lookup finds in a record of which it compares the key with `key`.
pub open spec fn compared(r: Record, key: Seq<u8>) -> Lookup {
    if r.0 == key {
        Ok(Some(r.1))
    } else {
        Ok(None)
    }
}

/// Where a record with lengths that fit the header is held, comparing it with a key
/// finds its value or another key, and never fails.
pub proof fn lemma_value_at_record(s: Seq<u8>, zero_copy: bool, at: int, r: Record, key: Seq<u8>)
    requires
        holds_at(s, at, record_bytes(r)),
        r.0.len() <= u32::MAX,
        r.1.len() <= u32::MAX,
    ensures
        value_at(s, zero_copy, at, key) == compared(r, key),
{
    lemma_auto_spec_u32_to_from_le_bytes();
    let head = u32_pair_bytes(r.0.len() as u32, r.1.len() as u32);
    lemma_holds_concat(s, at, head + r.0, r.1);
    lemma_holds_concat(s, at, head, r.0);
    lemma_u32_pair_held(s, at, r.0.len() as u32, r.1.len() as u32);
    if r.1.len() == 0 {
        assert(r.1 =~= Seq::<u8>::empty());
    }
    if r.0.len() == 0 {
        assert(r.0 =~= Seq::<u8>::empty());
        if key.len() == 0 {
            assert(key =~= Seq::<u8>::empty());
        }
    }
}

/// Where a record with lengths that fit the header is held inside the data region, a
/// walk reads that record and arrives behind it.
pub proof fn lemma_record_at_record(s: Seq<u8>, zero_copy: bool, at: int, end: int, r: Record)
    requires
        holds_at(s, at, record_bytes(r)),
        r.0.len() <= u32::MAX,
        r.1.len() <= u32::MAX,
        at + record_len(r) <= end,
    ensures
        record_at(s, zero_copy, at, end) == Ok::<(Record, int), ErrorKind>(
            (r, at + record_len(r)),
        ),
{
    lemma_auto_spec_u32_to_from_le_bytes();
    let head = u32_pair_bytes(r.0.len() as u32, r.1.len() as u32);
    lemma_holds_concat(s, at, head + r.0, r.1);
    lemma_holds_concat(s, at, head, r.0);
    lemma_u32_pair_held(s, at, r.0.len() as u32, r.1.len() as u32);
    if r.1.len() == 0 {
        assert(r.1 =~= Seq::<u8>::empty());
    }
    if r.0.len() == 0 {
        assert(r.0 =~= Seq::<u8>::empty());
    }
}

} // verus!
