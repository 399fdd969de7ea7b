//! The file format as mathematics: how records, slots and the directory are laid out
//! in bytes, and what a sequence of records is built into.

use vstd::prelude::*;
use vstd::bytes::{
    spec_u32_from_le_bytes, spec_u32_to_le_bytes, spec_u64_from_le_bytes, spec_u64_to_le_bytes,
};
use crate::hash::KeyHasher;

verus! {

/// The size of the directory in bytes: 256 entries of two 64-bit integers each.
pub const HEADER_SIZE: u64 = 256 * 8 * 2;

/// The eight bytes of two 32-bit integers, little-endian.
pub open spec fn u32_pair_bytes(first: u32, second: u32) -> Seq<u8> {
    spec_u32_to_le_bytes(first) + spec_u32_to_le_bytes(second)
}

/// The sixteen bytes of two 64-bit integers, little-endian.
pub open spec fn u64_pair_bytes(first: u64, second: u64) -> Seq<u8> {
    spec_u64_to_le_bytes(first) + spec_u64_to_le_bytes(second)
}

/// The two 32-bit integers that the eight bytes of `s` from `offset` on encode.
pub open spec fn u32_pair_at(s: Seq<u8>, offset: int) -> (u32, u32) {
    (
        spec_u32_from_le_bytes(s.subrange(offset, offset + 4)),
        spec_u32_from_le_bytes(s.subrange(offset + 4, offset + 8)),
    )
}

/// The two 64-bit integers that the sixteen bytes of `s` from `offset` on encode.
pub open spec fn u64_pair_at(s: Seq<u8>, offset: int) -> (u64, u64) {
    (
        spec_u64_from_le_bytes(s.subrange(offset, offset + 8)),
        spec_u64_from_le_bytes(s.subrange(offset + 8, offset + 16)),
    )
}

/// A key and the value bound to it.
pub type Record = (Seq<u8>, Seq<u8>);

/// A stored hash and the offset of the record it belongs to; both zero in an empty slot.
pub type Slot = (u64, u64);

/// The number of bytes a record occupies: its header, its key and its value.
pub open spec fn record_len(r: Record) -> nat {
    8 + r.0.len() + r.1.len()
}

/// A record on disk: key length, value length, key, value.
pub open spec fn record_bytes(r: Record) -> Seq<u8> {
    u32_pair_bytes(r.0.len() as u32, r.1.len() as u32) + r.0 + r.1
}

/// The total size of the records `rs` on disk.
pub open spec fn data_len(rs: Seq<Record>) -> nat
    decreases rs.len(),
{
    if rs.len() == 0 {
        0
    } else {
        data_len(rs.drop_last()) + record_len(rs.last())
    }
}

/// The data region: the records `rs` one after the other.
pub open spec fn data_bytes(rs: Seq<Record>) -> Seq<u8>
    decreases rs.len(),
{
    if rs.len() == 0 {
        Seq::empty()
    } else {
        data_bytes(rs.drop_last()) + record_bytes(rs.last())
    }
}

/// The offset in the file at which record `i` of `rs` begins.
pub open spec fn record_offset(rs: Seq<Record>, i: int) -> nat {
    HEADER_SIZE as nat + data_len(rs.take(i))
}

/// The subtable that a hash selects: its low byte.
pub open spec fn table_index(hash: u64) -> int {
    (hash & 0xff) as int
}

/// The slot at which probing for a hash starts in a slot array of `len` slots.
pub open spec fn start_slot(hash: u64, len: int) -> int {
    ((hash >> 8) as int) % len
}

/// The slot inspected at step `i` of a probe that started at `start`.
pub open spec fn probe_slot(start: int, i: int, len: int) -> int {
    (start + i) % len
}

/// A probe that has not gone round inspects the slot `i` behind its start, one that has
/// the slot that many behind the front.
pub proof fn lemma_probe_slot(start: int, i: int, len: int)
    requires
        0 <= start < len,
        0 <= i < len,
    ensures
        probe_slot(start, i, len) == if i < len - start {
            start + i
        } else {
            i - (len - start)
        },
{
    if i < len - start {
        vstd::arithmetic::div_mod::lemma_small_mod((start + i) as nat, len as nat);
    } else {
        vstd::arithmetic::div_mod::lemma_small_mod((start + i - len) as nat, len as nat);
        vstd::arithmetic::div_mod::lemma_mod_add_multiples_vanish(start + i - len, len);
    }
}

/// The entries of subtable `t`: hash and offset of each record of `rs` whose hash selects
/// `t`, in the order of `rs`.
pub open spec fn entries<H: KeyHasher>(rs: Seq<Record>, t: int) -> Seq<Slot>
    decreases rs.len(),
{
    if rs.len() == 0 {
        Seq::empty()
    } else {
        let before = entries::<H>(rs.drop_last(), t);
        let hash = H::spec_hash(rs.last().0);
        if table_index(hash) == t {
            before.push((hash, (HEADER_SIZE as nat + data_len(rs.drop_last())) as u64))
        } else {
            before
        }
    }
}

/// A slot array of `n` empty slots.
pub open spec fn empty_slots(n: nat) -> Seq<Slot> {
    Seq::new(n, |i: int| (0u64, 0u64))
}

/// The first slot with a zero offset met from step `i` on by a probe that started at
/// `start`; `start` itself if the probe has gone round without meeting one.
pub open spec fn free_slot(slots: Seq<Slot>, start: int, i: nat) -> int
    decreases slots.len() - i,
{
    if i >= slots.len() {
        start
    } else if slots[probe_slot(start, i as int, slots.len() as int)].1 == 0 {
        probe_slot(start, i as int, slots.len() as int)
    } else {
        free_slot(slots, start, i + 1)
    }
}

/// The slot array after `e` has been put into the first free slot on its probe sequence.
pub open spec fn place(slots: Seq<Slot>, e: Slot) -> Seq<Slot> {
    slots.update(free_slot(slots, start_slot(e.0, slots.len() as int), 0), e)
}

/// The slot array after the entries `es` have been placed one by one, in order.
pub open spec fn place_all(slots: Seq<Slot>, es: Seq<Slot>) -> Seq<Slot>
    decreases es.len(),
{
    if es.len() == 0 {
        slots
    } else {
        place(place_all(slots, es.drop_last()), es.last())
    }
}

/// The slot array of a subtable with the entries `es`: twice as many slots as entries.
pub open spec fn slot_table(es: Seq<Slot>) -> Seq<Slot> {
    place_all(empty_slots(2 * es.len()), es)
}

/// Slots on disk, sixteen bytes each.
pub open spec fn slots_bytes(slots: Seq<Slot>) -> Seq<u8>
    decreases slots.len(),
{
    if slots.len() == 0 {
        Seq::empty()
    } else {
        slots_bytes(slots.drop_last()) + u64_pair_bytes(slots.last().0, slots.last().1)
    }
}

/// The size on disk of the slot arrays of the subtables below `t`.
pub open spec fn tables_len<H: KeyHasher>(rs: Seq<Record>, t: nat) -> nat
    decreases t,
{
    if t == 0 {
        0
    } else {
        tables_len::<H>(rs, (t - 1) as nat) + 32 * entries::<H>(rs, t - 1).len()
    }
}

/// The slot arrays of the subtables below `t`, one after the other; an empty subtable
/// has none.
pub open spec fn tables_bytes<H: KeyHasher>(rs: Seq<Record>, t: nat) -> Seq<u8>
    decreases t,
{
    if t == 0 {
        Seq::empty()
    } else {
        tables_bytes::<H>(rs, (t - 1) as nat) + slots_bytes(slot_table(entries::<H>(rs, t - 1)))
    }
}

/// The offset at which the slot array of subtable `t` begins.
pub open spec fn table_offset<H: KeyHasher>(rs: Seq<Record>, t: int) -> nat {
    HEADER_SIZE as nat + data_len(rs) + tables_len::<H>(rs, t as nat)
}

/// The directory entry of subtable `t`: offset and number of slots, both zero for an
/// empty subtable.
pub open spec fn directory_entry<H: KeyHasher>(rs: Seq<Record>, t: int) -> Slot {
    let n = entries::<H>(rs, t).len();
    if n == 0 {
        (0, 0)
    } else {
        (table_offset::<H>(rs, t) as u64, (2 * n) as u64)
    }
}

/// The directory of a database built from `rs`.
pub open spec fn directory<H: KeyHasher>(rs: Seq<Record>) -> Seq<Slot> {
    Seq::new(256, |t: int| directory_entry::<H>(rs, t))
}

/// The whole file built from `rs`: directory, data region, slot arrays.
pub open spec fn image<H: KeyHasher>(rs: Seq<Record>) -> Seq<u8> {
    slots_bytes(directory::<H>(rs)) + data_bytes(rs) + tables_bytes::<H>(rs, 256)
}

/// The size of the file built from `rs`: every record takes two slots.
pub open spec fn image_len(rs: Seq<Record>) -> nat {
    HEADER_SIZE as nat + data_len(rs) + 32 * rs.len()
}

/// Whether a record of the given key and value lengths can be added behind `rs`: both
/// lengths fit the 32-bit header fields, the file stays addressable by 64-bit offsets and
/// a slot array can be held in memory.
pub open spec fn fits(rs: Seq<Record>, key_len: nat, value_len: nat) -> bool {
    &&& key_len <= u32::MAX
    &&& value_len <= u32::MAX
    &&& image_len(rs) + 40 + key_len + value_len <= u64::MAX
    &&& 2 * (rs.len() + 1) <= usize::MAX
}

/// Whether `rs` can be built record by record.
pub open spec fn buildable(rs: Seq<Record>) -> bool
    decreases rs.len(),
{
    rs.len() > 0 ==> buildable(rs.drop_last()) && fits(
        rs.drop_last(),
        rs.last().0.len(),
        rs.last().1.len(),
    )
}

/// The subtable that a hash selects is one of the 256.
pub proof fn lemma_table_index_range(hash: u64)
    ensures
        0 <= table_index(hash) < 256,
{
    assert(hash & 0xff < 256) by (bit_vector);
}

/// Adding a record adds an entry to the subtable that its hash selects and to no other.
pub proof fn lemma_entries_push<H: KeyHasher>(rs: Seq<Record>, r: Record, t: int)
    ensures
        entries::<H>(rs.push(r), t) == if table_index(H::spec_hash(r.0)) == t {
            entries::<H>(rs, t).push(
                (H::spec_hash(r.0), (HEADER_SIZE as nat + data_len(rs)) as u64),
            )
        } else {
            entries::<H>(rs, t)
        },
{
    assert(rs.push(r).drop_last() =~= rs);
}

/// Records that can be built make a file that stays addressable, and so do the records
/// before the last.
pub proof fn lemma_buildable(rs: Seq<Record>)
    requires
        buildable(rs),
    ensures
        image_len(rs) <= u64::MAX,
        2 * rs.len() <= usize::MAX,
        forall|i: int|
            0 <= i < rs.len() ==> (#[trigger] rs[i]).0.len() <= u32::MAX && rs[i].1.len()
                <= u32::MAX,
    decreases rs.len(),
{
    if rs.len() > 0 {
        lemma_buildable(rs.drop_last());
        assert forall|i: int| 0 <= i < rs.len() implies (#[trigger] rs[i]).0.len() <= u32::MAX
            && rs[i].1.len() <= u32::MAX by {
            if i < rs.len() - 1 {
                assert(rs[i] == rs.drop_last()[i]);
            }
        }
    }
}

/// The data region takes as many bytes as `data_len` says.
pub proof fn lemma_data_bytes_len(rs: Seq<Record>)
    ensures
        data_bytes(rs).len() == data_len(rs),
    decreases rs.len(),
{
    vstd::bytes::lemma_auto_spec_u32_to_from_le_bytes();
    if rs.len() > 0 {
        lemma_data_bytes_len(rs.drop_last());
    }
}

/// A slot array on disk takes sixteen bytes for each slot.
pub proof fn lemma_slots_bytes_len(slots: Seq<Slot>)
    ensures
        slots_bytes(slots).len() == 16 * slots.len(),
    decreases slots.len(),
{
    vstd::bytes::lemma_auto_spec_u64_to_from_le_bytes();
    if slots.len() > 0 {
        lemma_slots_bytes_len(slots.drop_last());
    }
}

/// A probe for a free slot stays inside the slot array.
pub proof fn lemma_free_slot_range(slots: Seq<Slot>, start: int, i: nat)
    requires
        0 <= start < slots.len(),
    ensures
        0 <= free_slot(slots, start, i) < slots.len(),
    decreases slots.len() - i,
{
    if i < slots.len() {
        vstd::arithmetic::div_mod::lemma_mod_pos_bound(start + i, slots.len() as int);
        lemma_free_slot_range(slots, start, i + 1);
    }
}

/// Placing entries keeps the number of slots.
pub proof fn lemma_place_all_len(slots: Seq<Slot>, es: Seq<Slot>)
    requires
        slots.len() > 0 || es.len() == 0,
    ensures
        place_all(slots, es).len() == slots.len(),
    decreases es.len(),
{
    if es.len() > 0 {
        lemma_place_all_len(slots, es.drop_last());
        let before = place_all(slots, es.drop_last());
        vstd::arithmetic::div_mod::lemma_mod_pos_bound(
            (es.last().0 >> 8) as int,
            before.len() as int,
        );
        lemma_free_slot_range(before, start_slot(es.last().0, before.len() as int), 0);
    }
}

/// A slot array has twice as many slots as the subtable has entries.
pub proof fn lemma_slot_table_len(es: Seq<Slot>)
    ensures
        slot_table(es).len() == 2 * es.len(),
{
    lemma_place_all_len(empty_slots(2 * es.len()), es);
}

/// Without records no subtable has a slot array.
proof fn lemma_tables_len_empty<H: KeyHasher>(t: nat)
    ensures
        tables_len::<H>(Seq::empty(), t) == 0,
    decreases t,
{
    if t > 0 {
        lemma_tables_len_empty::<H>((t - 1) as nat);
    }
}

/// A record adds two slots to the subtable that its hash selects.
proof fn lemma_tables_len_push<H: KeyHasher>(rs: Seq<Record>, r: Record, t: nat)
    ensures
        tables_len::<H>(rs.push(r), t) == tables_len::<H>(rs, t) + if table_index(
            H::spec_hash(r.0),
        ) < t {
            32nat
        } else {
            0nat
        },
    decreases t,
{
    lemma_table_index_range(H::spec_hash(r.0));
    if t > 0 {
        lemma_tables_len_push::<H>(rs, r, (t - 1) as nat);
        lemma_entries_push::<H>(rs, r, t - 1);
    }
}

/// The slot arrays of the subtables below `t` hold two slots for each record whose hash
/// selects one of them, so never more than two for each record.
pub proof fn lemma_tables_len_bound<H: KeyHasher>(rs: Seq<Record>, t: nat)
    ensures
        tables_len::<H>(rs, t) <= 32 * rs.len(),
        t >= 256 ==> tables_len::<H>(rs, t) == 32 * rs.len(),
    decreases rs.len(),
{
    if rs.len() == 0 {
        assert(rs =~= Seq::<Record>::empty());
        lemma_tables_len_empty::<H>(t);
    } else {
        let before = rs.drop_last();
        lemma_tables_len_bound::<H>(before, t);
        assert(before.push(rs.last()) =~= rs);
        lemma_tables_len_push::<H>(before, rs.last(), t);
        lemma_table_index_range(H::spec_hash(rs.last().0));
    }
}

/// The slot arrays of the subtables below `t` take as many bytes as `tables_len` says.
pub proof fn lemma_tables_bytes_len<H: KeyHasher>(rs: Seq<Record>, t: nat)
    ensures
        tables_bytes::<H>(rs, t).len() == tables_len::<H>(rs, t),
    decreases t,
{
    if t > 0 {
        lemma_tables_bytes_len::<H>(rs, (t - 1) as nat);
        lemma_slot_table_len(entries::<H>(rs, t - 1));
        lemma_slots_bytes_len(slot_table(entries::<H>(rs, t - 1)));
    }
}

/// The file takes as many bytes as `image_len` says.
pub proof fn lemma_image_len<H: KeyHasher>(rs: Seq<Record>)
    ensures
        image::<H>(rs).len() == image_len(rs),
        slots_bytes(directory::<H>(rs)).len() == HEADER_SIZE,
{
    lemma_slots_bytes_len(directory::<H>(rs));
    lemma_data_bytes_len(rs);
    lemma_tables_bytes_len::<H>(rs, 256);
    lemma_tables_len_bound::<H>(rs, 256);
}

/// Every entry of a subtable stands for a record of the subtable: it carries the hash
/// of the record's key, which selects the subtable, and the offset of the record, which
/// lies behind the directory.
pub proof fn lemma_entry_record<H: KeyHasher>(rs: Seq<Record>, t: int, m: int) -> (i: int)
    requires
        image_len(rs) <= u64::MAX,
        0 <= m < entries::<H>(rs, t).len(),
    ensures
        0 <= i < rs.len(),
        table_index(H::spec_hash(rs[i].0)) == t,
        entries::<H>(rs, t)[m] == (H::spec_hash(rs[i].0), record_offset(rs, i) as u64),
        HEADER_SIZE <= record_offset(rs, i) <= u64::MAX,
        entries::<H>(rs, t)[m].1 != 0,
    decreases rs.len(),
{
    let before = rs.drop_last();
    if table_index(H::spec_hash(rs.last().0)) == t && m == entries::<H>(before, t).len() {
        assert(rs.take(rs.len() - 1) =~= before);
        rs.len() - 1
    } else {
        let i = lemma_entry_record::<H>(before, t, m);
        assert(before.take(i) =~= rs.take(i));
        i
    }
}

/// The entries of a subtable have offsets other than zero, and there are no more of
/// them than records.
pub proof fn lemma_entry_offsets<H: KeyHasher>(rs: Seq<Record>, t: int)
    requires
        image_len(rs) <= u64::MAX,
    ensures
        entries::<H>(rs, t).len() <= rs.len(),
        forall|m: int|
            0 <= m < entries::<H>(rs, t).len() ==> (#[trigger] entries::<H>(rs, t)[m]).1 != 0,
    decreases rs.len(),
{
    if rs.len() > 0 {
        lemma_entry_offsets::<H>(rs.drop_last(), t);
    }
    assert forall|m: int| 0 <= m < entries::<H>(rs, t).len() implies (#[trigger] entries::<H>(
        rs,
        t,
    )[m]).1 != 0 by {
        lemma_entry_record::<H>(rs, t, m);
    }
}

} // verus!
