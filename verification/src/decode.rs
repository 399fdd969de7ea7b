//! What a reader finds in the bytes of a file: the directory, the outcome of a lookup and
//! the records of the data region. Nothing here assumes that the bytes were written by
//! the builder.

use vstd::prelude::*;
use crate::error::ErrorKind;
use crate::format::{
    probe_slot, start_slot, table_index, u32_pair_at, u64_pair_at, Record, Slot, HEADER_SIZE,
};
use crate::hash::KeyHasher;

verus! {

/// The outcome of a lookup: the value found, or none, or the kind of failure.
pub type Lookup = Result<Option<Seq<u8>>, ErrorKind>;

/// The error reported where a key or a value would extend beyond the end of the bytes.
/// Decoding in place calls this invalid data; reading through a buffer runs into the end.
pub open spec fn overrun_kind(zero_copy: bool) -> ErrorKind {
    if zero_copy {
        ErrorKind::InvalidData
    } else {
        ErrorKind::UnexpectedEof
    }
}

/// The directory entry of subtable `t` that `s` encodes.
pub open spec fn directory_entry_at(s: Seq<u8>, t: int) -> Slot {
    u64_pair_at(s, 16 * t)
}

/// The 256 directory entries that the first 4096 bytes of `s` encode.
pub open spec fn directory_at(s: Seq<u8>) -> Seq<Slot> {
    Seq::new(256, |t: int| directory_entry_at(s, t))
}

/// The outcome of comparing the record at `offset` with `key`: its value if the record's
/// key is `key`, nothing if it is another key, an error if the header, the key or the
/// value extends beyond the end of `s`. A key or value of length zero is never read.
pub open spec fn value_at(s: Seq<u8>, zero_copy: bool, offset: int, key: Seq<u8>) -> Lookup {
    if offset + 8 > s.len() {
        Err(ErrorKind::UnexpectedEof)
    } else {
        let (key_len, value_len) = u32_pair_at(s, offset);
        let key_end = offset + 8 + key_len;
        if key_len != key.len() {
            Ok(None)
        } else if key_len > 0 && key_end > s.len() {
            Err(overrun_kind(zero_copy))
        } else if key_len > 0 && s.subrange(offset + 8, key_end) != key {
            Ok(None)
        } else if value_len == 0 {
            Ok(Some(Seq::empty()))
        } else if key_end + value_len > s.len() {
            Err(overrun_kind(zero_copy))
        } else {
            Ok(Some(s.subrange(key_end, key_end + value_len)))
        }
    }
}

/// The offset of the slot that step `i` of a probe for `hash` in the slot array `table`
/// inspects: the sixteen bytes there are what the probe reads at that step.
pub open spec fn slot_offset(table: Slot, hash: u64, i: nat) -> int {
    table.0 + 16 * probe_slot(start_slot(hash, table.1 as int), i as int, table.1 as int)
}

/// The outcome of probing the slot array `table` of `s` for `key` with hash `hash`, from
/// step `i` of the probe sequence on: an empty slot ends the search, a slot with the
/// hash is compared by key, and after as many steps as the array has slots the key is
/// not there.
pub open spec fn probe(
    s: Seq<u8>,
    zero_copy: bool,
    table: Slot,
    hash: u64,
    key: Seq<u8>,
    i: nat,
) -> Lookup
    decreases table.1 - i,
{
    if i >= table.1 {
        Ok(None)
    } else {
        let at = slot_offset(table, hash, i);
        if at + 16 > s.len() {
            Err(ErrorKind::UnexpectedEof)
        } else {
            let (slot_hash, data_offset) = u64_pair_at(s, at);
            if slot_hash == 0 && data_offset == 0 {
                Ok(None)
            } else if slot_hash == hash {
                match value_at(s, zero_copy, data_offset as int, key) {
                    Ok(None) => probe(s, zero_copy, table, hash, key, i + 1),
                    found_or_failed => found_or_failed,
                }
            } else {
                probe(s, zero_copy, table, hash, key, i + 1)
            }
        }
    }
}

/// The number of slots that a probe inspects from step `i` on.
pub open spec fn probe_visits(
    s: Seq<u8>,
    zero_copy: bool,
    table: Slot,
    hash: u64,
    key: Seq<u8>,
    i: nat,
) -> nat
    decreases table.1 - i,
{
    if i >= table.1 {
        0
    } else {
        let at = slot_offset(table, hash, i);
        if at + 16 > s.len() {
            1
        } else {
            let (slot_hash, data_offset) = u64_pair_at(s, at);
            if slot_hash == 0 && data_offset == 0 {
                1
            } else if slot_hash == hash && !(value_at(s, zero_copy, data_offset as int, key)
                == Ok::<Option<Seq<u8>>, ErrorKind>(None)) {
                1
            } else {
                1 + probe_visits(s, zero_copy, table, hash, key, i + 1)
            }
        }
    }
}

/// Whatever the bytes hold, a probe inspects no more slots than the subtable has.
pub proof fn lemma_probe_visits_bounded(
    s: Seq<u8>,
    zero_copy: bool,
    table: Slot,
    hash: u64,
    key: Seq<u8>,
    i: nat,
)
    ensures
        i <= table.1 ==> probe_visits(s, zero_copy, table, hash, key, i) <= table.1 - i,
        i > table.1 ==> probe_visits(s, zero_copy, table, hash, key, i) == 0,
    decreases table.1 - i,
{
    if i < table.1 {
        lemma_probe_visits_bounded(s, zero_copy, table, hash, key, i + 1);
    }
}

/// The outcome of looking `key` up in `s` under the directory `dir`.
pub open spec fn lookup<H: KeyHasher>(
    s: Seq<u8>,
    zero_copy: bool,
    dir: Seq<Slot>,
    key: Seq<u8>,
) -> Lookup {
    let hash = H::spec_hash(key);
    let table = dir[table_index(hash)];
    if table.1 == 0 {
        Ok(None)
    } else {
        probe(s, zero_copy, table, hash, key, 0)
    }
}

/// Whether a directory entry bounds the data region: a subtable with slots that begins
/// behind the directory.
pub open spec fn bounds_data(entry: Slot) -> bool {
    entry.1 > 0 && entry.0 >= HEADER_SIZE
}

/// Whether one of the first `n` directory entries bounds the data region.
pub open spec fn bounded_upto(dir: Seq<Slot>, n: nat) -> bool
    decreases n,
{
    n > 0 && (bounds_data(dir[n - 1]) || bounded_upto(dir, (n - 1) as nat))
}

/// The smallest offset among those of the first `n` directory entries that bound the
/// data region; the largest 64-bit value if none does.
pub open spec fn least_bound_upto(dir: Seq<Slot>, n: nat) -> u64
    decreases n,
{
    if n == 0 {
        u64::MAX
    } else {
        let before = least_bound_upto(dir, (n - 1) as nat);
        if bounds_data(dir[n - 1]) && dir[n - 1].0 < before {
            dir[n - 1].0
        } else {
            before
        }
    }
}

/// The end of the data region under the directory `dir`: where the first slot array
/// begins, or the end of the directory if there is none.
pub open spec fn data_end(dir: Seq<Slot>) -> u64 {
    if bounded_upto(dir, 256) {
        least_bound_upto(dir, 256)
    } else {
        HEADER_SIZE
    }
}

/// The record that begins at `pos` in a data region that ends at `end`, and the offset
/// behind it. A record that would extend beyond `end` is invalid data; a header, key or
/// value beyond the end of `s` is an error as well.
pub open spec fn record_at(s: Seq<u8>, zero_copy: bool, pos: int, end: int) -> Result<
    (Record, int),
    ErrorKind,
> {
    if pos + 8 > s.len() {
        Err(ErrorKind::UnexpectedEof)
    } else {
        let (key_len, value_len) = u32_pair_at(s, pos);
        let key_end = pos + 8 + key_len;
        let next = key_end + value_len;
        if next > end {
            Err(ErrorKind::InvalidData)
        } else if key_len > 0 && key_end > s.len() {
            Err(overrun_kind(zero_copy))
        } else if value_len > 0 && next > s.len() {
            Err(overrun_kind(zero_copy))
        } else {
            Ok(
                (
                    (
                        if key_len == 0 {
                            Seq::empty()
                        } else {
                            s.subrange(pos + 8, key_end)
                        },
                        if value_len == 0 {
                            Seq::empty()
                        } else {
                            s.subrange(key_end, next)
                        },
                    ),
                    next,
                ),
            )
        }
    }
}

/// The records that a walk over the data region yields from `pos` on, up to `end` or to
/// the first record that cannot be read.
pub open spec fn records_from(s: Seq<u8>, zero_copy: bool, pos: int, end: int) -> Seq<Record>
    decreases end - pos,
{
    if pos >= end {
        Seq::empty()
    } else {
        match record_at(s, zero_copy, pos, end) {
            Ok((record, next)) => seq![record] + records_from(s, zero_copy, next, end),
            Err(_) => Seq::empty(),
        }
    }
}

} // verus!
