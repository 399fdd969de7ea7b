//! Why a lookup finds what linear probing placed: the first entry with a key, in the
//! order in which the entries were placed.

use vstd::prelude::*;
use vstd::arithmetic::div_mod::lemma_mod_pos_bound;
use crate::decode::{probe, value_at};
use crate::error::ErrorKind;
use crate::format::{
    empty_slots, free_slot, lemma_place_all_len, lemma_probe_slot, place_all, probe_slot,
    slot_table, slots_bytes, start_slot, Record, Slot,
};
use crate::layout::{compared, holds_at, lemma_slot_held};
use crate::slots::{
    lemma_free_exists, lemma_probe_step, lemma_used_empty, lemma_used_update, probe_step, used,
};

verus! {

/// The value bound to `key` by the first record of `rs` with that key, if there is one.
pub open spec fn first_value(rs: Seq<Record>, key: Seq<u8>) -> Option<Seq<u8>>
    decreases rs.len(),
{
    if rs.len() == 0 {
        None
    } else {
        match first_value(rs.drop_last(), key) {
            Some(v) => Some(v),
            None => if rs.last().0 == key {
                Some(rs.last().1)
            } else {
                None
            },
        }
    }
}

/// The index of the first record of `rs` with the key `key`, or the length of `rs` if
/// there is none; `first_value` is the value of that record.
pub proof fn lemma_first_value(rs: Seq<Record>, key: Seq<u8>) -> (i: int)
    ensures
        0 <= i <= rs.len(),
        forall|j: int| 0 <= j < i ==> (#[trigger] rs[j]).0 != key,
        i < rs.len() ==> rs[i].0 == key && first_value(rs, key) == Some(rs[i].1),
        i == rs.len() ==> first_value(rs, key) is None,
    decreases rs.len(),
{
    if rs.len() == 0 {
        0
    } else {
        let i = lemma_first_value(rs.drop_last(), key);
        assert forall|j: int| 0 <= j < i implies (#[trigger] rs[j]).0 != key by {
            assert(rs[j] == rs.drop_last()[j]);
        }
        if i < rs.len() - 1 {
            i
        } else if rs.last().0 == key {
            rs.len() - 1
        } else {
            rs.len() as int
        }
    }
}

/// Where the entries `es` stand in the slot array `slots` that they were placed in:
/// entry `m` stands in slot `pos[m]`, which is step `dist[m]` of its probe sequence;
/// `owner[j]` is the entry in slot `j`, or -1 for an empty slot; and every slot that the
/// probe sequence of an entry passes before it reaches the entry holds an entry that
/// was placed earlier.
pub open spec fn placed(
    slots: Seq<Slot>,
    es: Seq<Slot>,
    pos: Seq<int>,
    dist: Seq<int>,
    owner: Seq<int>,
) -> bool {
    let n = slots.len() as int;
    &&& pos.len() == es.len()
    &&& dist.len() == es.len()
    &&& owner.len() == slots.len()
    &&& forall|m: int|
        #![trigger pos[m]]
        #![trigger dist[m]]
        0 <= m < es.len() ==> {
            &&& 0 <= dist[m] < n
            &&& pos[m] == probe_slot(start_slot(es[m].0, n), dist[m], n)
            &&& 0 <= pos[m] < n
            &&& slots[pos[m]] == es[m]
            &&& owner[pos[m]] == m
        }
    &&& forall|j: int|
        0 <= j < n ==> (#[trigger] owner[j] == -1 && slots[j] == (0u64, 0u64)) || (0 <= owner[j]
            < es.len() && pos[owner[j]] == j)
    &&& forall|m: int, d: int|
        0 <= m < es.len() && 0 <= d < dist[m] ==> 0 <= #[trigger] owner[probe_slot(
            start_slot(es[m].0, n),
            d,
            n,
        )] < m
}

/// The step at which a probe from `start`, now at step `i`, finds its free slot, given
/// that there is a free slot at step `ahead`: every slot it passes before is used.
pub proof fn lemma_free_slot_step(slots: Seq<Slot>, start: int, i: nat, ahead: nat) -> (d: nat)
    requires
        0 <= start < slots.len(),
        i <= ahead < slots.len(),
        slots[probe_slot(start, ahead as int, slots.len() as int)].1 == 0,
    ensures
        i <= d <= ahead,
        free_slot(slots, start, i) == probe_slot(start, d as int, slots.len() as int),
        0 <= free_slot(slots, start, i) < slots.len(),
        slots[free_slot(slots, start, i)].1 == 0,
        forall|k: int|
            i <= k < d ==> (#[trigger] slots[probe_slot(start, k, slots.len() as int)]).1 != 0,
    decreases ahead - i,
{
    lemma_probe_slot(start, i as int, slots.len() as int);
    if slots[probe_slot(start, i as int, slots.len() as int)].1 == 0 {
        i
    } else {
        lemma_free_slot_step(slots, start, i + 1, ahead)
    }
}

/// Entries of non-zero offset, fewer than there are slots, can all be placed, and
/// `placed` describes where they stand.
pub proof fn lemma_placed(n: nat, es: Seq<Slot>) -> (w: (Seq<int>, Seq<int>, Seq<int>))
    requires
        es.len() <= n,
        n > 0,
        forall|m: int| 0 <= m < es.len() ==> (#[trigger] es[m]).1 != 0,
    ensures
        place_all(empty_slots(n), es).len() == n,
        used(place_all(empty_slots(n), es)) == es.len(),
        placed(place_all(empty_slots(n), es), es, w.0, w.1, w.2),
    decreases es.len(),
{
    lemma_place_all_len(empty_slots(n), es);
    if es.len() == 0 {
        lemma_used_empty(n);
        (Seq::empty(), Seq::empty(), Seq::new(n, |j: int| -1int))
    } else {
        let before = es.drop_last();
        let e = es.last();
        let m = es.len() - 1;
        let (pos, dist, owner) = lemma_placed(n, before);
        let table = place_all(empty_slots(n), before);
        let start = start_slot(e.0, n as int);
        lemma_mod_pos_bound((e.0 >> 8) as int, n as int);
        let free = lemma_free_exists(table);
        lemma_probe_step(start, free, n as int);
        let d = lemma_free_slot_step(table, start, 0, probe_step(start, free, n as int) as nat);
        let p = free_slot(table, start, 0);
        let after = table.update(p, e);
        assert(after == place_all(empty_slots(n), es));
        lemma_used_update(table, p, e);
        let pos2 = pos.push(p);
        let dist2 = dist.push(d as int);
        let owner2 = owner.update(p, m);
        assert(owner[p] == -1);
        assert forall|k: int| #![trigger pos2[k]] #![trigger dist2[k]] 0 <= k < es.len() implies {
            &&& 0 <= dist2[k] < n
            &&& pos2[k] == probe_slot(start_slot(es[k].0, n as int), dist2[k], n as int)
            &&& 0 <= pos2[k] < n
            &&& after[pos2[k]] == es[k]
            &&& owner2[pos2[k]] == k
        } by {
            if k < m {
                assert(before[k] == es[k]);
                assert(dist[k] == dist2[k]);
                assert(pos[k] == pos2[k]);
                assert(table[pos[k]] == before[k]);
            }
        }
        assert forall|j: int| 0 <= j < n implies (#[trigger] owner2[j] == -1 && after[j] == (
            0u64,
            0u64,
        )) || (0 <= owner2[j] < es.len() && pos2[owner2[j]] == j) by {
            if j != p {
                assert(owner2[j] == owner[j]);
            }
        }
        assert forall|k: int, c: int| 0 <= k < es.len() && 0 <= c < dist2[k] implies 0
            <= #[trigger] owner2[probe_slot(start_slot(es[k].0, n as int), c, n as int)] < k by {
            let j = probe_slot(start_slot(es[k].0, n as int), c, n as int);
            if k < m {
                assert(before[k] == es[k]);
                assert(dist[k] == dist2[k]);
                assert(0 <= owner[j] < k);
            } else {
                lemma_mod_pos_bound(start + c, n as int);
                assert(table[probe_slot(start, c, n as int)].1 != 0);
                assert(owner[j] != -1);
            }
        }
        (pos2, dist2, owner2)
    }
}

/// Whether every entry of `es` points to the record of `recs` with its index, in the
/// bytes `s`: it carries `hash` if that record has the key `key`, and comparing the
/// record at its offset with `key` gives what comparing that record gives.
pub open spec fn entries_point(
    s: Seq<u8>,
    zero_copy: bool,
    es: Seq<Slot>,
    recs: Seq<Record>,
    hash: u64,
    key: Seq<u8>,
) -> bool {
    &&& es.len() == recs.len()
    &&& forall|m: int|
        0 <= m < es.len() ==> {
            &&& (#[trigger] es[m]).1 != 0
            &&& recs[m].0 == key ==> es[m].0 == hash
            &&& value_at(s, zero_copy, es[m].1 as int, key) == compared(recs[m], key)
        }
}

/// A probe that has not yet passed the first entry whose record has the key finds that
/// record's value.
pub proof fn lemma_probe_finds(
    s: Seq<u8>,
    zero_copy: bool,
    table: Slot,
    es: Seq<Slot>,
    recs: Seq<Record>,
    hash: u64,
    key: Seq<u8>,
    pos: Seq<int>,
    dist: Seq<int>,
    owner: Seq<int>,
    hit: int,
    i: nat,
)
    requires
        table.1 == slot_table(es).len(),
        table.1 > 0,
        holds_at(s, table.0 as int, slots_bytes(slot_table(es))),
        entries_point(s, zero_copy, es, recs, hash, key),
        placed(slot_table(es), es, pos, dist, owner),
        0 <= hit < es.len(),
        recs[hit].0 == key,
        forall|m: int| 0 <= m < hit ==> (#[trigger] recs[m]).0 != key,
        i <= dist[hit],
    ensures
        probe(s, zero_copy, table, hash, key, i) == Ok::<Option<Seq<u8>>, ErrorKind>(
            Some(recs[hit].1),
        ),
    decreases dist[hit] - i,
{
    let n = table.1 as int;
    let slots = slot_table(es);
    let start = start_slot(hash, n);
    let j = probe_slot(start, i as int, n);
    lemma_mod_pos_bound(start + i, n);
    lemma_slot_held(s, table.0 as int, slots, j);
    assert(es[hit].0 == hash);
    if i == dist[hit] {
        assert(j == pos[hit]);
        assert(slots[j] == es[hit]);
    } else {
        let m = owner[j];
        assert(0 <= m < hit);
        assert(pos[m] == j);
        assert(slots[j] == es[m]);
        assert(recs[m].0 != key);
        lemma_probe_finds(s, zero_copy, table, es, recs, hash, key, pos, dist, owner, hit, i + 1);
    }
}

/// A probe in a slot array none of whose records has the key finds nothing.
pub proof fn lemma_probe_misses(
    s: Seq<u8>,
    zero_copy: bool,
    table: Slot,
    es: Seq<Slot>,
    recs: Seq<Record>,
    hash: u64,
    key: Seq<u8>,
    pos: Seq<int>,
    dist: Seq<int>,
    owner: Seq<int>,
    i: nat,
)
    requires
        table.1 == slot_table(es).len(),
        table.1 > 0,
        holds_at(s, table.0 as int, slots_bytes(slot_table(es))),
        entries_point(s, zero_copy, es, recs, hash, key),
        placed(slot_table(es), es, pos, dist, owner),
        forall|m: int| 0 <= m < recs.len() ==> (#[trigger] recs[m]).0 != key,
    ensures
        probe(s, zero_copy, table, hash, key, i) == Ok::<Option<Seq<u8>>, ErrorKind>(None),
    decreases table.1 - i,
{
    let n = table.1 as int;
    let slots = slot_table(es);
    if i < table.1 {
        let start = start_slot(hash, n);
        let j = probe_slot(start, i as int, n);
        lemma_mod_pos_bound(start + i, n);
        lemma_slot_held(s, table.0 as int, slots, j);
        if owner[j] != -1 {
            let m = owner[j];
            assert(pos[m] == j);
            assert(slots[j] == es[m]);
            assert(recs[m].0 != key);
            lemma_probe_misses(s, zero_copy, table, es, recs, hash, key, pos, dist, owner, i + 1);
        }
    }
}

/// In a slot array held in `s` whose entries point to the records `recs`, a probe for
/// `key` finds the value of the first of those records with that key, or nothing if
/// there is none.
pub proof fn lemma_probe_first(
    s: Seq<u8>,
    zero_copy: bool,
    table: Slot,
    es: Seq<Slot>,
    recs: Seq<Record>,
    hash: u64,
    key: Seq<u8>,
)
    requires
        es.len() > 0,
        table.1 == 2 * es.len(),
        holds_at(s, table.0 as int, slots_bytes(slot_table(es))),
        entries_point(s, zero_copy, es, recs, hash, key),
    ensures
        probe(s, zero_copy, table, hash, key, 0) == Ok::<Option<Seq<u8>>, ErrorKind>(
            first_value(recs, key),
        ),
{
    let (pos, dist, owner) = lemma_placed(2 * es.len(), es);
    let hit = lemma_first_value(recs, key);
    if hit < recs.len() {
        assert(pos[hit] >= 0);
        lemma_probe_finds(s, zero_copy, table, es, recs, hash, key, pos, dist, owner, hit, 0);
    } else {
        lemma_probe_misses(s, zero_copy, table, es, recs, hash, key, pos, dist, owner, 0);
    }
}

} // verus!
