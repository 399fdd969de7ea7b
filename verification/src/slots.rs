//! Laying out the slot array of one subtable by linear probing.

use vstd::prelude::*;
use crate::format::{
    empty_slots, free_slot, lemma_probe_slot, place_all, probe_slot, slot_table, start_slot, Slot,
};

verus! {

/// The number of slots with a non-zero offset.
pub open spec fn used(slots: Seq<Slot>) -> nat
    decreases slots.len(),
{
    if slots.len() == 0 {
        0
    } else {
        used(slots.drop_last()) + if slots.last().1 != 0 {
            1nat
        } else {
            0nat
        }
    }
}

/// A slot array in which fewer slots are used than there are has a free one.
pub proof fn lemma_free_exists(slots: Seq<Slot>) -> (j: int)
    requires
        used(slots) < slots.len(),
    ensures
        0 <= j < slots.len(),
        slots[j].1 == 0,
    decreases slots.len(),
{
    if slots.last().1 == 0 {
        slots.len() - 1
    } else {
        lemma_free_exists(slots.drop_last())
    }
}

/// Filling a free slot with an entry of non-zero offset uses one slot more.
pub proof fn lemma_used_update(slots: Seq<Slot>, j: int, e: Slot)
    requires
        0 <= j < slots.len(),
        slots[j].1 == 0,
        e.1 != 0,
    ensures
        used(slots.update(j, e)) == used(slots) + 1,
    decreases slots.len(),
{
    let after = slots.update(j, e);
    if j == slots.len() - 1 {
        assert(after.drop_last() =~= slots.drop_last());
    } else {
        lemma_used_update(slots.drop_last(), j, e);
        assert(after.drop_last() =~= slots.drop_last().update(j, e));
    }
}

/// No slot of an empty slot array is used.
pub proof fn lemma_used_empty(n: nat)
    ensures
        used(empty_slots(n)) == 0,
    decreases n,
{
    if n > 0 {
        lemma_used_empty((n - 1) as nat);
        assert(empty_slots(n).drop_last() =~= empty_slots((n - 1) as nat));
    }
}

/// The step of a probe from `start` at which it inspects slot `j`.
pub open spec fn probe_step(start: int, j: int, len: int) -> int {
    if j >= start {
        j - start
    } else {
        j + len - start
    }
}

/// A probe inspects slot `j` at step `probe_step(start, j, len)`.
pub proof fn lemma_probe_step(start: int, j: int, len: int)
    requires
        0 <= start < len,
        0 <= j < len,
    ensures
        0 <= probe_step(start, j, len) < len,
        probe_slot(start, probe_step(start, j, len), len) == j,
{
    lemma_probe_slot(start, probe_step(start, j, len), len);
}

/// Builds the slot array of a subtable: twice as many slots as entries, each entry in
/// the first free slot on its probe sequence, in the order of the entries.
pub(crate) fn build_slots(entries: &Vec<Slot>) -> (slots: Vec<Slot>)
    requires
        entries@.len() > 0,
        2 * entries@.len() <= usize::MAX,
        forall|m: int| 0 <= m < entries@.len() ==> (#[trigger] entries@[m]).1 != 0,
    ensures
        slots@ == slot_table(entries@),
        slots@.len() == 2 * entries@.len(),
{
    let count = entries.len();
    let num_slots = count * 2;
    let mut slots: Vec<Slot> = Vec::new();
    while slots.len() < num_slots
        invariant
            slots@.len() <= num_slots,
            slots@ =~= empty_slots(slots@.len()),
        decreases num_slots - slots@.len(),
    {
        slots.push((0u64, 0u64));
    }
    proof {
        lemma_used_empty(num_slots as nat);
        assert(entries@.take(0) =~= Seq::<Slot>::empty());
    }
    let mut k: usize = 0;
    while k < count
        invariant
            k <= count,
            count == entries@.len(),
            num_slots == 2 * count,
            slots@.len() == num_slots,
            used(slots@) == k,
            slots@ == place_all(empty_slots(num_slots as nat), entries@.take(k as int)),
            forall|m: int| 0 <= m < entries@.len() ==> (#[trigger] entries@[m]).1 != 0,
        decreases count - k,
    {
        let entry = entries[k];
        let start = ((entry.0 >> 8) % (num_slots as u64)) as usize;
        let ghost free = lemma_free_exists(slots@);
        let ghost ahead = probe_step(start as int, free, num_slots as int);
        proof {
            lemma_probe_step(start as int, free, num_slots as int);
        }
        let mut slot_idx = start;
        let mut step: usize = 0;
        proof {
            lemma_probe_slot(start as int, 0, num_slots as int);
        }
        while slots[slot_idx].1 != 0
            invariant
                slots@.len() == num_slots,
                0 <= start < num_slots,
                step <= ahead < num_slots,
                slots@[probe_slot(start as int, ahead, num_slots as int)].1 == 0,
                slot_idx == probe_slot(start as int, step as int, num_slots as int),
                0 <= slot_idx < num_slots,
                free_slot(slots@, start as int, step as nat) == free_slot(slots@, start as int, 0),
            decreases ahead - step,
        {
            slot_idx = if slot_idx + 1 == num_slots {
                0
            } else {
                slot_idx + 1
            };
            step += 1;
            proof {
                lemma_probe_slot(start as int, step as int, num_slots as int);
                lemma_probe_slot(start as int, step - 1, num_slots as int);
            }
        }
        proof {
            assert(slot_idx == free_slot(slots@, start as int, 0));
            assert(start == start_slot(entry.0, slots@.len() as int));
            lemma_used_update(slots@, slot_idx as int, entry);
            assert(entries@.take(k + 1).drop_last() =~= entries@.take(k as int));
            assert(entries@.take(k + 1).last() == entry);
        }
        slots[slot_idx] = entry;
        k += 1;
    }
    proof {
        assert(entries@.take(k as int) =~= entries@);
    }
    slots
}

} // verus!
