//! The 64-bit DJB hash and the interface through which a database is keyed.

use vstd::prelude::*;
use crate::model::unconstrained;

verus! {

/// The initial state of the hash.
pub const CDB_HASH_START_VALUE: u64 = 5381;

/// One step of the hash: `state * 33` modulo 2^64, xor the byte.
pub open spec fn djb_step(state: u64, byte: u8) -> u64 {
    (((state * 33) % 0x1_0000_0000_0000_0000) as u64) ^ (byte as u64)
}

/// The state reached from `state` after absorbing `bytes` from left to right.
pub open spec fn djb_fold(state: u64, bytes: Seq<u8>) -> u64
    decreases bytes.len(),
{
    if bytes.len() == 0 {
        state
    } else {
        djb_step(djb_fold(state, bytes.drop_last()), bytes.last())
    }
}

/// The hash of a whole key, from the start value.
pub open spec fn djb_hash(key: Seq<u8>) -> u64 {
    djb_fold(CDB_HASH_START_VALUE, key)
}

/// Absorbing `a` and then `b` is absorbing their concatenation.
pub proof fn lemma_djb_fold_concat(state: u64, a: Seq<u8>, b: Seq<u8>)
    ensures
        djb_fold(djb_fold(state, a), b) == djb_fold(state, a + b),
    decreases b.len(),
{
    if b.len() == 0 {
        assert(a + b =~= a);
    } else {
        lemma_djb_fold_concat(state, a, b.drop_last());
        assert((a + b).drop_last() =~= a + b.drop_last());
        assert((a + b).last() == b.last());
    }
}

/// Every low byte is the low byte of the hash of some key: the key of the one byte
/// `low ^ 0xa5` has it. So the default hash reaches each of the 256 subtables.
pub proof fn lemma_every_low_byte_reached(low: u8)
    ensures
        djb_hash(seq![low ^ 0xa5]) & 0xff == low,
{
    let key = seq![low ^ 0xa5];
    assert(key.drop_last() =~= Seq::<u8>::empty());
    assert(djb_fold(CDB_HASH_START_VALUE, key.drop_last()) == CDB_HASH_START_VALUE);
    assert(key.last() == low ^ 0xa5);
    assert(((5381 * 33) % 0x1_0000_0000_0000_0000) as u64 == 177573u64);
    assert((177573u64 ^ ((low ^ 0xa5) as u64)) & 0xff == low as u64) by (bit_vector);
}

/// Shifting left by five is multiplying by 32 modulo 2^64.
proof fn lemma_step_bits(v: u64)
    ensures
        (v << 5) == ((v * 32) % 0x1_0000_0000_0000_0000) as u64,
{
    assert((v << 5) == ((v * 32) % 0x1_0000_0000_0000_0000) as u64) by (bit_vector);
}

fn step(state: u64, byte: u8) -> (next: u64)
    ensures
        next == djb_step(state, byte),
{
    proof {
        lemma_step_bits(state);
        assert(((((state * 32) % 0x1_0000_0000_0000_0000) + state) % 0x1_0000_0000_0000_0000)
            == (state * 33) % 0x1_0000_0000_0000_0000) by (nonlinear_arith);
    }
    (state << 5).wrapping_add(state) ^ (byte as u64)
}

fn absorb(state: u64, bytes: &[u8]) -> (next: u64)
    ensures
        next == djb_fold(state, bytes@),
{
    let mut val = state;
    let mut i: usize = 0;
    while i < bytes.len()
        invariant
            i <= bytes.len(),
            val == djb_fold(state, bytes@.take(i as int)),
        decreases bytes.len() - i,
    {
        proof {
            assert(bytes@.take(i + 1).drop_last() =~= bytes@.take(i as int));
        }
        val = step(val, bytes[i]);
        i += 1;
    }
    proof {
        assert(bytes@.take(i as int) =~= bytes@);
    }
    val
}

/// A deterministic function from keys to 64-bit hashes.
///
/// The low byte of a hash selects one of the 256 subtables, the remaining bits the slot
/// at which probing starts. A database must be read with the function it was built with.
pub trait KeyHasher {
    /// The hash of `key`. For an implementation that gives no model it is some function
    /// of the key of which nothing is known.
    open spec fn spec_hash(key: Seq<u8>) -> u64 {
        (choose|model: spec_fn(Seq<u8>) -> u64| unconstrained(model))(key)
    }

    /// Computes the hash of `key`.
    fn hash(key: &[u8]) -> (h: u64)
        ensures
            h == Self::spec_hash(key@),
    ;
}

/// Incremental state of the 64-bit DJB hash, the default hash of a database.
#[derive(Clone, Copy, Debug)]
pub struct CdbHash {
    state: u64,
}

impl View for CdbHash {
    type V = u64;

    closed spec fn view(&self) -> u64 {
        self.state
    }
}

impl CdbHash {
    /// Creates a hasher in the start state.
    pub fn new() -> (h: Self)
        ensures
            h@ == CDB_HASH_START_VALUE,
    {
        CdbHash { state: CDB_HASH_START_VALUE }
    }

    /// The hash of everything written so far.
    pub fn finish(&self) -> (h: u64)
        ensures
            h == self@,
    {
        self.state
    }

    /// Absorbs `bytes`, byte by byte.
    pub fn write(&mut self, bytes: &[u8])
        ensures
            final(self)@ == djb_fold(old(self)@, bytes@),
    {
        self.state = absorb(self.state, bytes);
    }

    /// Absorbs the eight little-endian bytes of `i`.
    pub fn write_u64(&mut self, i: u64)
        ensures
            final(self)@ == djb_fold(old(self)@, vstd::bytes::spec_u64_to_le_bytes(i)),
    {
        let bytes = vstd::bytes::u64_to_le_bytes(i);
        self.state = absorb(self.state, bytes.as_slice());
    }
}

impl Default for CdbHash {
    fn default() -> (h: Self)
        ensures
            h@ == CDB_HASH_START_VALUE,
    {
        CdbHash::new()
    }
}

impl KeyHasher for CdbHash {
    open spec fn spec_hash(key: Seq<u8>) -> u64 {
        djb_hash(key)
    }

    fn hash(key: &[u8]) -> (h: u64) {
        absorb(CDB_HASH_START_VALUE, key)
    }
}

/// The bare state of the 64-bit DJB hash.
pub struct CDBHash(pub u64);

impl CDBHash {
    /// Creates a state holding the start value.
    pub fn new() -> (h: Self)
        ensures
            h.0 == CDB_HASH_START_VALUE,
    {
        CDBHash(CDB_HASH_START_VALUE)
    }

    /// Returns the state to the start value.
    pub fn reset(&mut self)
        ensures
            final(self).0 == CDB_HASH_START_VALUE,
    {
        self.0 = CDB_HASH_START_VALUE;
    }

    /// The width of the hash in bytes.
    pub fn size(self) -> (n: usize)
        ensures
            n == 8,
    {
        8
    }

    /// Absorbs `data`, byte by byte.
    pub fn write(&mut self, data: &[u8])
        ensures
            final(self).0 == djb_fold(old(self).0, data@),
    {
        self.0 = absorb(self.0, data);
    }
}

impl Default for CDBHash {
    fn default() -> (h: Self)
        ensures
            h.0 == CDB_HASH_START_VALUE,
    {
        CDBHash::new()
    }
}

} // verus!
