//! Memory maps as sources that are decoded in place.

use vstd::prelude::*;
use memmap2::Mmap;

verus! {

/// `memmap2::Mmap`, a read-only memory map. Nothing inside it is visible to proofs.
#[verifier::external_type_specification]
#[verifier::external_body]
pub struct ExMmap(memmap2::Mmap);

/// The bytes that a memory map exposes. They are taken to stay the same for as long as
/// the map lives, which holds as long as the mapped file is not modified meanwhile.
pub uninterp spec fn mmap_bytes(map: Mmap) -> Seq<u8>;

/// The mapped region as a slice, through the `AsRef<[u8]>` implementation of
/// `memmap2::Mmap`, which borrows the whole region without copying. The contract gives
/// what the slice holds a name and claims nothing else of it.
#[verifier::external_body]
pub(crate) fn mmap_slice(map: &Mmap) -> (s: &[u8])
    ensures
        s@ == mmap_bytes(*map),
{
    map.as_ref()
}

} // verus!
