//! Plain data carried through the pool: identifiers, lifecycle states and rows.

use vstd::prelude::*;

verus! {

/// A 32-byte identifier: an operation id, a batch id or a settlement transaction id.
pub type H256 = [u8; 32];

/// A 20-byte account address.
pub type H160 = [u8; 20];

/// A 256-bit unsigned quantity as four 64-bit limbs, least significant first.
pub type U256 = [u64; 4];

/// The views of a list of hashes, in order.
pub open spec fn hashes_view(hashes: Seq<H256>) -> Seq<Seq<u8>> {
    Seq::new(hashes.len(), |i: int| hashes[i]@)
}

/// The views of a list of quantities, in order.
pub open spec fn words_view(words: Seq<U256>) -> Seq<Seq<u64>> {
    Seq::new(words.len(), |i: int| words[i]@)
}

/// Whether two identifiers hold the same 32 bytes.
pub fn h256_eq(a: &H256, b: &H256) -> (same: bool)
    ensures
        same == (a@ == b@),
        same == (*a == *b),
{
    let mut i: usize = 0;
    while i < 32
        invariant
            i <= 32,
            forall|k: int| 0 <= k < i ==> a@[k] == b@[k],
        decreases 32 - i,
    {
        if a[i] != b[i] {
            return false;
        }
        i += 1;
    }
    assert(a@ =~= b@);
    assert(*a =~= *b);
    true
}

} // verus!
