//! 8-bit masks, row-major, one byte per pixel: 0 = retain, 255 = exclude.

pub mod combine;
pub mod feather;
pub mod morphology;
pub mod rect;

use vstd::prelude::*;

verus! {

/// A mask with every value replaced by `255 - value`.
pub open spec fn inverted(mask: Seq<u8>) -> Seq<u8> {
    Seq::new(mask.len(), |i: int| (255 - mask[i]) as u8)
}

/// Inverts a mask (0 ↔ 255), for consumers whose convention is 0 = masked.
pub fn invert(mask: &[u8]) -> (r: Vec<u8>)
    ensures
        r@ == inverted(mask@),
{
    let mut r: Vec<u8> = Vec::new();
    let mut i: usize = 0;
    while i < mask.len()
        invariant
            i <= mask@.len(),
            r@ == inverted(mask@).subrange(0, i as int),
        decreases mask@.len() - i,
    {
        r.push(255 - mask[i]);
        assert(inverted(mask@).subrange(0, i + 1) =~= inverted(mask@).subrange(0, i as int).push(
            (255 - mask@[i as int]) as u8,
        ));
        i = i + 1;
    }
    assert(inverted(mask@).subrange(0, i as int) =~= inverted(mask@));
    r
}

/// Inverting twice gives back the mask.
pub proof fn lemma_invert_involution(mask: Seq<u8>)
    ensures
        inverted(inverted(mask)) == mask,
{
    assert(inverted(inverted(mask)) =~= mask);
}

} // verus!
