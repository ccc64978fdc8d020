//! The runtime side of the packing of coverage bitmaps (see `bake`): the token stream of a glyph or
//! an icon back to its bytes.

use vstd::prelude::*;
use crate::bake::{tokens_end, expand, restore, expand_tokens, restore_bytes};

verus! {

/// Turns the token stream `packed` into the coverage bytes of a bitmap `stride` wide, filling all
/// of `out`. The tokens stand for exactly as many bytes as `out` holds.
pub fn unpack(packed: &[u8], stride: usize, out: &mut Vec<u8>)
    requires
        old(out)@.len() > 0 ==> stride > 0,
        exists|end: int| tokens_end(packed@, 0, old(out)@.len() as int, end),
    ensures
        final(out)@ == restore(expand(packed@, 0, old(out)@.len() as int), stride as nat),
{
    let total = out.len();
    let res = expand_tokens(packed, total);
    if total == 0 {
        assert(res@.len() == 0);
        assert(out@ =~= restore(res@, stride as nat));
        return;
    }
    let bytes = restore_bytes(res.as_slice(), stride);
    proof {
        let end = choose|end: int| tokens_end(packed@, 0, total as int, end);
        crate::bake::lemma_expand_len(packed@, 0, total as int, end);
        crate::bake::lemma_restore_len(res@, stride as nat);
    }
    let mut i: usize = 0;
    while i < total
        invariant
            0 <= i <= total,
            total == out@.len(),
            bytes@.len() == total,
            forall|j: int| 0 <= j < i ==> out@[j] == bytes@[j],
        decreases total - i,
    {
        out.set(i, bytes[i]);
        i = i + 1;
    }
    assert(out@ =~= bytes@);
}

} // verus!
