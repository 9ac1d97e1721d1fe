//! Deliberate byte corruption for testing decoders: overwrite a tenth of a
//! buffer at chosen positions. Which positions and values are chosen is the
//! caller's business (typically a random number generator); applying the
//! edits is exact.

use vstd::prelude::*;

verus! {

/// The buffer after a run of edits, each writing one byte at one position,
/// applied in order.
pub open spec fn spec_apply_edits(data: Seq<u8>, edits: Seq<(usize, u8)>) -> Seq<u8>
    decreases edits.len(),
{
    if edits.len() == 0 {
        data
    } else {
        spec_apply_edits(data, edits.drop_last()).update(
            edits.last().0 as int,
            edits.last().1,
        )
    }
}

/// Every edit inside the buffer keeps the length.
pub proof fn lemma_apply_edits_len(data: Seq<u8>, edits: Seq<(usize, u8)>)
    requires
        forall|i: int| 0 <= i < edits.len() ==> (#[trigger] edits[i]).0 < data.len(),
    ensures
        spec_apply_edits(data, edits).len() == data.len(),
    decreases edits.len(),
{
    if edits.len() > 0 {
        assert(forall|i: int|
            0 <= i < edits.drop_last().len() ==> (#[trigger] edits.drop_last()[i]).0
                < data.len());
        lemma_apply_edits_len(data, edits.drop_last());
        assert(edits[edits.len() - 1].0 < data.len());
    }
}

/// How many bytes of a buffer of `len` bytes the corruptor overwrites:
/// a tenth of it.
pub fn corruption_count(len: usize) -> (n: usize)
    ensures
        n == len / 10,
{
    len / 10
}

/// Overwrites the buffer at each edit's position with the edit's value, in
/// order. Positions must lie inside the buffer.
pub fn corrupt_bytes(data: Vec<u8>, edits: &Vec<(usize, u8)>) -> (r: Vec<u8>)
    requires
        forall|i: int| 0 <= i < edits@.len() ==> (#[trigger] edits@[i]).0 < data@.len(),
    ensures
        r@ == spec_apply_edits(data@, edits@),
        r@.len() == data@.len(),
{
    let mut buf = data;
    let total = edits.len();
    let mut k: usize = 0;
    proof {
        assert(edits@.subrange(0, 0) =~= Seq::<(usize, u8)>::empty());
    }
    while k < total
        invariant
            k <= total,
            total == edits@.len(),
            forall|i: int| 0 <= i < edits@.len() ==> (#[trigger] edits@[i]).0 < data@.len(),
            buf@ == spec_apply_edits(data@, edits@.subrange(0, k as int)),
            buf@.len() == data@.len(),
        decreases total - k,
    {
        let (pos, value) = edits[k];
        buf[pos] = value;
        proof {
            assert(edits@.subrange(0, k as int + 1).drop_last() =~= edits@.subrange(0, k as int));
            lemma_apply_edits_len(data@, edits@.subrange(0, k as int + 1));
        }
        k = k + 1;
    }
    proof {
        assert(edits@.subrange(0, total as int) =~= edits@);
    }
    buf
}

} // verus!

