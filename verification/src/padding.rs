//! Block padding: the algorithm interface and the PKCS#7 instance
//! (always pads; a full extra block when the length is already a
//! multiple of the block size).

use vstd::prelude::*;

verus! {

/// A block-padding scheme: `apply_padding` extends the input to a
/// multiple of the block size, `remove_padding` undoes it.
pub trait PaddingAlgorithm where Self: Copy {
    /// The paddings this instance produces, as a function on byte sequences.
    spec fn spec_apply(&self, s: Seq<u8>) -> Seq<u8>;

    /// Removal as a function on byte sequences.
    spec fn spec_remove(&self, s: Seq<u8>) -> Seq<u8>;

    /// The instance was built with this block size.
    spec fn has_block_size(&self, size: u8) -> bool;

    /// The instance is usable: its block size is at least one.
    spec fn wf(&self) -> bool;

    /// The padded input still fits in a vector.
    spec fn can_apply(&self, s: Seq<u8>) -> bool;

    /// The input carries a removable padding marker.
    spec fn can_remove(&self, s: Seq<u8>) -> bool;

    fn with_block_size(size: u8) -> (r: Self)
        requires
            1 <= size,
        ensures
            r.has_block_size(size),
            r.wf(),
    ;

    fn apply_padding(&self, input: &mut Vec<u8>)
        requires
            self.wf(),
            self.can_apply(old(input)@),
        ensures
            final(input)@ == self.spec_apply(old(input)@),
    ;

    fn remove_padding(&self, input: &mut Vec<u8>)
        requires
            self.wf(),
            self.can_remove(old(input)@),
        ensures
            final(input)@ == self.spec_remove(old(input)@),
    ;
}

/// PKCS#7 padding at a configurable block size.
#[derive(Copy, Clone, Debug)]
pub struct PaddingPKSC7 {
    pub block_size: u8,
}

impl PaddingPKSC7 {
    /// Number of bytes PKCS#7 appends to an input of length `len`:
    /// always between 1 and the block size, and it completes `len`
    /// to a multiple of the block size.
    pub open spec fn pad_len(&self, len: nat) -> nat {
        (self.block_size as nat - (len % (self.block_size as nat))) as nat
    }

    pub open spec fn spec_block_size(&self) -> u8 {
        self.block_size
    }
}

impl Default for PaddingPKSC7 {
    /// The default instance pads at 32-byte blocks.
    fn default() -> (r: Self)
        ensures
            r.has_block_size(32),
            r.wf(),
    {
        PaddingPKSC7 { block_size: 32 }
    }
}

impl PaddingAlgorithm for PaddingPKSC7 {
    open spec fn spec_apply(&self, s: Seq<u8>) -> Seq<u8> {
        let pad = self.pad_len(s.len());
        s + Seq::new(pad, |i: int| pad as u8)
    }

    open spec fn spec_remove(&self, s: Seq<u8>) -> Seq<u8> {
        s.take(s.len() - s.last() as int)
    }

    open spec fn has_block_size(&self, size: u8) -> bool {
        self.block_size == size
    }

    open spec fn wf(&self) -> bool {
        1 <= self.block_size
    }

    open spec fn can_apply(&self, s: Seq<u8>) -> bool {
        s.len() + self.block_size <= usize::MAX
    }

    open spec fn can_remove(&self, s: Seq<u8>) -> bool {
        0 < s.len() && s.last() as int <= s.len()
    }

    fn with_block_size(size: u8) -> (r: Self) {
        PaddingPKSC7 { block_size: size }
    }

    fn apply_padding(&self, input: &mut Vec<u8>) {
        let leftover_bytes: u8 = (input.len() % (self.block_size as usize)) as u8;
        let pad_bytes: u8 = self.block_size - leftover_bytes;
        let ghost target = self.spec_apply(old(input)@);
        for _j in 0..pad_bytes as usize
            invariant
                input@.len() == old(input)@.len() + _j,
                input@ == target.take(old(input)@.len() + _j),
                pad_bytes == self.pad_len(old(input)@.len() as nat),
                target == self.spec_apply(old(input)@),
                target.len() == old(input)@.len() + pad_bytes,
        {
            input.push(pad_bytes);
            proof {
                assert(input@ =~= target.take(old(input)@.len() + _j + 1));
            }
        }
        proof {
            assert(input@ =~= target);
        }
    }

    fn remove_padding(&self, input: &mut Vec<u8>) {
        let last: u8 = input[input.len() - 1];
        input.truncate(input.len() - last as usize);
    }
}

/// PKCS#7 round trip: removing the padding that `apply_padding` added
/// gives back the original byte sequence, for every byte sequence and
/// every block size from 1 to 255.
pub proof fn lemma_pkcs7_round_trip(p: PaddingPKSC7, s: Seq<u8>)
    requires
        p.wf(),
    ensures
        p.spec_remove(p.spec_apply(s)) == s,
{
    let padded = p.spec_apply(s);
    let pad = p.pad_len(s.len());
    assert(1 <= pad <= p.spec_block_size());
    assert(padded.last() == pad as u8);
    assert(p.spec_remove(padded) =~= s);
}

} // verus!
