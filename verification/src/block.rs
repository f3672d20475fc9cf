//! Fixed-size sample blocks.
//!
//! Every node produces exactly `BLOCK_LEN` samples per render call; partial
//! blocks do not exist. A block is well formed when it has that length and
//! all its samples lie within the signal headroom.
use crate::fixed::in_amp_range;
use vstd::prelude::*;

verus! {

/// Number of samples in one block, shared by the whole graph.
pub const BLOCK_LEN: usize = 64;

/// One block of samples.
pub struct AudioBlock {
    pub samples: Vec<i64>,
}

impl View for AudioBlock {
    type V = Seq<i64>;

    open spec fn view(&self) -> Seq<i64> {
        self.samples@
    }
}

/// A full-length block whose samples all lie within the signal headroom.
pub open spec fn block_wf(b: &AudioBlock) -> bool {
    &&& b@.len() == BLOCK_LEN
    &&& forall|i: int| 0 <= i < b@.len() ==> in_amp_range(b@[i] as int)
}

impl AudioBlock {
    /// The silent block.
    pub fn zero() -> (b: AudioBlock)
        ensures
            block_wf(&b),
            forall|i: int| 0 <= i < b@.len() ==> b@[i] == 0i64,
    {
        let mut samples: Vec<i64> = Vec::new();
        while samples.len() < BLOCK_LEN
            invariant
                samples@.len() <= BLOCK_LEN,
                forall|i: int| 0 <= i < samples@.len() ==> samples@[i] == 0i64,
            decreases BLOCK_LEN - samples@.len(),
        {
            samples.push(0);
        }
        AudioBlock { samples }
    }
}

} // verus!
