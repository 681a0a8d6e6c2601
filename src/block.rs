//! The block records that the scheduler reads.
use vstd::prelude::*;

verus! {

/// One application-data block as the transport engine sees it.
///
/// Times are milliseconds of one monotonic clock; sizes are bytes.
#[derive(Clone, Copy, Debug, PartialEq, Eq, Structural)]
pub struct Block {
    pub block_id: u64,
    pub block_create_time: u64,
    pub block_deadline: u64,
    pub block_priority: u64,
    pub block_size: u64,
    pub remaining_size: u64,
    /// Equal to `block_id` when the block depends on no other block.
    pub depend_id: u64,
}

impl Block {
    /// A block is a candidate for sending while it has bytes left.
    pub open spec fn is_eligible(self) -> bool {
        self.remaining_size > 0
    }

    /// Some eligible block of `blocks` carries the id `id`.
    pub open spec fn is_pending_in(blocks: Seq<Block>, id: u64) -> bool {
        exists|j: int| 0 <= j < blocks.len() && #[trigger] blocks[j].is_eligible() && blocks[j].block_id == id
    }

    /// The block waits for another block that is still pending.
    pub open spec fn is_blocked_in(self, blocks: Seq<Block>) -> bool {
        self.depend_id != self.block_id && Block::is_pending_in(blocks, self.depend_id)
    }
}

/// Whether some eligible block of `blocks` carries the id `id`.
pub fn has_pending_id(blocks: &Vec<Block>, id: u64) -> (r: bool)
    ensures
        r == Block::is_pending_in(blocks@, id),
{
    let n = blocks.len();
    let mut j: usize = 0;
    while j < n
        invariant
            n == blocks@.len(),
            0 <= j <= n,
            forall|k: int| 0 <= k < j ==> !(#[trigger] blocks@[k].is_eligible() && blocks@[k].block_id == id),
        decreases n - j,
    {
        if blocks[j].remaining_size > 0 && blocks[j].block_id == id {
            assert(blocks@[j as int].is_eligible());
            return true;
        }
        j = j + 1;
    }
    false
}

} // verus!
