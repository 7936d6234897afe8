use crate::layout::BLOCK_SIZE;
use vstd::prelude::*;
use vstd::slice::slice_to_vec;

verus! {

/// A block of zeros.
pub open spec fn zero_block() -> Seq<u8> {
    Seq::new(BLOCK_SIZE as nat, |k: int| 0u8)
}

/// A fresh block of zeros.
pub fn zeros() -> (b: Vec<u8>)
    ensures
        b@ == zero_block(),
{
    let mut b: Vec<u8> = Vec::new();
    while b.len() < BLOCK_SIZE
        invariant
            b@.len() <= BLOCK_SIZE,
            forall|k: int| 0 <= k < b@.len() ==> b@[k] == 0u8,
        decreases BLOCK_SIZE - b@.len(),
    {
        b.push(0u8);
    }
    assert(b@ =~= zero_block());
    b
}

/// A device that reads and writes whole blocks by id. It does no caching of
/// its own: a write is seen by every later read.
pub trait BlockDevice {
    /// Number of blocks the device holds.
    spec fn num_blocks(&self) -> nat;

    /// Current contents of block `id`.
    spec fn block(&self, id: int) -> Seq<u8>;

    fn block_count(&self) -> (r: u64)
        ensures
            r as nat == self.num_blocks(),
    ;

    fn read_block(&self, id: u64) -> (r: Vec<u8>)
        requires
            (id as nat) < self.num_blocks(),
        ensures
            r@ == self.block(id as int),
            r@.len() == BLOCK_SIZE,
    ;

    fn write_block(&mut self, id: u64, data: &Vec<u8>)
        requires
            (id as nat) < old(self).num_blocks(),
            data@.len() == BLOCK_SIZE,
        ensures
            final(self).num_blocks() == old(self).num_blocks(),
            final(self).block(id as int) == data@,
            forall|j: int| j != id ==> final(self).block(j) == old(self).block(j),
    ;
}

/// A block device kept in memory.
pub struct MemBlockDevice {
    blocks: Vec<Vec<u8>>,
}

impl MemBlockDevice {
    /// A device of `n` blocks, all zero.
    pub fn new(n: usize) -> (d: MemBlockDevice)
        ensures
            d.num_blocks() == n,
            forall|j: int| 0 <= j < n ==> d.block(j) == zero_block(),
    {
        let mut blocks: Vec<Vec<u8>> = Vec::new();
        while blocks.len() < n
            invariant
                blocks@.len() <= n,
                forall|i: int| 0 <= i < blocks@.len() ==> (#[trigger] blocks@[i])@ == zero_block(),
            decreases n - blocks@.len(),
        {
            blocks.push(zeros());
        }
        MemBlockDevice { blocks }
    }
}

impl BlockDevice for MemBlockDevice {
    closed spec fn num_blocks(&self) -> nat {
        self.blocks@.len()
    }

    closed spec fn block(&self, id: int) -> Seq<u8> {
        if 0 <= id < self.blocks@.len() && self.blocks@[id]@.len() == BLOCK_SIZE {
            self.blocks@[id]@
        } else {
            zero_block()
        }
    }

    fn block_count(&self) -> (r: u64) {
        self.blocks.len() as u64
    }

    fn read_block(&self, id: u64) -> (r: Vec<u8>) {
        let n = self.blocks.len();
        assert(id < n);
        let idx = id as usize;
        let stored = &self.blocks[idx];
        if stored.len() == BLOCK_SIZE {
            slice_to_vec(stored.as_slice())
        } else {
            zeros()
        }
    }

    fn write_block(&mut self, id: u64, data: &Vec<u8>) {
        let copy = slice_to_vec(data.as_slice());
        let n = self.blocks.len();
        assert(id < n);
        let idx = id as usize;
        self.blocks.set(idx, copy);
    }
}

} // verus!
