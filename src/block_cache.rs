use crate::device::BlockDevice;
use crate::layout::BLOCK_SIZE;
use vstd::prelude::*;

verus! {

/// One cached block: its id, its bytes, and whether they differ from the
/// device.
pub struct CacheEntry {
    pub block_id: u64,
    pub data: Vec<u8>,
    pub dirty: bool,
}

/// A pool of block buffers holding at most one copy of each block.
pub struct BlockCache {
    pub entries: Vec<CacheEntry>,
}

impl BlockCache {
    /// Ids are unique and every buffer is one block long.
    pub open spec fn wf(&self) -> bool {
        &&& forall|i: int, j: int|
            0 <= i < j < self.entries@.len() ==> (#[trigger] self.entries@[i]).block_id
                != (#[trigger] self.entries@[j]).block_id
        &&& forall|i: int|
            0 <= i < self.entries@.len() ==> (#[trigger] self.entries@[i]).data@.len() == BLOCK_SIZE
    }

    /// Every entry names a block of the device, and a clean entry holds what
    /// the device holds.
    pub open spec fn synced_with<D: BlockDevice>(&self, dev: D) -> bool {
        forall|i: int|
            0 <= i < self.entries@.len() ==> {
                &&& ((#[trigger] self.entries@[i]).block_id as nat) < dev.num_blocks()
                &&& (!self.entries@[i].dirty ==> self.entries@[i].data@ == dev.block(
                    self.entries@[i].block_id as int,
                ))
            }
    }

    /// Block `id` has an entry.
    pub open spec fn has(&self, id: u64) -> bool {
        exists|i: int| 0 <= i < self.entries@.len() && (#[trigger] self.entries@[i]).block_id == id
    }

    /// The slot of block `id`'s entry.
    pub open spec fn slot_of(&self, id: u64) -> int {
        choose|i: int| 0 <= i < self.entries@.len() && (#[trigger] self.entries@[i]).block_id == id
    }

    /// What block `id` holds as seen through the cache.
    pub open spec fn content<D: BlockDevice>(&self, dev: D, id: u64) -> Seq<u8> {
        if self.has(id) {
            self.entries@[self.slot_of(id)].data@
        } else {
            dev.block(id as int)
        }
    }

    /// A cache holds one copy of a block: any slot holding block `id` is the
    /// one slot the cache reports for `id`, so every lookup of `id` reaches
    /// the same bytes and sees every write made through that slot.
    pub proof fn lemma_one_copy_per_block(&self, i: int)
        requires
            self.wf(),
            0 <= i < self.entries@.len(),
        ensures
            self.has(self.entries@[i].block_id),
            self.slot_of(self.entries@[i].block_id) == i,
    {
        let id = self.entries@[i].block_id;
        assert(self.has(id));
        let k = self.slot_of(id);
        if k != i {
            if k < i {
                assert(self.entries@[k].block_id != self.entries@[i].block_id);
            } else {
                assert(self.entries@[i].block_id != self.entries@[k].block_id);
            }
        }
    }

    /// An empty cache.
    pub fn new() -> (c: BlockCache)
        ensures
            c.wf(),
            c.entries@.len() == 0,
    {
        BlockCache { entries: Vec::new() }
    }

    /// Returns the slot of block `id`, reading it from the device on first
    /// reference; a block already cached keeps its slot and contents.
    pub fn get<D: BlockDevice>(&mut self, id: u64, dev: &D) -> (h: usize)
        requires
            old(self).wf(),
            old(self).synced_with(*dev),
            (id as nat) < dev.num_blocks(),
        ensures
            final(self).wf(),
            final(self).synced_with(*dev),
            h < final(self).entries@.len(),
            final(self).entries@[h as int].block_id == id,
            final(self).has(id),
            final(self).slot_of(id) == h,
            old(self).has(id) ==> *final(self) == *old(self) && h == old(self).slot_of(id),
            forall|x: u64| old(self).has(x) ==> final(self).has(x) && final(self).slot_of(x) == old(self).slot_of(x),
            forall|x: u64| #[trigger] final(self).content(*dev, x) == old(self).content(*dev, x),
            old(self).entries@.len() <= final(self).entries@.len(),
            forall|i: int| 0 <= i < old(self).entries@.len() ==> final(self).entries@[i] == old(self).entries@[i],
    {
        let n = self.entries.len();
        let mut i: usize = 0;
        while i < n
            invariant
                n == self.entries@.len(),
                *self == *old(self),
                self.wf(),
                self.synced_with(*dev),
                0 <= i <= n,
                forall|k: int| 0 <= k < i ==> (#[trigger] self.entries@[k]).block_id != id,
            decreases n - i,
        {
            if self.entries[i].block_id == id {
                proof {
                    self.lemma_one_copy_per_block(i as int);
                }
                return i;
            }
            i = i + 1;
        }
        assert(!old(self).has(id));
        let data = dev.read_block(id);
        self.entries.push(CacheEntry { block_id: id, data, dirty: false });
        proof {
            assert forall|x: u64| old(self).has(x) implies final(self).has(x) && final(self).slot_of(x)
                == old(self).slot_of(x) by {
                let k = old(self).slot_of(x);
                assert(self.entries@[k] == old(self).entries@[k]);
                self.lemma_one_copy_per_block(k);
            }
            self.lemma_one_copy_per_block(n as int);
            assert forall|x: u64| #[trigger] self.content(*dev, x) == old(self).content(*dev, x) by {
                if x != id && self.has(x) {
                    let k = self.slot_of(x);
                    assert(k != n);
                    assert(old(self).entries@[k] == self.entries@[k]);
                }
            }
        }
        n
    }

    /// The bytes held in slot `h`.
    pub fn data(&self, h: usize) -> (r: &Vec<u8>)
        requires
            h < self.entries@.len(),
        ensures
            *r == self.entries@[h as int].data,
    {
        &self.entries[h].data
    }

    /// After slot `h` of `old` is given new bytes, block `id` reads as those
    /// bytes through the cache, every other block as before, and the cache
    /// stays in step with the device.
    pub proof fn lemma_after_write<D: BlockDevice>(old: BlockCache, new: BlockCache, h: int, dev: D)
        requires
            old.wf(),
            new.wf(),
            0 <= h < old.entries@.len(),
            new.entries@ == old.entries@.update(
                h,
                CacheEntry { block_id: old.entries@[h].block_id, data: new.entries@[h].data, dirty: true },
            ),
            forall|x: u64| old.has(x) <==> new.has(x),
            forall|x: u64| old.has(x) ==> new.slot_of(x) == old.slot_of(x),
        ensures
            forall|x: u64| #[trigger] new.content(dev, x) == if x == old.entries@[h].block_id {
                new.entries@[h].data@
            } else {
                old.content(dev, x)
            },
            old.synced_with(dev) ==> new.synced_with(dev),
    {
        old.lemma_one_copy_per_block(h);
    }

    /// Replaces the bytes of slot `h` and marks it dirty.
    pub fn write(&mut self, h: usize, data: Vec<u8>)
        requires
            old(self).wf(),
            h < old(self).entries@.len(),
            data@.len() == BLOCK_SIZE,
        ensures
            final(self).wf(),
            final(self).entries@.len() == old(self).entries@.len(),
            final(self).entries@ == old(self).entries@.update(
                h as int,
                CacheEntry { block_id: old(self).entries@[h as int].block_id, data, dirty: true },
            ),
            forall|x: u64| old(self).has(x) <==> final(self).has(x),
            forall|x: u64| old(self).has(x) ==> final(self).slot_of(x) == old(self).slot_of(x),
    {
        let id = self.entries[h].block_id;
        self.entries.set(h, CacheEntry { block_id: id, data, dirty: true });
        proof {
            assert forall|x: u64| old(self).has(x) implies final(self).has(x) && final(self).slot_of(x)
                == old(self).slot_of(x) by {
                let k = old(self).slot_of(x);
                old(self).lemma_one_copy_per_block(k);
                assert(self.entries@[k].block_id == x);
                self.lemma_one_copy_per_block(k);
            }
            assert forall|x: u64| final(self).has(x) implies old(self).has(x) by {
                let k = final(self).slot_of(x);
                assert(old(self).entries@[k].block_id == x);
            }
        }
    }

    /// Writes every dirty entry back to the device and marks it clean. After
    /// it the device holds what the cache showed, block by block.
    pub fn flush<D: BlockDevice>(&mut self, dev: &mut D)
        requires
            old(self).wf(),
            old(self).synced_with(*old(dev)),
        ensures
            final(self).wf(),
            final(self).synced_with(*final(dev)),
            final(dev).num_blocks() == old(dev).num_blocks(),
            forall|x: u64| #[trigger] final(dev).block(x as int) == old(self).content(*old(dev), x),
            forall|x: u64| #[trigger] final(self).content(*final(dev), x) == old(self).content(*old(dev), x),
            forall|x: u64| old(self).has(x) <==> final(self).has(x),
            forall|x: u64| old(self).has(x) ==> final(self).slot_of(x) == old(self).slot_of(x),
            final(self).entries@.len() == old(self).entries@.len(),
            forall|i: int| 0 <= i < final(self).entries@.len() ==> !(#[trigger] final(self).entries@[i]).dirty,
    {
        let n = self.entries.len();
        let mut i: usize = 0;
        while i < n
            invariant
                n == self.entries@.len() == old(self).entries@.len(),
                0 <= i <= n,
                self.wf(),
                old(self).wf(),
                old(self).synced_with(*old(dev)),
                dev.num_blocks() == old(dev).num_blocks(),
                forall|k: int| 0 <= k < n ==> (#[trigger] self.entries@[k]).block_id == old(self).entries@[k].block_id
                    && self.entries@[k].data@ == old(self).entries@[k].data@,
                forall|k: int| 0 <= k < i ==> !(#[trigger] self.entries@[k]).dirty,
                forall|k: int| i <= k < n ==> (#[trigger] self.entries@[k]).dirty == old(self).entries@[k].dirty,
                forall|k: int| 0 <= k < n && (k < i || !old(self).entries@[k].dirty) ==> dev.block(
                    (#[trigger] old(self).entries@[k]).block_id as int,
                ) == old(self).entries@[k].data@,
                forall|j: int| (forall|k: int| 0 <= k < i ==> j != (#[trigger] old(self).entries@[k]).block_id) ==> dev.block(j) == old(dev).block(j),
            decreases n - i,
        {
            if self.entries[i].dirty {
                let id = self.entries[i].block_id;
                dev.write_block(id, &self.entries[i].data);
                let copy = vstd::slice::slice_to_vec(self.entries[i].data.as_slice());
                self.entries.set(i, CacheEntry { block_id: id, data: copy, dirty: false });
                proof {
                    assert forall|k: int| 0 <= k < n && k != i implies old(self).entries@[k].block_id != id by {
                        if k < i {
                            assert(old(self).entries@[k].block_id != old(self).entries@[i as int].block_id);
                        } else {
                            assert(old(self).entries@[i as int].block_id != old(self).entries@[k].block_id);
                        }
                    }
                }
            }
            i = i + 1;
        }
        proof {
            assert forall|x: u64| #[trigger] dev.block(x as int) == old(self).content(*old(dev), x) by {
                if old(self).has(x) {
                    let k = old(self).slot_of(x);
                    assert(dev.block(old(self).entries@[k].block_id as int) == old(self).entries@[k].data@);
                } else {
                    assert forall|k: int| 0 <= k < n implies x as int != (#[trigger] old(self).entries@[k]).block_id by {
                        if x as int == old(self).entries@[k].block_id {
                            assert(old(self).has(x));
                        }
                    }
                }
            }
            assert forall|x: u64| old(self).has(x) implies self.has(x) && self.slot_of(x) == old(self).slot_of(x) by {
                let k = old(self).slot_of(x);
                assert(self.entries@[k].block_id == x);
                self.lemma_one_copy_per_block(k);
            }
            assert forall|x: u64| self.has(x) implies old(self).has(x) by {
                let k = self.slot_of(x);
                assert(old(self).entries@[k].block_id == x);
            }
            assert forall|x: u64| #[trigger] self.content(*dev, x) == old(self).content(*old(dev), x) by {
                if self.has(x) {
                    let k = self.slot_of(x);
                    assert(dev.block(x as int) == old(self).content(*old(dev), x));
                    assert(self.entries@[k].data@ == old(self).entries@[k].data@);
                }
            }
            assert forall|k: int| 0 <= k < n implies ((#[trigger] self.entries@[k]).block_id as nat) < dev.num_blocks() by {
                assert(old(self).entries@[k].block_id == self.entries@[k].block_id);
            }
        }
    }
}

} // verus!
