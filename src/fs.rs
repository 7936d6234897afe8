use crate::bitmap::{
    all_set, bit_count, bit_set, bitmap_allocate, bitmap_mark, first_free, lemma_first_free, lemma_first_free_exists,
    lemma_prefix_grows, lemma_prefix_lowest_clear, lemma_zero_block_free, lowest_clear, prefix_set, set_one, spec_mark,
};
use crate::block_cache::BlockCache;
use crate::device::{zero_block, zeros, BlockDevice};
use crate::inode::{
    dinode_type, inode_placed, max_inodes, spec_inode_block, spec_dinode_type, spec_with_dinode, with_dinode, Inode,
    InodeCache, InodeNotExists, InodeType,
};
use crate::layout::{
    compute_layout, layout_ok, lemma_layout_data_fits, lemma_sb_round_trip, sb_valid, spec_decode_sb, spec_encode_sb,
    spec_layout, SuperBlock, BLOCK_SIZE, INODES_PER_BLOCK, SUPER_BLOCK_ID,
};
use vstd::prelude::*;
use vstd::slice::slice_to_vec;

verus! {

/// Formatting could not complete.
#[derive(Clone, Copy, Debug, PartialEq, Eq, Structural)]
pub struct FileSystemCreateError();

/// The device does not hold a valid file system.
#[derive(Clone, Copy, Debug, PartialEq, Eq, Structural)]
pub struct FileSystemInvalid();

/// Failures reported by the layers built on this core.
#[derive(Debug, PartialEq, Eq)]
pub enum FileSystemAllocationError {
    Exhausted(usize),
    InodeExhausted,
    AlreadyExist(String, InodeType),
    TooLarge(usize),
}

/// An open file system: the device, a private copy of its superblock, and the
/// block and inode caches.
pub struct FileSystem<D: BlockDevice> {
    pub dev: D,
    pub sb: SuperBlock,
    pub block_cache: BlockCache,
    pub inode_cache: InodeCache,
}

/// The device has a superblock block, and it holds a valid superblock.
pub open spec fn device_sb_ok<D: BlockDevice>(dev: D) -> bool {
    &&& dev.num_blocks() > SUPER_BLOCK_ID
    &&& sb_valid(spec_decode_sb(dev.block(SUPER_BLOCK_ID as int)))
}

/// What allocating a data block returns, given the data bitmap `b`: the block
/// at the lowest free offset, when there is one and it lies in the data area.
pub open spec fn allocated_block(sb: SuperBlock, b: Seq<u8>) -> Option<u64> {
    if all_set(b) || first_free(b) >= sb.data_blocks {
        None
    } else {
        Some((sb.data_start + first_free(b)) as u64)
    }
}

/// Allocating data blocks from a data bitmap whose units below `n` are
/// exactly those in use: while `n` is below the number of data blocks the
/// allocation gives block `data_start + n` and leaves the units below `n + 1`
/// in use; once `n` reaches it, allocation gives nothing. So as many
/// allocations as there are data blocks succeed, with distinct ids, and the
/// next one fails.
pub proof fn lemma_allocation_exhaustion(sb: SuperBlock, b: Seq<u8>, after: Seq<u8>, n: int)
    requires
        sb_valid(sb),
        sb.data_blocks <= bit_count(b),
        0 <= n <= sb.data_blocks,
        prefix_set(b, n),
    ensures
        n < sb.data_blocks ==> allocated_block(sb, b) == Some((sb.data_start + n) as u64),
        n < sb.data_blocks && set_one(b, after, first_free(b)) ==> prefix_set(after, n + 1),
        n == sb.data_blocks ==> allocated_block(sb, b) is None,
{
    lemma_prefix_lowest_clear(b, n);
    if n < bit_count(b) {
        lemma_first_free(b, n);
        if n < sb.data_blocks && set_one(b, after, first_free(b)) {
            lemma_prefix_grows(b, after, n);
        }
    }
}

/// A device whose superblock block holds the layout that formatting computes
/// for `total_blocks` and `inode_blocks` passes the check that opening makes,
/// and the superblock read back has exactly the region starts formatting
/// computed.
pub proof fn lemma_open_after_create<D: BlockDevice>(dev: D, total_blocks: u64, inode_blocks: u64)
    requires
        layout_ok(total_blocks as int, inode_blocks as int),
        total_blocks <= dev.num_blocks(),
        dev.block(SUPER_BLOCK_ID as int) == spec_encode_sb(spec_layout(total_blocks, inode_blocks)),
    ensures
        device_sb_ok(dev),
        spec_decode_sb(dev.block(SUPER_BLOCK_ID as int)) == spec_layout(total_blocks, inode_blocks),
{
    lemma_sb_round_trip(spec_layout(total_blocks, inode_blocks));
}

impl<D: BlockDevice> FileSystem<D> {
    /// The superblock is valid and fits the device, and both caches keep
    /// their invariants.
    pub open spec fn wf(&self) -> bool {
        &&& sb_valid(self.sb)
        &&& self.block_cache.wf()
        &&& self.block_cache.synced_with(self.dev)
        &&& self.inode_cache.wf(self.sb)
    }

    /// What block `id` holds as seen through the block cache.
    pub open spec fn disk(&self, id: u64) -> Seq<u8> {
        self.block_cache.content(self.dev, id)
    }

    /// Formats `dev` with `total_blocks` blocks of which `inode_blocks` hold
    /// the inode table: zeroes every block before the data area, writes the
    /// superblock, flushes, opens the result and allocates the root directory
    /// as inode 0, then flushes again. The data area is left as it was.
    pub fn create(dev: D, total_blocks: u64, inode_blocks: u64) -> (r: Result<FileSystem<D>, FileSystemCreateError>)
        requires
            layout_ok(total_blocks as int, inode_blocks as int),
            inode_blocks > 0,
            total_blocks <= dev.num_blocks(),
        ensures
            r is Ok,
            match r {
                Ok(fs) => {
                    let sb = spec_layout(total_blocks, inode_blocks);
                    &&& fs.wf()
                    &&& fs.sb == sb
                    &&& fs.dev.num_blocks() == dev.num_blocks()
                    &&& forall|x: u64| #[trigger] fs.dev.block(x as int) == fs.disk(x)
                    &&& fs.disk(SUPER_BLOCK_ID) == spec_encode_sb(sb)
                    &&& fs.disk(sb.inode_bmap_start) == zero_block().update(0, 1u8)
                    &&& prefix_set(fs.disk(sb.inode_bmap_start), 1)
                    &&& fs.disk(sb.inode_start) == spec_with_dinode(zero_block(), 0, InodeType::Directory)
                    &&& forall|x: u64|
                        x < sb.data_start && x != SUPER_BLOCK_ID && x != sb.inode_bmap_start && x != sb.inode_start
                            ==> #[trigger] fs.disk(x) == zero_block()
                    &&& forall|x: u64| x >= sb.data_start ==> #[trigger] fs.disk(x) == dev.block(x as int)
                },
                Err(_) => true,
            },
    {
        let sb = compute_layout(total_blocks, inode_blocks);
        proof {
            lemma_layout_data_fits(sb);
        }
        let mut dev = dev;
        let ghost dev0 = dev;
        let mut cache = BlockCache::new();
        let mut i: u64 = 0;
        while i < sb.data_start
            invariant
                sb == spec_layout(total_blocks, inode_blocks),
                sb_valid(sb),
                sb.data_start <= total_blocks <= dev.num_blocks(),
                dev == dev0,
                i <= sb.data_start,
                cache.wf(),
                cache.synced_with(dev),
                forall|x: u64| #[trigger] cache.content(dev, x) == if x < i { zero_block() } else { dev.block(x as int) },
            decreases sb.data_start - i,
        {
            let h = cache.get(i, &dev);
            let ghost before = cache;
            cache.write(h, zeros());
            proof {
                BlockCache::lemma_after_write(before, cache, h as int, dev);
            }
            i = i + 1;
        }
        let h = cache.get(SUPER_BLOCK_ID, &dev);
        let ghost before = cache;
        cache.write(h, sb.encode());
        proof {
            BlockCache::lemma_after_write(before, cache, h as int, dev);
            lemma_sb_round_trip(sb);
        }
        let ghost pre_flush = cache;
        cache.flush(&mut dev);
        proof {
            assert(dev.block(SUPER_BLOCK_ID as int) == spec_encode_sb(sb));
            assert(device_sb_ok(dev));
        }
        let ghost dev1 = dev;
        let mut fs = match FileSystem::open(dev) {
            Ok(fs) => fs,
            Err(_) => {
                return Err(FileSystemCreateError());
            },
        };
        let ghost opened = fs;
        proof {
            let z = fs.disk(sb.inode_bmap_start);
            assert(z == zero_block());
            lemma_zero_block_free(z);
            lemma_prefix_lowest_clear(z, 0);
            lemma_first_free(z, 0);
        }
        let root = match fs.allocate_inode(InodeType::Directory) {
            Some(i) => i,
            None => {
                return Err(FileSystemCreateError());
            },
        };
        if root.inode_num != 0 {
            return Err(FileSystemCreateError());
        }
        proof {
            let z = opened.disk(sb.inode_bmap_start);
            lemma_prefix_grows(z, fs.disk(sb.inode_bmap_start), 0);
            assert(0u8 | (1u8 << 0u8) == 1u8) by (bit_vector);
            assert(fs.disk(sb.inode_bmap_start) =~= zero_block().update(0, 1u8));
            assert(root.block_id == sb.inode_start);
            assert(root.block_offset == 0);
        }
        let ghost allocated = fs;
        fs.flush();
        proof {
            assert forall|x: u64| x >= sb.data_start implies #[trigger] fs.disk(x) == dev0.block(x as int) by {
                assert(allocated.disk(x) == opened.disk(x));
                assert(dev1.block(x as int) == pre_flush.content(dev0, x));
            }
            assert forall|x: u64|
                x < sb.data_start && x != SUPER_BLOCK_ID && x != sb.inode_bmap_start && x != sb.inode_start
                    implies #[trigger] fs.disk(x) == zero_block() by {
                assert(allocated.disk(x) == opened.disk(x));
                assert(dev1.block(x as int) == pre_flush.content(dev0, x));
            }
        }
        Ok(fs)
    }

    /// Opens the file system on `dev`: reads the superblock and, when it is
    /// valid (it carries the marker and a consistent layout), returns a file
    /// system with fresh caches. The device is not written.
    pub fn open(dev: D) -> (r: Result<FileSystem<D>, FileSystemInvalid>)
        ensures
            r is Ok <==> device_sb_ok(dev),
            match r {
                Ok(fs) => {
                    &&& fs.wf()
                    &&& fs.dev == dev
                    &&& fs.sb == spec_decode_sb(dev.block(SUPER_BLOCK_ID as int))
                    &&& forall|x: u64| #[trigger] fs.disk(x) == dev.block(x as int)
                },
                Err(_) => true,
            },
    {
        if dev.block_count() <= SUPER_BLOCK_ID {
            return Err(FileSystemInvalid());
        }
        let mut block_cache = BlockCache::new();
        let ghost empty = block_cache;
        let h = block_cache.get(SUPER_BLOCK_ID, &dev);
        assert(block_cache.content(dev, SUPER_BLOCK_ID) == empty.content(dev, SUPER_BLOCK_ID));
        assert(!empty.has(SUPER_BLOCK_ID));
        assert(block_cache.entries@[h as int].data@ == dev.block(SUPER_BLOCK_ID as int));
        let sb = SuperBlock::decode(block_cache.data(h));
        if !sb.is_valid() {
            return Err(FileSystemInvalid());
        }
        let inode_cache = InodeCache::new();
        proof {
            assert forall|x: u64| #[trigger] block_cache.content(dev, x) == dev.block(x as int) by {
                assert(!empty.has(x));
                assert(block_cache.content(dev, x) == empty.content(dev, x));
            }
        }
        Ok(FileSystem { dev, sb, block_cache, inode_cache })
    }

    /// Finds the lowest free unit of bitmap block `bmap_id`, changing nothing
    /// on disk.
    fn lowest_free(&mut self, bmap_id: u64) -> (r: Option<usize>)
        requires
            old(self).wf(),
            (bmap_id as nat) < old(self).dev.num_blocks(),
        ensures
            final(self).wf(),
            final(self).sb == old(self).sb,
            final(self).dev == old(self).dev,
            final(self).inode_cache == old(self).inode_cache,
            forall|x: u64| #[trigger] final(self).disk(x) == old(self).disk(x),
            old(self).disk(bmap_id).len() == BLOCK_SIZE,
            ({
                let b = old(self).disk(bmap_id);
                match r {
                    None => all_set(b),
                    Some(k) => lowest_clear(b, k as int) && first_free(b) == k,
                }
            }),
    {
        let h = self.block_cache.get(bmap_id, &self.dev);
        assert(self.disk(bmap_id) == old(self).disk(bmap_id));
        assert(self.block_cache.entries@[h as int].data@ == old(self).disk(bmap_id));
        let mut bm = slice_to_vec(self.block_cache.data(h).as_slice());
        let r = bitmap_allocate(&mut bm);
        proof {
            if let Some(k) = r {
                lemma_first_free(old(self).disk(bmap_id), k as int);
            }
        }
        r
    }

    /// Marks unit `k` of bitmap block `bmap_id` in use.
    fn mark_used(&mut self, bmap_id: u64, k: usize)
        requires
            old(self).wf(),
            (bmap_id as nat) < old(self).dev.num_blocks(),
            k < 8 * BLOCK_SIZE,
        ensures
            final(self).wf(),
            final(self).sb == old(self).sb,
            final(self).dev == old(self).dev,
            final(self).inode_cache == old(self).inode_cache,
            final(self).disk(bmap_id) == spec_mark(old(self).disk(bmap_id), k as int),
            set_one(old(self).disk(bmap_id), final(self).disk(bmap_id), k as int),
            forall|x: u64| x != bmap_id ==> #[trigger] final(self).disk(x) == old(self).disk(x),
    {
        let h = self.block_cache.get(bmap_id, &self.dev);
        let ghost before = self.block_cache;
        assert(self.disk(bmap_id) == old(self).disk(bmap_id));
        assert(self.block_cache.entries@[h as int].data@ == old(self).disk(bmap_id));
        let mut bm = slice_to_vec(self.block_cache.data(h).as_slice());
        bitmap_mark(&mut bm, k);
        self.block_cache.write(h, bm);
        proof {
            BlockCache::lemma_after_write(before, self.block_cache, h as int, self.dev);
        }
    }

    /// Allocates a free block of the data area and returns its id: the data
    /// bitmap's lowest free unit, when it lies within the data area, is marked
    /// in use and its offset added to the data area's start. Otherwise (the
    /// bitmap is full, its free units all lie past the data area, or the
    /// device ends before the data bitmap) nothing changes and `None` is
    /// returned.
    pub fn allocate_block(&mut self) -> (r: Option<u64>)
        requires
            old(self).wf(),
        ensures
            final(self).wf(),
            final(self).sb == old(self).sb,
            final(self).dev == old(self).dev,
            ({
                let bs = old(self).sb.data_bmap_start;
                let b = old(self).disk(bs);
                let k = first_free(b);
                let on_device = (bs as nat) < old(self).dev.num_blocks();
                &&& r == if on_device { allocated_block(old(self).sb, b) } else { None }
                &&& (r is None ==> forall|x: u64| #[trigger] final(self).disk(x) == old(self).disk(x))
                &&& (!all_set(b) ==> lowest_clear(b, k))
                &&& (on_device && !all_set(b) && k < old(self).sb.data_blocks ==> {
                    &&& r == Some((old(self).sb.data_start + k) as u64)
                    &&& final(self).disk(bs) == spec_mark(b, k)
                    &&& set_one(b, final(self).disk(bs), k)
                    &&& forall|x: u64| x != bs ==> #[trigger] final(self).disk(x) == old(self).disk(x)
                })
            }),
    {
        proof {
            lemma_layout_data_fits(self.sb);
            let b = old(self).disk(old(self).sb.data_bmap_start);
            if !all_set(b) {
                lemma_first_free_exists(b);
            }
        }
        let bs = self.sb.data_bmap_start;
        if bs >= self.dev.block_count() {
            return None;
        }
        let k = match self.lowest_free(bs) {
            None => {
                return None;
            },
            Some(k) => k,
        };
        if (k as u64) >= self.sb.data_blocks {
            return None;
        }
        self.mark_used(bs, k);
        Some(self.sb.data_start + k as u64)
    }

    /// Allocates an inode of type `t`. The inode bitmap's lowest free unit is
    /// marked in use; when its offset names a slot of the inode table, that
    /// inode's descriptor is initialized for `t` and its record returned.
    /// When the offset lies past the inode table, the unit stays marked, the
    /// inode table is left as it was and `None` is returned. When the bitmap
    /// is full, or the device ends before the inode bitmap or before the
    /// inode's table block, nothing changes and `None` is returned.
    pub fn allocate_inode(&mut self, t: InodeType) -> (r: Option<Inode>)
        requires
            old(self).wf(),
        ensures
            final(self).wf(),
            final(self).sb == old(self).sb,
            final(self).dev == old(self).dev,
            ({
                let bs = old(self).sb.inode_bmap_start;
                let b = old(self).disk(bs);
                let k = first_free(b);
                let n = old(self).dev.num_blocks();
                if (bs as nat) >= n || all_set(b) {
                    &&& r is None
                    &&& forall|x: u64| #[trigger] final(self).disk(x) == old(self).disk(x)
                } else if k >= max_inodes(old(self).sb) {
                    &&& lowest_clear(b, k)
                    &&& r is None
                    &&& final(self).disk(bs) == spec_mark(b, k)
                    &&& set_one(b, final(self).disk(bs), k)
                    &&& forall|x: u64| x != bs ==> #[trigger] final(self).disk(x) == old(self).disk(x)
                } else if spec_inode_block(old(self).sb, k as u64) >= n {
                    &&& lowest_clear(b, k)
                    &&& r is None
                    &&& forall|x: u64| #[trigger] final(self).disk(x) == old(self).disk(x)
                } else {
                    &&& lowest_clear(b, k)
                    &&& final(self).disk(bs) == spec_mark(b, k)
                    &&& set_one(b, final(self).disk(bs), k)
                    &&& match r {
                        Some(i) => {
                            &&& i.inode_num == k
                            &&& inode_placed(old(self).sb, i)
                            &&& final(self).disk(i.block_id) == spec_with_dinode(
                                old(self).disk(i.block_id),
                                i.block_offset as int,
                                t,
                            )
                            &&& forall|x: u64|
                                x != bs && x != i.block_id ==> #[trigger] final(self).disk(x) == old(self).disk(x)
                        },
                        None => false,
                    }
                }
            }),
    {
        proof {
            lemma_layout_data_fits(self.sb);
        }
        let bs = self.sb.inode_bmap_start;
        let dev_blocks = self.dev.block_count();
        if bs >= dev_blocks {
            return None;
        }
        let k = match self.lowest_free(bs) {
            None => {
                return None;
            },
            Some(k) => k,
        };
        let inum = k as u64;
        if inum / INODES_PER_BLOCK >= self.sb.inode_blocks_num {
            self.mark_used(bs, k);
            return None;
        }
        if self.sb.inode_start + inum / INODES_PER_BLOCK >= dev_blocks {
            return None;
        }
        self.mark_used(bs, k);
        let ghost mid = *self;
        let slot = match self.inode_cache.get(inum, &self.sb) {
            Err(_) => {
                return None;
            },
            Ok(slot) => slot,
        };
        let inode = self.inode_cache.entries[slot];
        let h = self.block_cache.get(inode.block_id, &self.dev);
        let ghost before = self.block_cache;
        assert(self.disk(inode.block_id) == mid.disk(inode.block_id));
        assert(self.block_cache.entries@[h as int].data@ == mid.disk(inode.block_id));
        let blk = with_dinode(self.block_cache.data(h), inode.block_offset, t);
        self.block_cache.write(h, blk);
        proof {
            BlockCache::lemma_after_write(before, self.block_cache, h as int, self.dev);
            assert(mid.disk(inode.block_id) == old(self).disk(inode.block_id));
            assert forall|x: u64| x != bs && x != inode.block_id implies #[trigger] self.disk(x) == old(self).disk(x) by {
                assert(self.block_cache.content(self.dev, x) == before.content(self.dev, x));
                assert(before.content(self.dev, x) == mid.block_cache.content(mid.dev, x));
                assert(mid.disk(x) == old(self).disk(x));
            }
            assert(self.disk(bs) == mid.disk(bs));
        }
        Some(inode)
    }

    /// Returns the record of inode `inum`; every call for the same number
    /// gives the same record. Fails exactly when `inum` lies outside the inode
    /// table. Nothing is read or written.
    pub fn get_inode(&mut self, inum: u64) -> (r: Result<Inode, InodeNotExists>)
        requires
            old(self).wf(),
        ensures
            final(self).wf(),
            final(self).sb == old(self).sb,
            final(self).dev == old(self).dev,
            final(self).block_cache == old(self).block_cache,
            r is Err <==> inum >= max_inodes(old(self).sb),
            match r {
                Ok(i) => i.inode_num == inum && inode_placed(old(self).sb, i),
                Err(_) => true,
            },
    {
        proof {
            lemma_layout_data_fits(self.sb);
        }
        match self.inode_cache.get(inum, &self.sb) {
            Err(e) => Err(e),
            Ok(slot) => Ok(self.inode_cache.entries[slot]),
        }
    }

    /// Whether the root inode has been allocated: the inode table has a slot
    /// for it, the device holds the inode bitmap, and the root's unit in it is
    /// marked in use.
    pub fn root_exists(&mut self) -> (r: bool)
        requires
            old(self).wf(),
        ensures
            final(self).wf(),
            final(self).sb == old(self).sb,
            final(self).dev == old(self).dev,
            final(self).inode_cache == old(self).inode_cache,
            forall|x: u64| #[trigger] final(self).disk(x) == old(self).disk(x),
            r == (old(self).sb.inode_blocks_num > 0 && (old(self).sb.inode_bmap_start as nat) < old(self).dev.num_blocks()
                && bit_set(old(self).disk(old(self).sb.inode_bmap_start), 0)),
    {
        proof {
            lemma_layout_data_fits(self.sb);
        }
        if self.sb.inode_blocks_num == 0 {
            return false;
        }
        let bs = self.sb.inode_bmap_start;
        if bs >= self.dev.block_count() {
            return false;
        }
        let h = self.block_cache.get(bs, &self.dev);
        assert(self.disk(bs) == old(self).disk(bs));
        assert(self.block_cache.entries@[h as int].data@ == old(self).disk(bs));
        let byte = self.block_cache.data(h)[0];
        (byte >> 0u8) & 1u8 == 1u8
    }

    /// Returns the record of the root inode, number 0. The root must have
    /// been allocated (see `root_exists`).
    pub fn root(&mut self) -> (r: Inode)
        requires
            old(self).wf(),
            old(self).sb.inode_blocks_num > 0,
            bit_set(old(self).disk(old(self).sb.inode_bmap_start), 0),
        ensures
            final(self).wf(),
            final(self).sb == old(self).sb,
            final(self).dev == old(self).dev,
            final(self).block_cache == old(self).block_cache,
            r.inode_num == 0,
            inode_placed(old(self).sb, r),
    {
        match self.get_inode(0) {
            Ok(i) => i,
            Err(_) => Inode { inode_num: 0, block_id: 0, block_offset: 0 },
        }
    }

    /// Reads the type stored in an inode's descriptor; `None` when the code
    /// stored there names no type, or the device ends before its block.
    pub fn inode_type(&mut self, inode: &Inode) -> (r: Option<InodeType>)
        requires
            old(self).wf(),
            inode_placed(old(self).sb, *inode),
        ensures
            final(self).wf(),
            final(self).sb == old(self).sb,
            final(self).dev == old(self).dev,
            final(self).inode_cache == old(self).inode_cache,
            forall|x: u64| #[trigger] final(self).disk(x) == old(self).disk(x),
            r == if (inode.block_id as nat) < old(self).dev.num_blocks() {
                spec_dinode_type(old(self).disk(inode.block_id), inode.block_offset as int)
            } else {
                None
            },
    {
        proof {
            lemma_layout_data_fits(self.sb);
        }
        if inode.block_id >= self.dev.block_count() {
            return None;
        }
        let h = self.block_cache.get(inode.block_id, &self.dev);
        assert(self.disk(inode.block_id) == old(self).disk(inode.block_id));
        assert(self.block_cache.entries@[h as int].data@ == old(self).disk(inode.block_id));
        dinode_type(self.block_cache.data(h), inode.block_offset)
    }

    /// Writes every dirty cached block back to the device.
    pub fn flush(&mut self)
        requires
            old(self).wf(),
        ensures
            final(self).wf(),
            final(self).sb == old(self).sb,
            final(self).inode_cache == old(self).inode_cache,
            final(self).dev.num_blocks() == old(self).dev.num_blocks(),
            forall|x: u64| #[trigger] final(self).dev.block(x as int) == old(self).disk(x),
            forall|x: u64| #[trigger] final(self).disk(x) == old(self).disk(x),
    {
        self.block_cache.flush(&mut self.dev);
    }
}

} // verus!
