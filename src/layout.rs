use vstd::bytes::{
    lemma_auto_spec_u64_to_from_le_bytes, spec_u64_from_le_bytes, spec_u64_to_le_bytes,
    u64_from_le_bytes, u64_to_le_bytes,
};
use vstd::prelude::*;
use vstd::slice::slice_subrange;

verus! {

/// Size in bytes of one device block.
pub const BLOCK_SIZE: usize = 512;

/// Number of units one bitmap block can track (one bit each).
pub const BITS_PER_BITMAP_BLOCK: u64 = 4096;

/// Number of on-disk inode descriptors packed into one block.
pub const INODES_PER_BLOCK: u64 = 4;

/// Size in bytes of one on-disk inode descriptor.
pub const DINODE_SIZE: usize = 128;

/// Block id holding the superblock.
pub const SUPER_BLOCK_ID: u64 = 1;

/// Validity marker stored at the head of the superblock.
pub const FS_MAGIC: u64 = 0x5346_4b43_4f4c_4221;

/// The device geometry, as stored in the superblock.
#[derive(Clone, Copy, Debug, PartialEq, Eq, Structural)]
pub struct SuperBlock {
    pub magic: u64,
    pub total_blocks: u64,
    pub data_blocks: u64,
    pub inode_blocks_num: u64,
    pub inode_bmap_start: u64,
    pub inode_start: u64,
    pub data_bmap_start: u64,
    pub data_start: u64,
}

/// Blocks taken by the inode bitmap for `inode_blocks` inode-table blocks
/// (always at least one more than strictly needed).
pub open spec fn inode_bmap_blocks_of(inode_blocks: int) -> int {
    inode_blocks / (BITS_PER_BITMAP_BLOCK as int) + 1
}

/// The geometry leaves room for the superblock, the log block, the inode
/// bitmap, the inode table, the data bitmap and at least one data block.
pub open spec fn layout_ok(total_blocks: int, inode_blocks: int) -> bool {
    &&& 0 <= inode_blocks
    &&& total_blocks > 2 + inode_bmap_blocks_of(inode_blocks) + inode_blocks
    &&& data_area_of(total_blocks, inode_blocks) - data_bmap_blocks_of(data_area_of(total_blocks, inode_blocks)) >= 1
}

/// Blocks left for the data bitmap and the data itself.
pub open spec fn data_area_of(total_blocks: int, inode_blocks: int) -> int {
    total_blocks - 2 - inode_bmap_blocks_of(inode_blocks) - inode_blocks
}

/// Blocks taken by the data bitmap: one per `8 * BLOCK_SIZE + 1` blocks of the
/// data area, plus one.
pub open spec fn data_bmap_blocks_of(data_area: int) -> int {
    data_area / (1 + 8 * BLOCK_SIZE as int) + 1
}

/// The superblock that formatting a device of `total_blocks` blocks with
/// `inode_blocks` inode-table blocks produces.
pub open spec fn spec_layout(total_blocks: u64, inode_blocks: u64) -> SuperBlock {
    let area = data_area_of(total_blocks as int, inode_blocks as int);
    let dbmap = data_bmap_blocks_of(area);
    SuperBlock {
        magic: FS_MAGIC,
        total_blocks,
        data_blocks: (area - dbmap) as u64,
        inode_blocks_num: inode_blocks,
        inode_bmap_start: 2,
        inode_start: 3,
        data_bmap_start: (3 + inode_blocks) as u64,
        data_start: (3 + inode_blocks + dbmap) as u64,
    }
}

/// A superblock is valid when it carries the marker and is exactly the layout
/// that its own total and inode-block counts give.
pub open spec fn sb_valid(sb: SuperBlock) -> bool {
    &&& sb.magic == FS_MAGIC
    &&& layout_ok(sb.total_blocks as int, sb.inode_blocks_num as int)
    &&& sb == spec_layout(sb.total_blocks, sb.inode_blocks_num)
}

proof fn lemma_data_bmap_fits(area: int)
    requires
        area >= 1,
    ensures
        1 <= data_bmap_blocks_of(area) <= area,
{
    assert(area / 4097 <= area - 1) by (nonlinear_arith)
        requires
            area >= 1,
    ;
}

/// Regions of a computed layout follow each other in the fixed order
/// superblock, inode bitmap, inode table, data bitmap, data area, and the data
/// area starts within the device; the data blocks and the data bitmap fill
/// what the other regions leave.
pub proof fn lemma_layout_regions_ordered(total_blocks: u64, inode_blocks: u64)
    requires
        layout_ok(total_blocks as int, inode_blocks as int),
        inode_blocks > 0,
    ensures
        ({
            let sb = spec_layout(total_blocks, inode_blocks);
            &&& SUPER_BLOCK_ID < sb.inode_bmap_start
            &&& sb.inode_bmap_start < sb.inode_start
            &&& sb.inode_start < sb.data_bmap_start
            &&& sb.data_bmap_start < sb.data_start
            &&& sb.data_start <= sb.total_blocks
            &&& sb.data_start + sb.data_blocks <= sb.total_blocks
            &&& sb.data_blocks >= 1
        }),
{
    lemma_data_bmap_fits(data_area_of(total_blocks as int, inode_blocks as int));
}

/// The regions of a valid superblock lie within its device in their fixed
/// order, and there is at least one data block.
pub proof fn lemma_layout_data_fits(sb: SuperBlock)
    requires
        sb_valid(sb),
    ensures
        sb.inode_bmap_start == 2,
        sb.inode_start == 3,
        sb.inode_start + sb.inode_blocks_num == sb.data_bmap_start,
        sb.data_bmap_start < sb.data_start,
        sb.data_start + sb.data_blocks <= sb.total_blocks,
        sb.data_blocks >= 1,
{
    lemma_data_bmap_fits(data_area_of(sb.total_blocks as int, sb.inode_blocks_num as int));
}

/// Whether a device of `total_blocks` blocks has room for the fixed regions,
/// `inode_blocks` inode-table blocks, the data bitmap and at least one data
/// block.
pub fn layout_fits(total_blocks: u64, inode_blocks: u64) -> (r: bool)
    ensures
        r == layout_ok(total_blocks as int, inode_blocks as int),
{
    let ibmap: u64 = inode_blocks / BITS_PER_BITMAP_BLOCK + 1;
    if inode_blocks > u64::MAX - ibmap - 2 || total_blocks <= 2 + ibmap + inode_blocks {
        return false;
    }
    let data_area: u64 = total_blocks - 2 - ibmap - inode_blocks;
    proof {
        lemma_data_bmap_fits(data_area as int);
    }
    let data_bmap_blocks: u64 = data_area / (1 + 8 * BLOCK_SIZE as u64) + 1;
    data_area - data_bmap_blocks >= 1
}

/// Computes the layout of a device of `total_blocks` blocks with
/// `inode_blocks` inode-table blocks.
pub fn compute_layout(total_blocks: u64, inode_blocks: u64) -> (sb: SuperBlock)
    requires
        layout_ok(total_blocks as int, inode_blocks as int),
    ensures
        sb == spec_layout(total_blocks, inode_blocks),
        sb_valid(sb),
{
    let inode_bmap_blocks: u64 = inode_blocks / BITS_PER_BITMAP_BLOCK + 1;
    let inode_area: u64 = inode_bmap_blocks + inode_blocks;
    let data_area: u64 = total_blocks - 2 - inode_area;
    proof {
        lemma_data_bmap_fits(data_area as int);
    }
    let data_bmap_blocks: u64 = data_area / (1 + 8 * BLOCK_SIZE as u64) + 1;
    let data_blocks: u64 = data_area - data_bmap_blocks;
    let data_bmap_start: u64 = 3 + inode_blocks;
    let data_start: u64 = data_bmap_start + data_bmap_blocks;
    SuperBlock {
        magic: FS_MAGIC,
        total_blocks,
        data_blocks,
        inode_blocks_num: inode_blocks,
        inode_bmap_start: 2,
        inode_start: 3,
        data_bmap_start,
        data_start,
    }
}

/// The eight fields of a superblock in on-disk order.
pub open spec fn sb_fields(sb: SuperBlock) -> Seq<u64> {
    seq![
        sb.magic,
        sb.total_blocks,
        sb.data_blocks,
        sb.inode_blocks_num,
        sb.inode_bmap_start,
        sb.inode_start,
        sb.data_bmap_start,
        sb.data_start,
    ]
}

/// The little-endian field `i` of an encoded block.
pub open spec fn field_at(b: Seq<u8>, i: int) -> u64 {
    spec_u64_from_le_bytes(b.subrange(8 * i, 8 * i + 8))
}

/// The superblock read from the head of a block.
pub open spec fn spec_decode_sb(b: Seq<u8>) -> SuperBlock {
    SuperBlock {
        magic: field_at(b, 0),
        total_blocks: field_at(b, 1),
        data_blocks: field_at(b, 2),
        inode_blocks_num: field_at(b, 3),
        inode_bmap_start: field_at(b, 4),
        inode_start: field_at(b, 5),
        data_bmap_start: field_at(b, 6),
        data_start: field_at(b, 7),
    }
}

/// A block holding a superblock: its eight fields little-endian, then zeros.
pub open spec fn spec_encode_sb(sb: SuperBlock) -> Seq<u8> {
    Seq::new(BLOCK_SIZE as nat, |k: int|
        if k < 64 { spec_u64_to_le_bytes(sb_fields(sb)[k / 8])[k % 8] } else { 0u8 })
}

/// Decoding an encoded superblock gives it back.
pub proof fn lemma_sb_round_trip(sb: SuperBlock)
    ensures
        spec_decode_sb(spec_encode_sb(sb)) == sb,
        spec_encode_sb(sb).len() == BLOCK_SIZE,
{
    lemma_auto_spec_u64_to_from_le_bytes();
    let b = spec_encode_sb(sb);
    assert forall|i: int| 0 <= i < 8 implies field_at(b, i) == sb_fields(sb)[i] by {
        assert(b.subrange(8 * i, 8 * i + 8) =~= spec_u64_to_le_bytes(sb_fields(sb)[i]));
    }
}

impl SuperBlock {
    /// Encodes this superblock as one device block.
    pub fn encode(&self) -> (b: Vec<u8>)
        ensures
            b@ == spec_encode_sb(*self),
    {
        let fields: [u64; 8] = [
            self.magic,
            self.total_blocks,
            self.data_blocks,
            self.inode_blocks_num,
            self.inode_bmap_start,
            self.inode_start,
            self.data_bmap_start,
            self.data_start,
        ];
        proof {
            lemma_auto_spec_u64_to_from_le_bytes();
            assert(fields@ =~= sb_fields(*self));
        }
        let mut b: Vec<u8> = Vec::new();
        let mut i: usize = 0;
        while i < 8
            invariant
                0 <= i <= 8,
                fields@ == sb_fields(*self),
                b@.len() == 8 * i,
                forall|k: int| 0 <= k < 8 * i ==> b@[k] == spec_u64_to_le_bytes(sb_fields(*self)[k / 8])[k % 8],
            decreases 8 - i,
        {
            let bytes = u64_to_le_bytes(fields[i]);
            let mut j: usize = 0;
            while j < 8
                invariant
                    0 <= i < 8,
                    0 <= j <= 8,
                    fields@ == sb_fields(*self),
                    bytes@ == spec_u64_to_le_bytes(fields@[i as int]),
                    bytes@.len() == 8,
                    b@.len() == 8 * i + j,
                    forall|k: int| 0 <= k < 8 * i + j ==> b@[k] == spec_u64_to_le_bytes(sb_fields(*self)[k / 8])[k % 8],
                decreases 8 - j,
            {
                b.push(bytes[j]);
                j = j + 1;
            }
            i = i + 1;
        }
        while b.len() < BLOCK_SIZE
            invariant
                64 <= b@.len() <= BLOCK_SIZE,
                forall|k: int| 0 <= k < 64 ==> b@[k] == spec_u64_to_le_bytes(sb_fields(*self)[k / 8])[k % 8],
                forall|k: int| 64 <= k < b@.len() ==> b@[k] == 0u8,
            decreases BLOCK_SIZE - b@.len(),
        {
            b.push(0u8);
        }
        assert(b@ =~= spec_encode_sb(*self));
        b
    }

    /// Reads a superblock from the head of a device block.
    pub fn decode(b: &Vec<u8>) -> (sb: SuperBlock)
        requires
            b@.len() == BLOCK_SIZE,
        ensures
            sb == spec_decode_sb(b@),
    {
        SuperBlock {
            magic: u64_from_le_bytes(slice_subrange(b.as_slice(), 0, 8)),
            total_blocks: u64_from_le_bytes(slice_subrange(b.as_slice(), 8, 16)),
            data_blocks: u64_from_le_bytes(slice_subrange(b.as_slice(), 16, 24)),
            inode_blocks_num: u64_from_le_bytes(slice_subrange(b.as_slice(), 24, 32)),
            inode_bmap_start: u64_from_le_bytes(slice_subrange(b.as_slice(), 32, 40)),
            inode_start: u64_from_le_bytes(slice_subrange(b.as_slice(), 40, 48)),
            data_bmap_start: u64_from_le_bytes(slice_subrange(b.as_slice(), 48, 56)),
            data_start: u64_from_le_bytes(slice_subrange(b.as_slice(), 56, 64)),
        }
    }

    /// Whether this superblock carries the marker and a consistent layout.
    pub fn is_valid(&self) -> (r: bool)
        ensures
            r == sb_valid(*self),
    {
        if self.magic != FS_MAGIC {
            return false;
        }
        let ib = self.inode_blocks_num;
        if !layout_fits(self.total_blocks, ib) {
            return false;
        }
        let expected = compute_layout(self.total_blocks, ib);
        expected == *self
    }
}

} // verus!
