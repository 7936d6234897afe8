use crate::layout::{SuperBlock, DINODE_SIZE, INODES_PER_BLOCK};
use vstd::bytes::{lemma_auto_spec_u64_to_from_le_bytes, spec_u64_from_le_bytes, spec_u64_to_le_bytes, u64_from_le_bytes, u64_to_le_bytes};
use vstd::prelude::*;
use vstd::slice::slice_subrange;

verus! {

/// What an on-disk inode descriptor describes.
#[derive(Clone, Copy, Debug, PartialEq, Eq, Structural)]
pub enum InodeType {
    Free,
    File,
    Directory,
}

/// The code stored for each inode type.
pub open spec fn type_code(t: InodeType) -> u64 {
    match t {
        InodeType::Free => 0,
        InodeType::File => 1,
        InodeType::Directory => 2,
    }
}

/// The inode type a stored code stands for, if any.
pub open spec fn type_of_code(c: u64) -> Option<InodeType> {
    if c == 0 {
        Some(InodeType::Free)
    } else if c == 1 {
        Some(InodeType::File)
    } else if c == 2 {
        Some(InodeType::Directory)
    } else {
        None
    }
}

/// A freshly initialized descriptor: its type code little-endian, then zero
/// size and zero block pointers.
pub open spec fn spec_init_dinode(t: InodeType) -> Seq<u8> {
    Seq::new(DINODE_SIZE as nat, |k: int| if k < 8 { spec_u64_to_le_bytes(type_code(t))[k] } else { 0u8 })
}

/// The type stored in the descriptor at byte `off` of a block.
pub open spec fn spec_dinode_type(blk: Seq<u8>, off: int) -> Option<InodeType> {
    type_of_code(spec_u64_from_le_bytes(blk.subrange(off, off + 8)))
}

/// `blk` with the descriptor at byte `off` replaced by a fresh one of type `t`.
pub open spec fn spec_with_dinode(blk: Seq<u8>, off: int, t: InodeType) -> Seq<u8> {
    Seq::new(blk.len(), |k: int| if off <= k < off + DINODE_SIZE { spec_init_dinode(t)[k - off] } else { blk[k] })
}

/// Inode numbers below this bound have a slot in the inode table.
pub open spec fn max_inodes(sb: SuperBlock) -> int {
    sb.inode_blocks_num * INODES_PER_BLOCK
}

/// The inode-table block that holds inode `inum`.
pub open spec fn spec_inode_block(sb: SuperBlock, inum: u64) -> int {
    sb.inode_start + inum / INODES_PER_BLOCK
}

/// Byte offset of inode `inum` within its block.
pub open spec fn spec_inode_offset(inum: u64) -> int {
    (inum % INODES_PER_BLOCK) * DINODE_SIZE
}

/// Writing a fresh descriptor and reading its type back gives that type.
pub proof fn lemma_init_dinode_type(blk: Seq<u8>, off: int, t: InodeType)
    requires
        0 <= off,
        off + DINODE_SIZE <= blk.len(),
    ensures
        spec_dinode_type(spec_with_dinode(blk, off, t), off) == Some(t),
        spec_with_dinode(blk, off, t).len() == blk.len(),
{
    lemma_auto_spec_u64_to_from_le_bytes();
    let nb = spec_with_dinode(blk, off, t);
    assert(nb.subrange(off, off + 8) =~= spec_u64_to_le_bytes(type_code(t)));
}

/// Where an inode's descriptor lives: its number, its inode-table block, and
/// its byte offset in that block. All holders of the same number share the
/// one descriptor on disk.
#[derive(Clone, Copy, Debug, PartialEq, Eq, Structural)]
pub struct Inode {
    pub inode_num: u64,
    pub block_id: u64,
    pub block_offset: usize,
}

/// The inode lies where `sb` places inode `inode_num`.
pub open spec fn inode_placed(sb: SuperBlock, i: Inode) -> bool {
    &&& i.inode_num < max_inodes(sb)
    &&& i.block_id == spec_inode_block(sb, i.inode_num)
    &&& i.block_offset == spec_inode_offset(i.inode_num)
}

/// Two records of the same inode are the same record: they name the same
/// block and offset, so a change made through one is seen through the other.
pub proof fn lemma_inode_records_agree(sb: SuperBlock, a: Inode, b: Inode)
    requires
        inode_placed(sb, a),
        inode_placed(sb, b),
        a.inode_num == b.inode_num,
    ensures
        a == b,
{
}

/// The inode number lies outside the inode table.
#[derive(Clone, Copy, Debug, PartialEq, Eq, Structural)]
pub struct InodeNotExists;

/// A table of live inodes holding at most one entry per inode number.
pub struct InodeCache {
    pub entries: Vec<Inode>,
}

impl InodeCache {
    /// Numbers are unique and every entry lies where `sb` places it.
    pub open spec fn wf(&self, sb: SuperBlock) -> bool {
        &&& forall|i: int, j: int|
            0 <= i < j < self.entries@.len() ==> (#[trigger] self.entries@[i]).inode_num
                != (#[trigger] self.entries@[j]).inode_num
        &&& forall|i: int| 0 <= i < self.entries@.len() ==> inode_placed(sb, #[trigger] self.entries@[i])
    }

    /// Inode `inum` has an entry.
    pub open spec fn has(&self, inum: u64) -> bool {
        exists|i: int| 0 <= i < self.entries@.len() && (#[trigger] self.entries@[i]).inode_num == inum
    }

    /// A table holds one record per inode number: two slots holding the same
    /// number are the same slot.
    pub proof fn lemma_one_record_per_inode(&self, sb: SuperBlock, i: int, j: int)
        requires
            self.wf(sb),
            0 <= i < self.entries@.len(),
            0 <= j < self.entries@.len(),
            self.entries@[i].inode_num == self.entries@[j].inode_num,
        ensures
            i == j,
    {
        if i < j {
            assert(self.entries@[i].inode_num != self.entries@[j].inode_num);
        } else if j < i {
            assert(self.entries@[j].inode_num != self.entries@[i].inode_num);
        }
    }

    /// An empty table.
    pub fn new() -> (c: InodeCache)
        ensures
            c.entries@.len() == 0,
            forall|sb: SuperBlock| c.wf(sb),
    {
        InodeCache { entries: Vec::new() }
    }

    /// Returns the slot of inode `inum`, creating its entry on first
    /// reference; fails exactly when `inum` lies outside the inode table.
    pub fn get(&mut self, inum: u64, sb: &SuperBlock) -> (r: Result<usize, InodeNotExists>)
        requires
            old(self).wf(*sb),
            sb.inode_start + sb.inode_blocks_num <= u64::MAX,
        ensures
            final(self).wf(*sb),
            r is Err <==> inum >= max_inodes(*sb),
            r is Err ==> *final(self) == *old(self),
            forall|k: int| 0 <= k < old(self).entries@.len() ==> final(self).entries@[k] == old(self).entries@[k],
            old(self).entries@.len() <= final(self).entries@.len(),
            match r {
                Ok(h) => {
                    &&& h < final(self).entries@.len()
                    &&& final(self).entries@[h as int].inode_num == inum
                    &&& inode_placed(*sb, final(self).entries@[h as int])
                    &&& (forall|k: int| 0 <= k < old(self).entries@.len() && old(self).entries@[k].inode_num == inum ==> h == k)
                    &&& (old(self).has(inum) ==> *final(self) == *old(self))
                },
                Err(_) => true,
            },
    {
        if inum / INODES_PER_BLOCK >= sb.inode_blocks_num {
            return Err(InodeNotExists);
        }
        let n = self.entries.len();
        let mut i: usize = 0;
        while i < n
            invariant
                n == self.entries@.len(),
                *self == *old(self),
                self.wf(*sb),
                0 <= i <= n,
                forall|k: int| 0 <= k < i ==> (#[trigger] self.entries@[k]).inode_num != inum,
            decreases n - i,
        {
            if self.entries[i].inode_num == inum {
                proof {
                    assert forall|k: int| 0 <= k < n && old(self).entries@[k].inode_num == inum implies i == k by {
                        if k < i {
                        } else if k > i {
                            assert(self.entries@[i as int].inode_num != self.entries@[k].inode_num);
                        }
                    }
                }
                return Ok(i);
            }
            i = i + 1;
        }
        proof {
            assert forall|k: int| 0 <= k < n implies ((#[trigger] old(self).entries@[k]).inode_num != inum) by {}
            assert(inum / INODES_PER_BLOCK <= sb.inode_blocks_num);
        }
        let block_id = sb.inode_start + inum / INODES_PER_BLOCK;
        let block_offset = ((inum % INODES_PER_BLOCK) as usize) * DINODE_SIZE;
        self.entries.push(Inode { inode_num: inum, block_id, block_offset });
        Ok(n)
    }
}

/// Reads the type stored in the descriptor at byte `off` of a block.
pub fn dinode_type(blk: &Vec<u8>, off: usize) -> (r: Option<InodeType>)
    requires
        off + 8 <= blk@.len(),
    ensures
        r == spec_dinode_type(blk@, off as int),
{
    let len = blk.len();
    assert(off + 8 <= len);
    let c = u64_from_le_bytes(slice_subrange(blk.as_slice(), off, off + 8));
    if c == 0 {
        Some(InodeType::Free)
    } else if c == 1 {
        Some(InodeType::File)
    } else if c == 2 {
        Some(InodeType::Directory)
    } else {
        None
    }
}

/// Returns `blk` with the descriptor at byte `off` replaced by a fresh one of
/// type `t`.
pub fn with_dinode(blk: &Vec<u8>, off: usize, t: InodeType) -> (r: Vec<u8>)
    requires
        off + DINODE_SIZE <= blk@.len(),
    ensures
        r@ == spec_with_dinode(blk@, off as int, t),
{
    let code: u64 = match t {
        InodeType::Free => 0,
        InodeType::File => 1,
        InodeType::Directory => 2,
    };
    let bytes = u64_to_le_bytes(code);
    let n = blk.len();
    let mut r: Vec<u8> = Vec::new();
    let mut k: usize = 0;
    while k < n
        invariant
            n == blk@.len(),
            off + DINODE_SIZE <= n,
            k <= n,
            r@.len() == k,
            bytes@ == spec_u64_to_le_bytes(type_code(t)),
            bytes@.len() == 8,
            forall|j: int| 0 <= j < k ==> r@[j] == spec_with_dinode(blk@, off as int, t)[j],
        decreases n - k,
    {
        let v: u8 = if off <= k && k < off + DINODE_SIZE {
            if k - off < 8 {
                bytes[k - off]
            } else {
                0u8
            }
        } else {
            blk[k]
        };
        r.push(v);
        k = k + 1;
    }
    assert(r@ =~= spec_with_dinode(blk@, off as int, t));
    r
}

} // verus!
