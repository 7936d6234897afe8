use blockfs::block_cache::BlockCache;
use blockfs::device::{BlockDevice, MemBlockDevice};
use blockfs::fs::{FileSystem, FileSystemAllocationError, FileSystemInvalid};
use blockfs::inode::{dinode_type, InodeCache, InodeType};
use blockfs::layout::{compute_layout, BLOCK_SIZE, SUPER_BLOCK_ID};

fn created(total: u64, inodes: u64) -> FileSystem<MemBlockDevice> {
    let dev = MemBlockDevice::new(total as usize);
    FileSystem::create(dev, total, inodes).expect("create")
}

#[test]
fn root_exists_after_create() {
    let fs = created(64, 4);
    let mut fs = FileSystem::open(fs.dev).expect("open");
    let root = fs.root();
    assert_eq!(root.inode_num, 0);
    assert_eq!(fs.inode_type(&root), Some(InodeType::Directory));
}

#[test]
fn open_after_create_matches_layout() {
    let fs = created(64, 4);
    let sb = fs.sb;
    assert_eq!(sb, compute_layout(64, 4));
    let before: Vec<Vec<u8>> = (0..64).map(|i| fs.dev.read_block(i)).collect();
    let reopened = FileSystem::open(fs.dev).expect("open");
    assert_eq!(reopened.sb, sb);
    let after: Vec<Vec<u8>> = (0..64).map(|i| reopened.dev.read_block(i)).collect();
    assert_eq!(before, after);
}

#[test]
fn create_writes_device() {
    let fs = created(64, 4);
    assert_eq!(fs.dev.read_block(SUPER_BLOCK_ID), fs.sb.encode());
    let ibmap = fs.dev.read_block(fs.sb.inode_bmap_start);
    assert_eq!(ibmap[0], 1);
    assert!(ibmap[1..].iter().all(|b| *b == 0));
    let table = fs.dev.read_block(fs.sb.inode_start);
    assert_eq!(dinode_type(&table, 0), Some(InodeType::Directory));
    assert_eq!(dinode_type(&table, 128), Some(InodeType::Free));
    assert!(fs.dev.read_block(fs.sb.data_bmap_start).iter().all(|b| *b == 0));
}

#[test]
fn open_blank_device_is_invalid() {
    let dev = MemBlockDevice::new(64);
    assert!(matches!(FileSystem::open(dev), Err(FileSystemInvalid())));
    let tiny = MemBlockDevice::new(1);
    assert!(FileSystem::open(tiny).is_err());
}

fn truncated_copy(fs: &FileSystem<MemBlockDevice>, blocks: u64) -> MemBlockDevice {
    let mut small = MemBlockDevice::new(blocks as usize);
    for i in 0..blocks {
        small.write_block(i, &fs.dev.read_block(i));
    }
    small
}

#[test]
fn open_accepts_superblock_larger_than_device() {
    let fs = created(64, 4);
    let small = truncated_copy(&fs, 8);
    let reopened = FileSystem::open(small).expect("open");
    assert_eq!(reopened.sb, fs.sb);
    assert_eq!(reopened.sb.total_blocks, 64);
}

#[test]
fn allocation_stops_where_device_ends() {
    let fs = created(64, 4);
    // The data bitmap (block 7) lies past a 6-block device; the inode bitmap
    // and the first inode-table block lie within it.
    let mut six = FileSystem::open(truncated_copy(&fs, 6)).expect("open");
    assert_eq!(six.allocate_block(), None);
    let inode = six.allocate_inode(InodeType::File).expect("inode");
    assert_eq!(inode.inode_num, 1);
    assert_eq!(six.inode_type(&inode), Some(InodeType::File));
    // On a 3-block device the inode table is missing: nothing is marked.
    let mut three = FileSystem::open(truncated_copy(&fs, 3)).expect("open");
    assert!(three.root_exists());
    assert_eq!(three.allocate_inode(InodeType::File), None);
    three.flush();
    assert_eq!(three.dev.read_block(2)[0], 1);
    let root = three.root();
    assert_eq!(three.inode_type(&root), None);
    // With only two blocks the inode bitmap is missing too.
    let mut two = FileSystem::open(truncated_copy(&fs, 2)).expect("open");
    assert!(!two.root_exists());
    assert_eq!(two.allocate_inode(InodeType::File), None);
}

#[test]
fn open_twice_gives_same_superblock() {
    let fs = created(64, 4);
    let a = FileSystem::open(fs.dev).expect("open");
    let sb = a.sb;
    let b = FileSystem::open(a.dev).expect("open");
    assert_eq!(b.sb, sb);
}

#[test]
fn allocate_block_until_exhausted() {
    let mut fs = created(64, 4);
    let data_blocks = fs.sb.data_blocks;
    assert_eq!(data_blocks, 56);
    let mut seen = Vec::new();
    for n in 0..data_blocks {
        let id = fs.allocate_block().expect("block");
        assert_eq!(id, fs.sb.data_start + n);
        assert!(!seen.contains(&id));
        seen.push(id);
    }
    fs.flush();
    let bitmap_before = fs.dev.read_block(fs.sb.data_bmap_start);
    assert!(bitmap_before[..7].iter().all(|b| *b == 0xff));
    assert!(bitmap_before[7..].iter().all(|b| *b == 0));
    assert_eq!(fs.allocate_block(), None);
    assert_eq!(fs.allocate_block(), None);
    fs.flush();
    assert_eq!(fs.dev.read_block(fs.sb.data_bmap_start), bitmap_before);
}

#[test]
fn allocate_inode_until_table_full() {
    let mut fs = created(64, 4);
    for n in 1..16u64 {
        let inode = fs.allocate_inode(InodeType::File).expect("inode");
        assert_eq!(inode.inode_num, n);
    }
    assert_eq!(fs.allocate_inode(InodeType::Directory), None);
}

#[test]
fn root_exists_only_when_allocated() {
    let mut fs = created(64, 4);
    assert!(fs.root_exists());
    let mut dev = fs.dev;
    let ibmap = 2;
    dev.write_block(ibmap, &vec![0u8; BLOCK_SIZE]);
    let mut reopened = FileSystem::open(dev).expect("open");
    assert!(!reopened.root_exists());
}

#[test]
fn allocate_inode_rejects_offset_past_table() {
    let mut fs = created(16, 1);
    // Inode 0 is the root; the table of one block holds inodes 0..4.
    for n in 1..4u64 {
        let inode = fs.allocate_inode(InodeType::File).expect("inode");
        assert_eq!(inode.inode_num, n);
        assert_eq!(fs.inode_type(&inode), Some(InodeType::File));
    }
    fs.flush();
    let table_before = fs.dev.read_block(fs.sb.inode_start);
    assert_eq!(fs.allocate_inode(InodeType::File), None);
    fs.flush();
    assert_eq!(fs.dev.read_block(fs.sb.inode_start), table_before);
    // The rejected unit stays marked in use.
    let ibmap = fs.dev.read_block(fs.sb.inode_bmap_start);
    assert_eq!(ibmap[0], 0b0001_1111);
}

#[test]
fn get_inode_same_record_and_bounds() {
    let mut fs = created(64, 4);
    let a = fs.get_inode(9).expect("inode");
    let b = fs.get_inode(9).expect("inode");
    assert_eq!(a, b);
    assert_eq!(a.block_id, fs.sb.inode_start + 2);
    assert_eq!(a.block_offset, 128);
    assert_eq!(fs.inode_type(&a), Some(InodeType::Free));
    assert!(fs.get_inode(15).is_ok());
    assert!(fs.get_inode(16).is_err());
}

#[test]
fn block_cache_one_copy_per_block() {
    let dev = MemBlockDevice::new(8);
    let mut cache = BlockCache::new();
    let h1 = cache.get(3, &dev);
    let mut bytes = cache.data(h1).clone();
    bytes[0] = 42;
    cache.write(h1, bytes);
    let h2 = cache.get(3, &dev);
    assert_eq!(h1, h2);
    assert_eq!(cache.data(h2)[0], 42);
    assert_eq!(cache.entries.len(), 1);
    assert_eq!(dev.read_block(3)[0], 0);
}

#[test]
fn block_cache_flush_writes_dirty() {
    let mut dev = MemBlockDevice::new(8);
    let mut cache = BlockCache::new();
    let h = cache.get(5, &dev);
    let _ = cache.get(6, &dev);
    cache.write(h, vec![7u8; BLOCK_SIZE]);
    assert!(cache.entries[h].dirty);
    cache.flush(&mut dev);
    assert!(!cache.entries[h].dirty);
    assert_eq!(dev.read_block(5), vec![7u8; BLOCK_SIZE]);
    assert_eq!(dev.read_block(6), vec![0u8; BLOCK_SIZE]);
}

#[test]
fn inode_cache_one_record_per_inode() {
    let sb = compute_layout(64, 4);
    let mut cache = InodeCache::new();
    let a = cache.get(5, &sb).expect("inode");
    let b = cache.get(5, &sb).expect("inode");
    assert_eq!(a, b);
    assert_eq!(cache.entries.len(), 1);
    assert!(cache.get(16, &sb).is_err());
    assert_eq!(cache.entries.len(), 1);
}

#[test]
fn allocation_error_variants() {
    let e = FileSystemAllocationError::AlreadyExist(String::from("a"), InodeType::File);
    assert!(matches!(e, FileSystemAllocationError::AlreadyExist(ref n, InodeType::File) if n == "a"));
    assert_ne!(FileSystemAllocationError::Exhausted(3), FileSystemAllocationError::TooLarge(3));
    assert_eq!(FileSystemAllocationError::InodeExhausted, FileSystemAllocationError::InodeExhausted);
}
