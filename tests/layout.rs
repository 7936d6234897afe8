use blockfs::layout::{compute_layout, layout_fits, SuperBlock, BLOCK_SIZE, FS_MAGIC};

#[test]
fn layout_of_small_device() {
    let sb = compute_layout(64, 4);
    assert_eq!(sb.magic, FS_MAGIC);
    assert_eq!(sb.total_blocks, 64);
    assert_eq!(sb.inode_blocks_num, 4);
    assert_eq!(sb.inode_bmap_start, 2);
    assert_eq!(sb.inode_start, 3);
    assert_eq!(sb.data_bmap_start, 7);
    assert_eq!(sb.data_start, 8);
    assert_eq!(sb.data_blocks, 56);
}

#[test]
fn layout_regions_increase() {
    for &(total, inodes) in &[(64u64, 4u64), (10, 1), (100_000, 5000), (1 << 40, 123)] {
        let sb = compute_layout(total, inodes);
        assert!(1 < sb.inode_bmap_start);
        assert!(sb.inode_bmap_start < sb.inode_start);
        assert!(sb.inode_start < sb.data_bmap_start);
        assert!(sb.data_bmap_start < sb.data_start);
        assert!(sb.data_start <= sb.total_blocks);
    }
}

#[test]
fn layout_large_bitmaps() {
    // 8192 inode blocks take three inode bitmap blocks; the data area of
    // 1_000_000 - 2 - 3 - 8192 blocks takes 243 data bitmap blocks.
    let sb = compute_layout(1_000_000, 8192);
    let area = 1_000_000 - 2 - 3 - 8192;
    let dbmap = area / (1 + 8 * BLOCK_SIZE as u64) + 1;
    assert_eq!(dbmap, 243);
    assert_eq!(sb.data_blocks, area - dbmap);
    assert_eq!(sb.data_start, 3 + 8192 + dbmap);
}

#[test]
fn superblock_round_trip() {
    let sb = compute_layout(64, 4);
    let bytes = sb.encode();
    assert_eq!(bytes.len(), BLOCK_SIZE);
    assert_eq!(&bytes[8..16], &64u64.to_le_bytes());
    assert!(bytes[64..].iter().all(|b| *b == 0));
    let back = SuperBlock::decode(&bytes);
    assert_eq!(back, sb);
    assert!(back.is_valid());
}

#[test]
fn superblock_invalid_marker_or_geometry() {
    let sb = compute_layout(64, 4);
    let mut bad = sb;
    bad.magic = 0;
    assert!(!bad.is_valid());
    let mut bad = sb;
    bad.data_start = 9;
    assert!(!bad.is_valid());
    let zero = SuperBlock::decode(&vec![0u8; BLOCK_SIZE]);
    assert!(!zero.is_valid());
}

#[test]
fn layout_needs_a_data_block() {
    // Five blocks: superblock, log, inode bitmap, one inode block and one
    // data bitmap block leave no data block.
    assert!(!layout_fits(5, 1));
    assert!(layout_fits(6, 1));
    assert_eq!(compute_layout(6, 1).data_blocks, 1);
    assert!(!layout_fits(4, 1));
    assert!(!layout_fits(u64::MAX, u64::MAX - 1));
}
