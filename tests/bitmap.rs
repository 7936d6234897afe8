use blockfs::bitmap::{bitmap_allocate, bitmap_free};
use blockfs::layout::BLOCK_SIZE;

#[test]
fn bitmap_allocates_lowest_free() {
    let mut bm = vec![0u8; BLOCK_SIZE];
    assert_eq!(bitmap_allocate(&mut bm), Some(0));
    assert_eq!(bitmap_allocate(&mut bm), Some(1));
    assert_eq!(bitmap_allocate(&mut bm), Some(2));
    assert_eq!(bm[0], 0b0000_0111);
    bm[1] = 0xff;
    bm[0] = 0xff;
    assert_eq!(bitmap_allocate(&mut bm), Some(16));
    assert_eq!(bm[2], 1);
}

#[test]
fn bitmap_full_returns_none() {
    let mut bm = vec![0xffu8; BLOCK_SIZE];
    assert_eq!(bitmap_allocate(&mut bm), None);
    assert!(bm.iter().all(|b| *b == 0xff));
    bm[BLOCK_SIZE - 1] = 0x7f;
    assert_eq!(bitmap_allocate(&mut bm), Some(8 * BLOCK_SIZE - 1));
    assert_eq!(bitmap_allocate(&mut bm), None);
}

#[test]
fn bitmap_free_then_reuse() {
    let mut bm = vec![0u8; BLOCK_SIZE];
    for k in 0..20 {
        assert_eq!(bitmap_allocate(&mut bm), Some(k));
    }
    bitmap_free(&mut bm, 5);
    assert_eq!(bm[0], 0b1101_1111);
    assert_eq!(bitmap_allocate(&mut bm), Some(5));
    assert_eq!(bitmap_allocate(&mut bm), Some(20));
}
