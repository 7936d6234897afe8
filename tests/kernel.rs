use blockfs::bump_allocator::{BumpAllocator, MemoryArea, PAGE_SIZE};
use blockfs::sbi::{console_getchar, console_putchar, set_timer, shutdown, SbiCall, SBI_CONSOLE_PUTCHAR};

static AREAS: [MemoryArea; 2] = [
    MemoryArea { start: 0x1000, size: 2 * PAGE_SIZE },
    MemoryArea { start: 0x10_0000, size: PAGE_SIZE },
];

#[test]
fn bump_allocator_walks_areas() {
    let mut a = BumpAllocator::new(&AREAS, 0);
    assert_eq!(a.allocate(), Some(0x1000));
    assert_eq!(a.allocate(), Some(0x2000));
    assert_eq!(a.allocate(), Some(0x10_0000));
    assert_eq!(a.allocate(), None);
    assert_eq!(a.offset, 3 * PAGE_SIZE);
}

#[test]
fn bump_allocator_starts_at_offset() {
    let mut a = BumpAllocator::new(&AREAS, PAGE_SIZE + 16);
    assert_eq!(a.allocate(), Some(0x2010));
    let mut empty = BumpAllocator::new(&[], 0);
    assert_eq!(empty.allocate(), None);
    assert_eq!(empty.offset, 0);
}

#[test]
fn sbi_requests() {
    assert_eq!(console_putchar(b'a'), SbiCall { which: SBI_CONSOLE_PUTCHAR, arg0: 97, arg1: 0, arg2: 0 });
    assert_eq!(console_getchar(), SbiCall { which: 2, arg0: 0, arg1: 0, arg2: 0 });
    assert_eq!(shutdown(), SbiCall { which: 8, arg0: 0, arg1: 0, arg2: 0 });
    assert_eq!(set_timer(12345), SbiCall { which: 0, arg0: 12345, arg1: 0, arg2: 0 });
}
