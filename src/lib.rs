//! Block-device file system core: on-disk layout, bitmap allocation,
//! block and inode caches, and the file system that ties them together.
pub mod bitmap;
pub mod block_cache;
pub mod bump_allocator;
pub mod device;
pub mod fs;
pub mod inode;
pub mod layout;
pub mod sbi;

