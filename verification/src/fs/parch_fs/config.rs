//! The layout constants of ParchFS.
use vstd::prelude::*;

verus! {

/// The inode number that stands for no inode.
pub const BAD_INODE: u32 = 0;

/// The block number that stands for no block.
pub const BAD_BLOCK: u32 = 0;

/// The inode of the root directory.
pub const ROOT_INODE: u32 = 1;

/// Block numbers held directly in an inode.
pub const DIRECT_BLK_COUNT: usize = 16;

/// Bytes of a name in a directory entry.
pub const DENTRY_NAME_LEN: usize = 118;

/// Bytes in a block: a page.
pub const BLK_SIZE: usize = 4096;

/// Block numbers that one block holds (four bytes each).
pub const BLOCKNO_PER_BLK: usize = 1024;

/// Bytes of an inode.
pub const INODE_SIZE: usize = 256;

/// Bytes of a directory entry.
pub const DENTRY_SIZE: usize = 128;

/// Bytes of the superblock.
pub const SUPERBLOCK_SIZE: usize = 4096;

/// Bytes of the bitmap of inodes.
pub const INODE_BITMAP_SIZE: usize = 4096;

/// Bytes of the list of inodes.
pub const INODE_LIST_SIZE: usize = 512 * 4096;

/// The number that a ParchFS superblock starts with.
pub const PFS_MAGIC: u64 = 0xBEEF_BEEF_BEEF_BEEF;

/// The largest size of a file: its direct blocks, the blocks of its indirect
/// block and those of its doubly indirect block.
pub const PFS_MAXCAP: u64 = 4_299_227_136;

} // verus!
