//! The records of ParchFS: inode and block numbers, permissions, kinds of
//! files, inodes, directory entries and the superblock.
use vstd::prelude::*;
use crate::error::ErrorNum;
use crate::mem::types::{PhysAddr, PhysPageNum};
use crate::fs::types::{FileType, Permission, PERMISSION_ALL};
use super::config::{DIRECT_BLK_COUNT, DENTRY_NAME_LEN, INODE_SIZE, BLK_SIZE};

verus! {

/// The number of an inode.
#[derive(Clone, Copy, PartialEq, Eq, Structural, Debug)]
pub struct INodeNo(pub u32);

impl From<u32> for INodeNo {
    fn from(no: u32) -> (r: Self) {
        Self(no)
    }
}

impl vstd::std_specs::convert::FromSpecImpl<u32> for INodeNo {
    open spec fn obeys_from_spec() -> bool {
        true
    }

    open spec fn from_spec(no: u32) -> Self {
        INodeNo(no)
    }
}

impl From<usize> for INodeNo {
    fn from(no: usize) -> (r: Self) {
        Self(no as u32)
    }
}

impl vstd::std_specs::convert::FromSpecImpl<usize> for INodeNo {
    open spec fn obeys_from_spec() -> bool {
        true
    }

    open spec fn from_spec(no: usize) -> Self {
        INodeNo(no as u32)
    }
}

impl INodeNo {
    /// Where the inode lies, the list of inodes starting at `inode_list`.
    pub fn to_pa(&self, inode_list: PhysAddr) -> (r: PhysAddr)
        requires
            inode_list.0 + INODE_SIZE * self.0 <= usize::MAX,
        ensures
            r.0 == inode_list.0 + INODE_SIZE * self.0,
    {
        PhysAddr(inode_list.0 + INODE_SIZE * (self.0 as usize))
    }
}

/// The number of a block: its page's index from the first page of memory.
#[derive(Clone, Copy, PartialEq, Eq, Structural, Debug)]
pub struct BlockNo(pub u32);

impl From<u32> for BlockNo {
    fn from(no: u32) -> (r: Self) {
        Self(no)
    }
}

impl vstd::std_specs::convert::FromSpecImpl<u32> for BlockNo {
    open spec fn obeys_from_spec() -> bool {
        true
    }

    open spec fn from_spec(no: u32) -> Self {
        BlockNo(no)
    }
}

impl From<usize> for BlockNo {
    fn from(no: usize) -> (r: Self) {
        Self(no as u32)
    }
}

impl vstd::std_specs::convert::FromSpecImpl<usize> for BlockNo {
    open spec fn obeys_from_spec() -> bool {
        true
    }

    open spec fn from_spec(no: usize) -> Self {
        BlockNo(no as u32)
    }
}

impl BlockNo {
    /// Where the block lies, memory starting at `base`.
    pub fn to_pa(&self, base: PhysAddr) -> (r: PhysAddr)
        requires
            base.0 + BLK_SIZE * self.0 <= usize::MAX,
        ensures
            r.0 == base.0 + BLK_SIZE * self.0,
    {
        PhysAddr(base.0 + BLK_SIZE * (self.0 as usize))
    }

    /// The page of the block, memory starting at page `base`.
    pub fn to_ppn(&self, base: PhysPageNum) -> (r: PhysPageNum)
        requires
            base.0 + self.0 <= usize::MAX,
        ensures
            r.0 == base.0 + self.0,
    {
        PhysPageNum(base.0 + self.0 as usize)
    }
}

/// The permissions kept in an inode.
#[derive(Clone, Copy, PartialEq, Eq, Structural, Debug)]
pub struct PFSPerm {
    pub bits: u16,
}

impl PFSPerm {
    /// No permission.
    pub fn empty() -> (r: Self)
        ensures
            r.bits == 0,
    {
        PFSPerm { bits: 0 }
    }

    /// The bits of the permission.
    pub fn bits(&self) -> (r: u16)
        ensures
            r == self.bits,
    {
        self.bits
    }

    /// The permission as the file systems hand it out; its bits must all be
    /// bits of a permission.
    pub fn into_permission(self) -> (r: Permission)
        requires
            (self.bits & !PERMISSION_ALL) == 0,
        ensures
            r.bits == self.bits,
    {
        match Permission::from_bits(self.bits) {
            Some(p) => p,
            None => Permission { bits: self.bits },
        }
    }

    /// The permission of `p` as an inode keeps it.
    pub fn from_permission(p: Permission) -> (r: Self)
        requires
            (p.bits & !PERMISSION_ALL) == 0,
        ensures
            r.bits == p.bits,
    {
        PFSPerm { bits: p.bits }
    }
}

/// The kind of a file as an inode keeps it.
#[derive(Clone, Copy, PartialEq, Eq, Structural, Debug)]
pub enum PFSType {
    SOCKET,
    LINK,
    REGULAR,
    BLOCK,
    DIR,
    CHAR,
    FIFO,
    UNKNOWN,
    MOUNT,
}

/// The kind of file of an inode's kind.
pub open spec fn pfs_to_file_type(t: PFSType) -> FileType {
    match t {
        PFSType::SOCKET => FileType::SOCKET,
        PFSType::LINK => FileType::LINK,
        PFSType::REGULAR => FileType::REGULAR,
        PFSType::BLOCK => FileType::BLOCK,
        PFSType::DIR => FileType::DIR,
        PFSType::CHAR => FileType::CHAR,
        PFSType::FIFO => FileType::FIFO,
        PFSType::UNKNOWN => FileType::UNKNOWN,
        PFSType::MOUNT => FileType::MOUNT,
    }
}

/// The number of an inode's kind, as kept on disk.
pub open spec fn pfs_type_code(t: PFSType) -> u16 {
    crate::fs::types::file_type_code(pfs_to_file_type(t))
}

/// The inode kind that a number on disk stands for, if any.
pub open spec fn pfs_type_of(v: u16) -> Option<PFSType> {
    if v == 0o001 {
        Some(PFSType::SOCKET)
    } else if v == 0o002 {
        Some(PFSType::LINK)
    } else if v == 0o004 {
        Some(PFSType::REGULAR)
    } else if v == 0o010 {
        Some(PFSType::BLOCK)
    } else if v == 0o020 {
        Some(PFSType::DIR)
    } else if v == 0o040 {
        Some(PFSType::CHAR)
    } else if v == 0o100 {
        Some(PFSType::FIFO)
    } else if v == 0o200 {
        Some(PFSType::UNKNOWN)
    } else if v == 0o400 {
        Some(PFSType::MOUNT)
    } else {
        None
    }
}

impl PFSType {
    /// The kind of file of this inode kind.
    pub fn into_file_type(self) -> (r: FileType)
        ensures
            r == pfs_to_file_type(self),
    {
        match self {
            PFSType::SOCKET => FileType::SOCKET,
            PFSType::LINK => FileType::LINK,
            PFSType::REGULAR => FileType::REGULAR,
            PFSType::BLOCK => FileType::BLOCK,
            PFSType::DIR => FileType::DIR,
            PFSType::CHAR => FileType::CHAR,
            PFSType::FIFO => FileType::FIFO,
            PFSType::UNKNOWN => FileType::UNKNOWN,
            PFSType::MOUNT => FileType::MOUNT,
        }
    }

    /// The inode kind of a kind of file.
    pub fn from_file_type(t: FileType) -> (r: Self)
        ensures
            pfs_to_file_type(r) == t,
    {
        match t {
            FileType::SOCKET => PFSType::SOCKET,
            FileType::LINK => PFSType::LINK,
            FileType::REGULAR => PFSType::REGULAR,
            FileType::BLOCK => PFSType::BLOCK,
            FileType::DIR => PFSType::DIR,
            FileType::CHAR => PFSType::CHAR,
            FileType::FIFO => PFSType::FIFO,
            FileType::UNKNOWN => PFSType::UNKNOWN,
            FileType::MOUNT => PFSType::MOUNT,
        }
    }

    /// The number of this kind, as kept on disk.
    pub fn code(&self) -> (r: u16)
        ensures
            r == pfs_type_code(*self),
    {
        self.into_file_type().code()
    }

    /// The inode kind numbered `v`; `ENOSYS` when no kind has that number.
    pub fn try_from_code(v: u16) -> (r: Result<PFSType, ErrorNum>)
        ensures
            match pfs_type_of(v) {
                Some(t) => r == Ok::<PFSType, ErrorNum>(t),
                None => r == Err::<PFSType, ErrorNum>(ErrorNum::ENOSYS),
            },
    {
        match FileType::try_from_code(v) {
            Ok(t) => Ok(Self::from_file_type(t)),
            Err(e) => Err(e),
        }
    }
}

/// An inode: what a file is, who may use it, its size and times, and the
/// blocks that hold it.
#[derive(Clone, Copy)]
pub struct PFSINode {
    pub permission: PFSPerm,
    pub f_type: PFSType,
    pub uid: u32,
    pub gid: u32,
    pub flags: u32,
    pub hard_link_count: u32,
    pub direct_blk_no: [BlockNo; 16],
    pub indirect_blk: BlockNo,
    pub indirect_blk2: BlockNo,
    pub f_size: usize,
    pub access_time: usize,
    pub change_time: usize,
    pub create_time: usize,
}

/// An entry of a directory as kept on disk: the inode, its permission and
/// kind, and the name (its first `name_len` bytes).
#[derive(Clone, Copy)]
pub struct PFSDEntry {
    pub inode: INodeNo,
    pub permission: PFSPerm,
    pub f_type: PFSType,
    pub name_len: u16,
    pub f_name: [u8; 118],
}

/// The superblock of a ParchFS.
#[derive(Clone, Copy)]
pub struct SuperBlock {
    pub magic: u64,
    pub base_kernel_satp: u64,
    pub inode_count: u64,
    pub block_count: u64,
    pub free_inode: u64,
    pub free_block: u64,
    pub last_access: u64,
    pub root_inode: u32,
}

} // verus!
