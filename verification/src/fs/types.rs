//! Kinds of files, their permissions, cursors and directory entries.
use vstd::prelude::*;
use crate::error::ErrorNum;

verus! {

/// The kind of a file, with the numbers that the kernel's interface uses.
#[derive(Clone, Copy, PartialEq, Eq, Structural, Debug)]
pub enum FileType {
    SOCKET,
    LINK,
    REGULAR,
    BLOCK,
    DIR,
    CHAR,
    FIFO,
    UNKNOWN,
    MOUNT,
}

/// The number of each kind of file.
pub open spec fn file_type_code(t: FileType) -> u16 {
    match t {
        FileType::SOCKET => 0o001,
        FileType::LINK => 0o002,
        FileType::REGULAR => 0o004,
        FileType::BLOCK => 0o010,
        FileType::DIR => 0o020,
        FileType::CHAR => 0o040,
        FileType::FIFO => 0o100,
        FileType::UNKNOWN => 0o200,
        FileType::MOUNT => 0o400,
    }
}

/// The kind of file that a number stands for, if any.
pub open spec fn file_type_of(v: u16) -> Option<FileType> {
    if v == 0o001 {
        Some(FileType::SOCKET)
    } else if v == 0o002 {
        Some(FileType::LINK)
    } else if v == 0o004 {
        Some(FileType::REGULAR)
    } else if v == 0o010 {
        Some(FileType::BLOCK)
    } else if v == 0o020 {
        Some(FileType::DIR)
    } else if v == 0o040 {
        Some(FileType::CHAR)
    } else if v == 0o100 {
        Some(FileType::FIFO)
    } else if v == 0o200 {
        Some(FileType::UNKNOWN)
    } else if v == 0o400 {
        Some(FileType::MOUNT)
    } else {
        None
    }
}

impl FileType {
    /// The number of this kind of file.
    pub fn code(&self) -> (r: u16)
        ensures
            r == file_type_code(*self),
    {
        match self {
            FileType::SOCKET => 0o001,
            FileType::LINK => 0o002,
            FileType::REGULAR => 0o004,
            FileType::BLOCK => 0o010,
            FileType::DIR => 0o020,
            FileType::CHAR => 0o040,
            FileType::FIFO => 0o100,
            FileType::UNKNOWN => 0o200,
            FileType::MOUNT => 0o400,
        }
    }

    /// The kind of file numbered `v`; `ENOSYS` when no kind has that number.
    pub fn try_from_code(v: u16) -> (r: Result<FileType, ErrorNum>)
        ensures
            match file_type_of(v) {
                Some(t) => r == Ok::<FileType, ErrorNum>(t),
                None => r == Err::<FileType, ErrorNum>(ErrorNum::ENOSYS),
            },
    {
        if v == 0o001 {
            Ok(FileType::SOCKET)
        } else if v == 0o002 {
            Ok(FileType::LINK)
        } else if v == 0o004 {
            Ok(FileType::REGULAR)
        } else if v == 0o010 {
            Ok(FileType::BLOCK)
        } else if v == 0o020 {
            Ok(FileType::DIR)
        } else if v == 0o040 {
            Ok(FileType::CHAR)
        } else if v == 0o100 {
            Ok(FileType::FIFO)
        } else if v == 0o200 {
            Ok(FileType::UNKNOWN)
        } else if v == 0o400 {
            Ok(FileType::MOUNT)
        } else {
            Err(ErrorNum::ENOSYS)
        }
    }
}

/// Every kind's number stands for that kind again.
pub proof fn lemma_file_type_code(t: FileType)
    ensures
        file_type_of(file_type_code(t)) == Some(t),
{
}

/// Read, write and execute permissions of owner, group and others.
#[derive(Clone, Copy, PartialEq, Eq, Structural, Debug)]
pub struct Permission {
    pub bits: u16,
}

/// The bits that a permission may hold.
pub const PERMISSION_ALL: u16 = 0o777;

impl Permission {
    /// The bits of the single permissions.
    pub const OWNER_R: u16 = 0o400;
    pub const OWNER_W: u16 = 0o200;
    pub const OWNER_X: u16 = 0o100;
    pub const GROUP_R: u16 = 0o040;
    pub const GROUP_W: u16 = 0o020;
    pub const GROUP_X: u16 = 0o010;
    pub const OTHER_R: u16 = 0o004;
    pub const OTHER_W: u16 = 0o002;
    pub const OTHER_X: u16 = 0o001;

    /// Owner may read and write, group and others may read.
    pub fn default() -> (r: Self)
        ensures
            r.bits == 0o644,
    {
        Permission { bits: 0o644 }
    }

    /// Everyone may read, nobody may write or execute.
    pub fn ro() -> (r: Self)
        ensures
            r.bits == 0o444,
    {
        Permission { bits: 0o444 }
    }

    /// The permission of the defined bits among `bits`.
    pub fn from_bits_truncate(bits: u16) -> (r: Self)
        ensures
            r.bits == bits & PERMISSION_ALL,
    {
        Permission { bits: bits & PERMISSION_ALL }
    }

    /// The permission `bits`, `None` when it has a bit that no permission defines.
    pub fn from_bits(bits: u16) -> (r: Option<Self>)
        ensures
            (bits & !PERMISSION_ALL) == 0 ==> r == Some(Permission { bits }),
            (bits & !PERMISSION_ALL) != 0 ==> r is None,
    {
        if bits & !PERMISSION_ALL == 0 {
            Some(Permission { bits })
        } else {
            None
        }
    }

    /// The bits of the permission.
    pub fn bits(&self) -> (r: u16)
        ensures
            r == self.bits,
    {
        self.bits
    }
}

/// A position in a file.
#[derive(Clone, Copy, Debug)]
pub struct Cursor(pub usize);

impl Cursor {
    /// The start of a file.
    pub fn at_start() -> (r: Self)
        ensures
            r.0 == 0,
    {
        Cursor(0)
    }
}

/// An entry of a directory as the file systems hand it out.
#[derive(Debug)]
pub struct Dirent {
    pub inode: u32,
    pub permission: Permission,
    pub f_type: FileType,
    pub f_name: String,
}

/// What a directory entry says: its inode, permission bits, kind and name.
pub struct DirentModel {
    pub inode: u32,
    pub perm: u16,
    pub f_type: FileType,
    pub name: Seq<char>,
}

impl View for Dirent {
    type V = DirentModel;

    open spec fn view(&self) -> DirentModel {
        DirentModel { inode: self.inode, perm: self.permission.bits, f_type: self.f_type, name: self.f_name@ }
    }
}

} // verus!
