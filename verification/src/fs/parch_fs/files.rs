//! Opening and making files of a ParchFS directory.
use vstd::prelude::*;
use crate::error::ErrorNum;
use crate::fs::types::{Cursor, Dirent, DirentModel, FileType, Permission, PERMISSION_ALL};
use crate::fs::vfs::{OpenMode, Path};
use super::config::DENTRY_NAME_LEN;
use super::types::{BlockNo, INodeNo, PFSDEntry, PFSINode, PFSPerm, PFSType, pfs_to_file_type};
use super::store::{FsModel, ParchFSInner, lowest_free};
use super::base::{PFSBase, with_inode, pstate, lemma_rebuilt};
use super::dir::{DEntryModel, PFSDirInner, add_spec, dirents_of, list_spec, listing_ok, slot_ok, wr_spec, raw_spec};
use super::config::BAD_INODE;

verus! {

/// A regular file of ParchFS, as opened: where it is and where its cursor stands.
pub struct PFSRegularInner {
    pub base: PFSBase,
    pub cursor: Cursor,
}

/// A symbolic link of ParchFS, as opened.
pub struct PFSLinkInner {
    pub base: PFSBase,
}

/// A file of ParchFS as opened from a directory.
pub enum PFSFile {
    Regular(PFSRegularInner),
    Dir(PFSDirInner),
    Link(PFSLinkInner),
}

/// What an opened file is: its kind, inode, path, the mode it was opened
/// in, whether it is mapped into memory, and its cursor.
pub struct OpenedModel {
    pub f_type: FileType,
    pub inode: u32,
    pub path: Seq<Seq<char>>,
    pub mode: OpenMode,
    pub mapped: bool,
    pub cursor: usize,
}

impl PFSFile {
    /// What the opened file is.
    pub open spec fn model(&self) -> OpenedModel {
        match self {
            PFSFile::Regular(f) => OpenedModel {
                f_type: FileType::REGULAR,
                inode: f.base.inode_no.0,
                path: f.base.path@,
                mode: f.base.open_mode,
                mapped: f.base.mmap_start is Some,
                cursor: f.cursor.0,
            },
            PFSFile::Dir(f) => OpenedModel {
                f_type: FileType::DIR,
                inode: f.base.inode_no.0,
                path: f.base.path@,
                mode: f.base.open_mode,
                mapped: f.base.mmap_start is Some,
                cursor: 0,
            },
            PFSFile::Link(f) => OpenedModel {
                f_type: FileType::LINK,
                inode: f.base.inode_no.0,
                path: f.base.path@,
                mode: f.base.open_mode,
                mapped: f.base.mmap_start is Some,
                cursor: 0,
            },
        }
    }
}

/// The model of what a lookup returned.
pub open spec fn opened_of(r: Result<Option<PFSFile>, ErrorNum>) -> Result<Option<OpenedModel>, ErrorNum> {
    match r {
        Ok(Some(f)) => Ok(Some(f.model())),
        Ok(None) => Ok(None),
        Err(e) => Err(e),
    }
}

/// The model of what an open returned.
pub open spec fn opened(r: Result<PFSFile, ErrorNum>) -> Result<OpenedModel, ErrorNum> {
    match r {
        Ok(f) => Ok(f.model()),
        Err(e) => Err(e),
    }
}

/// The first entry named `name`, or the number of entries.
pub open spec fn find_name(l: Seq<DirentModel>, name: Seq<char>) -> int
    decreases l.len(),
{
    if l.len() == 0 {
        0
    } else if l[0].name == name {
        0
    } else {
        1 + find_name(l.drop_first(), name)
    }
}

proof fn lemma_find_name(l: Seq<DirentModel>, name: Seq<char>, i: int)
    requires
        0 <= i <= l.len(),
        forall|j: int| 0 <= j < i ==> l[j].name != name,
        i < l.len() ==> l[i].name == name,
    ensures
        find_name(l, name) == i,
    decreases l.len(),
{
    if l.len() > 0 && i > 0 {
        let t = l.drop_first();
        assert forall|j: int| 0 <= j < i - 1 implies t[j].name != name by {
            assert(t[j] == l[j + 1]);
        }
        lemma_find_name(t, name, i - 1);
    }
}

/// Opening the file that the entry `e` of the directory at `path` names:
/// what it gives and the memory after (the inode's access time stamped).
/// `None` when the entry names no inode of the memory, or one of a kind
/// that no file of ParchFS has.
pub open spec fn open_found(m: FsModel, path: Seq<Seq<char>>, e: DirentModel, mode: OpenMode, now: usize) -> Option<(Result<Option<OpenedModel>, ErrorNum>, FsModel)> {
    if e.name.contains('/') {
        Some((Err(ErrorNum::ENOENT), m))
    } else if e.inode >= m.inodes.len() {
        None
    } else if !m.inode_bits[e.inode as int] {
        Some((Err(ErrorNum::ENOENT), m))
    } else {
        let ino = m.inodes[e.inode as int];
        let t = pfs_to_file_type(ino.f_type);
        let m2 = with_inode(m, e.inode as int, PFSINode { access_time: now, ..ino });
        if t == FileType::REGULAR || t == FileType::DIR || t == FileType::LINK {
            Some((Ok(Some(OpenedModel { f_type: t, inode: e.inode, path: path.push(e.name), mode, mapped: false, cursor: 0 })), m2))
        } else {
            None
        }
    }
}

/// Looking up `name` in the directory with inode `no` at `path` and opening
/// it in `mode`: `Ok(None)` when no entry has that name.  What it gives and
/// the memory after; `None` when the file system is malformed on the way.
#[verifier::opaque]
pub open spec fn lookup_spec(m: FsModel, no: int, path: Seq<Seq<char>>, name: Seq<char>, mode: OpenMode, now: usize) -> Option<(Result<Option<OpenedModel>, ErrorNum>, FsModel)> {
    if !(slot_ok(m, no, -1) && listing_ok(m, no, now)) {
        None
    } else {
        match list_spec(m, no, now) {
            None => None,
            Some((Err(e), m1)) => Some((Err(e), m1)),
            Some((Ok(l), m1)) => {
                let k = find_name(l, name);
                if k < l.len() {
                    open_found(m1, path, l[k], mode, now)
                } else {
                    Some((Ok(None), m1))
                }
            },
        }
    }
}

/// The kind of file that an inode keeps for `t`.
pub open spec fn file_to_pfs(t: FileType) -> PFSType {
    match t {
        FileType::SOCKET => PFSType::SOCKET,
        FileType::LINK => PFSType::LINK,
        FileType::REGULAR => PFSType::REGULAR,
        FileType::BLOCK => PFSType::BLOCK,
        FileType::DIR => PFSType::DIR,
        FileType::CHAR => PFSType::CHAR,
        FileType::FIFO => PFSType::FIFO,
        FileType::UNKNOWN => PFSType::UNKNOWN,
        FileType::MOUNT => PFSType::MOUNT,
    }
}

/// Whether `i` is the inode of a new, empty file of kind `t` with
/// permission `perm`, made at time `now`.
pub open spec fn fresh_ok(i: PFSINode, perm: u16, t: FileType, now: usize) -> bool {
    &&& i.permission.bits == perm
    &&& i.f_type == file_to_pfs(t)
    &&& i.uid == 0
    &&& i.gid == 0
    &&& i.flags == 0
    &&& i.hard_link_count == (if t == FileType::DIR { 2u32 } else { 1u32 })
    &&& i.direct_blk_no@ == Seq::new(16, |j: int| BlockNo(0))
    &&& i.indirect_blk == BlockNo(0)
    &&& i.indirect_blk2 == BlockNo(0)
    &&& i.f_size == 0
    &&& i.access_time == now
    &&& i.change_time == now
    &&& i.create_time == now
}

/// The inode of a new, empty file.
pub open spec fn fresh_inode(perm: u16, t: FileType, now: usize) -> PFSINode {
    choose|i: PFSINode| fresh_ok(i, perm, t, now)
}

proof fn lemma_fresh(i: PFSINode, perm: u16, t: FileType, now: usize)
    requires
        fresh_ok(i, perm, t, now),
    ensures
        fresh_inode(perm, t, now) == i,
{
    let f = fresh_inode(perm, t, now);
    assert(f.direct_blk_no =~= i.direct_blk_no);
}

/// A name's bytes padded with zeros to fill a record's name.
pub open spec fn name_record(b: Seq<u8>) -> Seq<u8> {
    b + Seq::new((DENTRY_NAME_LEN - b.len()) as nat, |i: int| 0u8)
}

/// The entry of the name `name`, given as its bytes, for the inode `ino`.
pub open spec fn entry_for(ino: u32, perm: u16, t: PFSType, name: Seq<u8>) -> DEntryModel {
    DEntryModel { inode: ino, perm, f_type: t, name_len: name.len() as u16, name: name_record(name) }
}

/// The mode the kernel opens its own files in.
pub open spec fn sys_mode() -> OpenMode {
    OpenMode { bits: 16 }
}

/// Adding the entries `.` and `..` to the new directory `child` of the
/// directory `parent`: the memory after, `None` when either fails.
#[verifier::opaque]
pub open spec fn dots_spec(m: FsModel, child: int, parent: int, perm: u16, now: usize) -> Option<FsModel> {
    if !(slot_ok(m, child, -1)) {
        None
    } else {
        match add_spec(m, child, entry_for(child as u32, perm, PFSType::DIR, seq![46u8]), now) {
            Some((Ok(_), m1)) => if slot_ok(m1, child, -1) {
                match add_spec(m1, child, entry_for(parent as u32, perm, PFSType::DIR, seq![46u8, 46u8]), now) {
                    Some((Ok(_), m2)) => Some(m2),
                    _ => None,
                }
            } else {
                None
            },
            _ => None,
        }
    }
}

/// The checks before a file is made in the directory with inode `no`: its
/// kind, the length of its name, and that no entry has the name yet.  What
/// they give and the memory after; `None` when the file system is
/// malformed on the way.
pub open spec fn pre_make_spec(m: FsModel, no: int, name: Seq<char>, t: FileType, now: usize) -> Option<(Result<(), ErrorNum>, FsModel)> {
    if t != FileType::REGULAR && t != FileType::DIR {
        Some((Err(ErrorNum::EBADTYPE), m))
    } else if vstd::utf8::encode_utf8(name).len() > DENTRY_NAME_LEN {
        Some((Err(ErrorNum::ENAMETOOLONG), m))
    } else if !(slot_ok(m, no, -1) && listing_ok(m, no, now)) {
        None
    } else {
        match list_spec(m, no, now) {
            None => None,
            Some((Err(e), m1)) => Some((Err(e), m1)),
            Some((Ok(l), m1)) => if find_name(l, name) < l.len() {
                Some((Err(ErrorNum::EEXIST), m1))
            } else {
                Some((Ok(()), m1))
            },
        }
    }
}

/// The memory with the lowest free inode taken for a new, empty file.
pub open spec fn with_new_inode(m: FsModel, perm: u16, t: FileType, now: usize) -> FsModel {
    let k = lowest_free(m.inode_bits);
    with_inode(FsModel { inode_bits: m.inode_bits.update(k, true), ..m }, k, fresh_inode(perm, t, now))
}

/// Making the file once the checks passed: taking an inode, adding its
/// entry to the directory with inode `no` at `path`, opening it, and for a
/// directory adding `.` and `..`.  What it gives and the memory after;
/// `None` where the file system is malformed on the way, no inode is free,
/// or a step that must succeed fails.
pub open spec fn create_spec(m: FsModel, no: int, path: Seq<Seq<char>>, name: Seq<char>, perm: u16, t: FileType, now: usize) -> Option<(Result<OpenedModel, ErrorNum>, FsModel)> {
    if !(exists|i: int| 0 <= i < m.inode_bits.len() && !m.inode_bits[i]) {
        None
    } else {
        let k = lowest_free(m.inode_bits);
        let m2 = with_new_inode(m, perm, t, now);
        let d = entry_for(k as u32, perm, file_to_pfs(t), vstd::utf8::encode_utf8(name));
        if !slot_ok(m2, no, -1) {
            None
        } else {
            match add_spec(m2, no, d, now) {
                None => None,
                Some((Err(e), m3)) => Some((Err(e), m3)),
                Some((Ok(_), m3)) => match lookup_spec(m3, no, path, name, sys_mode(), now) {
                    None => None,
                    Some((Err(e), m4)) => Some((Err(e), m4)),
                    Some((Ok(None), m4)) => Some((Err(ErrorNum::ENOENT), m4)),
                    Some((Ok(Some(f)), m4)) => if f.f_type == FileType::DIR {
                        match dots_spec(m4, f.inode as int, no, perm, now) {
                            None => None,
                            Some(m5) => Some((Ok(f), m5)),
                        }
                    } else {
                        Some((Ok(f), m4))
                    },
                },
            }
        }
    }
}

/// Making the file `name` of kind `t` with permission `perm` in the
/// directory with inode `no` at `path`, and opening it: what it gives and
/// the memory after.  `None` where the file system is malformed on the way,
/// no inode is free, or a step that must succeed fails.
pub open spec fn make_spec(m: FsModel, no: int, path: Seq<Seq<char>>, name: Seq<char>, perm: u16, t: FileType, now: usize) -> Option<(Result<OpenedModel, ErrorNum>, FsModel)> {
    match pre_make_spec(m, no, name, t, now) {
        None => None,
        Some((Err(e), m1)) => Some((Err(e), m1)),
        Some((Ok(_), m1)) => create_spec(m1, no, path, name, perm, t, now),
    }
}

/// Opening `name` of the directory with inode `no` at `path` in `mode`:
/// the entry if there is one, else, when `mode` asks to create it, a new
/// regular file with the default permission.  What it gives and the memory
/// after; `None` where the file system is malformed on the way or a step
/// that must succeed fails.
pub open spec fn open_spec(m: FsModel, no: int, path: Seq<Seq<char>>, name: Seq<char>, mode: OpenMode, now: usize) -> Option<(Result<OpenedModel, ErrorNum>, FsModel)> {
    match lookup_spec(m, no, path, name, mode, now) {
        None => None,
        Some((Err(e), m1)) => Some((Err(e), m1)),
        Some((Ok(Some(f)), m1)) => Some((Ok(f), m1)),
        Some((Ok(None), m1)) => if mode.bits & OpenMode::CREATE == OpenMode::CREATE {
            match make_spec(m1, no, path, name, 0o644, FileType::REGULAR, now) {
                None => None,
                Some((Err(e), m2)) => Some((Err(e), m2)),
                Some((Ok(_), m2)) => match lookup_spec(m2, no, path, name, mode, now) {
                    None => None,
                    Some((Err(e), m3)) => Some((Err(e), m3)),
                    Some((Ok(Some(f)), m3)) => Some((Ok(f), m3)),
                    Some((Ok(None), m3)) => Some((Err(ErrorNum::ENOENT), m3)),
                },
            }
        } else {
            Some((Err(ErrorNum::ENOENT), m1))
        },
    }
}

/// The memory with the inode `no` given back.
pub open spec fn freed(m: FsModel, no: int) -> FsModel {
    FsModel { inode_bits: m.inode_bits.update(no, false), ..m }
}

/// The memory after removing the directory with inode `d`, whose size is
/// 0: reading its (no) entries stamps its access time, then its inode is
/// given back.
pub open spec fn rmself_spec(m: FsModel, d: int, now: usize) -> FsModel {
    freed(with_inode(m, d, PFSINode { access_time: now, ..m.inodes[d] }), d)
}

/// The entry that names no inode, as a model.
pub open spec fn empty_entry() -> DEntryModel {
    DEntryModel {
        inode: BAD_INODE,
        perm: 0,
        f_type: PFSType::UNKNOWN,
        name_len: 0,
        name: Seq::new(DENTRY_NAME_LEN as nat, |i: int| 0u8),
    }
}

/// The memory after letting go of the file `e` names, in `m`: a directory
/// is removed, which only works when its size is 0; another file loses a
/// link, and with its last link, which it only may lose when its size is 0,
/// its inode.  `None` where the kernel stops.
pub open spec fn unlink_spec(m: FsModel, e: DirentModel, now: usize) -> Option<FsModel> {
    let ino = m.inodes[e.inode as int];
    if ino.f_type == PFSType::DIR {
        if ino.f_size != 0 {
            None
        } else {
            Some(rmself_spec(m, e.inode as int, now))
        }
    } else if ino.hard_link_count == 0 {
        None
    } else {
        let c = (ino.hard_link_count - 1) as u32;
        let m1 = with_inode(m, e.inode as int, PFSINode { hard_link_count: c, ..ino });
        if c == 0 {
            if ino.f_size != 0 {
                None
            } else {
                Some(freed(m1, e.inode as int))
            }
        } else {
            Some(m1)
        }
    }
}

/// Removing `name` from the directory with inode `no`: the file it names is
/// let go of, and the record whose place in the directory is the entry's
/// place among the entries that name an inode is cleared.  What it gives
/// and the memory after; `None` where the file system is malformed on the
/// way or the kernel stops.
pub open spec fn remove_spec(m: FsModel, no: int, name: Seq<char>, now: usize) -> Option<(Result<(), ErrorNum>, FsModel)> {
    if !(slot_ok(m, no, -1) && listing_ok(m, no, now)) {
        None
    } else {
        match list_spec(m, no, now) {
            None => None,
            Some((Err(e), m1)) => Some((Err(e), m1)),
            Some((Ok(l), m1)) => {
                let k = find_name(l, name);
                if k >= l.len() {
                    Some((Err(ErrorNum::ENOENT), m1))
                } else if l[k].inode >= m1.inodes.len() {
                    None
                } else if !m1.inode_bits[l[k].inode as int] {
                    Some((Err(ErrorNum::ENOENT), m1))
                } else if l[k].name.contains('/') {
                    None
                } else {
                    match unlink_spec(m1, l[k], now) {
                        None => None,
                        Some(m2) => if slot_ok(m2, no, k) {
                            wr_spec(m2, no, empty_entry(), k, now)
                        } else {
                            None
                        },
                    }
                }
            },
        }
    }
}

impl PFSDirInner {
    /// Looks up `name` among the entries and opens it in `mode`; `Ok(None)`
    /// when no entry has that name.
    fn find_entry(&self, name: &String, mode: OpenMode, fs_inner: &mut ParchFSInner, now: usize) -> (r: Result<Option<PFSFile>, ErrorNum>)
        requires
            old(fs_inner).wf(),
            self.base.inode_no.0 < old(fs_inner)@.inodes.len(),
            self.base.mmap_start is None,
            lookup_spec(old(fs_inner)@, self.base.inode_no.0 as int, self.base.path@, name@, mode, now) is Some,
        ensures
            final(fs_inner).wf(),
            final(fs_inner).base_page() == old(fs_inner).base_page(),
            final(fs_inner)@.inodes.len() == old(fs_inner)@.inodes.len(),
            Some((opened_of(r), final(fs_inner)@)) == lookup_spec(old(fs_inner)@, self.base.inode_no.0 as int, self.base.path@, name@, mode, now),
            r matches Ok(Some(f)) ==> f.model().inode < final(fs_inner)@.inodes.len() && !f.model().mapped,
    {
        proof {
            reveal(lookup_spec);
        }
        let entries = self.read_dirent(fs_inner, now)?;
        let ghost l = dirents_of(entries@);
        let mut i: usize = 0;
        while i < entries.len() && !(entries[i].f_name == *name)
            invariant
                i <= entries@.len(),
                l == dirents_of(entries@),
                forall|j: int| 0 <= j < i ==> l[j].name != name@,
            decreases entries@.len() - i,
        {
            i = i + 1;
        }
        proof {
            lemma_find_name(l, name@, i as int);
        }
        if i == entries.len() {
            return Ok(None);
        }
        let ino = entries[i].inode;
        let path = self.base.path.append(entries[i].f_name.clone())?;
        let base = PFSBase::new(INodeNo(ino), path, mode)?;
        let f_type = base.f_type(fs_inner)?;
        let mut inode = fs_inner.get_inode(INodeNo(ino))?;
        inode.access_time = now;
        fs_inner.put_inode(INodeNo(ino), inode);
        match f_type {
            FileType::REGULAR => Ok(Some(PFSFile::Regular(PFSRegularInner { base, cursor: Cursor(0) }))),
            FileType::DIR => Ok(Some(PFSFile::Dir(PFSDirInner { base }))),
            FileType::LINK => Ok(Some(PFSFile::Link(PFSLinkInner { base }))),
            _ => {
                proof {
                    assert(false);
                }
                Err(ErrorNum::EBADTYPE)
            },
        }
    }

    /// The checks before making the file `name` of kind `f_type`.
    fn pre_make(&self, name: &String, f_type: FileType, fs_inner: &mut ParchFSInner, now: usize) -> (r: Result<(), ErrorNum>)
        requires
            old(fs_inner).wf(),
            self.base.inode_no.0 < old(fs_inner)@.inodes.len(),
            self.base.mmap_start is None,
            pre_make_spec(old(fs_inner)@, self.base.inode_no.0 as int, name@, f_type, now) is Some,
        ensures
            final(fs_inner).wf(),
            final(fs_inner).base_page() == old(fs_inner).base_page(),
            final(fs_inner)@.inodes.len() == old(fs_inner)@.inodes.len(),
            Some((r, final(fs_inner)@)) == pre_make_spec(old(fs_inner)@, self.base.inode_no.0 as int, name@, f_type, now),
    {
        if f_type != FileType::REGULAR && f_type != FileType::DIR {
            return Err(ErrorNum::EBADTYPE);
        }
        let bytes = name.as_str().as_bytes();
        if bytes.len() > DENTRY_NAME_LEN {
            return Err(ErrorNum::ENAMETOOLONG);
        }
        let dirents = self.read_dirent(fs_inner, now)?;
        let ghost l = dirents_of(dirents@);
        let mut i: usize = 0;
        while i < dirents.len() && !(dirents[i].f_name == *name)
            invariant
                i <= dirents@.len(),
                l == dirents_of(dirents@),
                forall|j: int| 0 <= j < i ==> l[j].name != name@,
            decreases dirents@.len() - i,
        {
            i = i + 1;
        }
        proof {
            lemma_find_name(l, name@, i as int);
        }
        if i < dirents.len() {
            return Err(ErrorNum::EEXIST);
        }
        Ok(())
    }

    /// Takes the lowest free inode for a new, empty file of kind `f_type`.
    fn new_inode(fs_inner: &mut ParchFSInner, perm: Permission, f_type: FileType, now: usize) -> (r: INodeNo)
        requires
            old(fs_inner).wf(),
            (perm.bits & !PERMISSION_ALL) == 0,
            exists|i: int| 0 <= i < old(fs_inner)@.inode_bits.len() && !old(fs_inner)@.inode_bits[i],
        ensures
            final(fs_inner).wf(),
            final(fs_inner).base_page() == old(fs_inner).base_page(),
            r.0 == lowest_free(old(fs_inner)@.inode_bits),
            r.0 < old(fs_inner)@.inodes.len(),
            final(fs_inner)@.inodes.len() == old(fs_inner)@.inodes.len(),
            final(fs_inner)@ == with_new_inode(old(fs_inner)@, perm.bits, f_type, now),
    {
        proof {
            super::store::lemma_lowest_free(fs_inner@.inode_bits);
            fs_inner.lemma_wf();
        }
        let inode_no = fs_inner.alloc_inode();
        let mut inode = match fs_inner.get_inode(inode_no) {
            Ok(i) => i,
            Err(_) => {
                proof {
                    assert(false);
                }
                return inode_no;
            },
        };
        inode.permission = PFSPerm::from_permission(perm);
        inode.f_type = PFSType::from_file_type(f_type);
        inode.uid = 0;
        inode.gid = 0;
        inode.flags = 0;
        inode.hard_link_count = if f_type == FileType::DIR { 2 } else { 1 };
        inode.direct_blk_no = [BlockNo(0); 16];
        inode.indirect_blk = BlockNo(0);
        inode.indirect_blk2 = BlockNo(0);
        inode.f_size = 0;
        inode.access_time = now;
        inode.change_time = now;
        inode.create_time = now;
        proof {
            assert(inode.direct_blk_no@ =~= Seq::new(16, |j: int| BlockNo(0)));
            assert(inode.f_type == file_to_pfs(f_type));
            lemma_fresh(inode, perm.bits, f_type, now);
        }
        fs_inner.put_inode(inode_no, inode);
        inode_no
    }

    /// The record of the entry for `name`, given as its bytes, naming `ino`.
    fn entry_record(ino: INodeNo, perm: Permission, f_type: PFSType, bytes: &[u8]) -> (r: PFSDEntry)
        requires
            bytes@.len() <= DENTRY_NAME_LEN,
            (perm.bits & !PERMISSION_ALL) == 0,
        ensures
            r@ == entry_for(ino.0, perm.bits, f_type, bytes@),
    {
        let mut f_name = [0u8; 118];
        let mut j: usize = 0;
        let blen = bytes.len();
        while j < blen
            invariant
                blen == bytes@.len(),
                blen <= DENTRY_NAME_LEN,
                j <= blen,
                forall|q: int| 0 <= q < j ==> f_name@[q] == bytes@[q],
                forall|q: int| blen <= q < DENTRY_NAME_LEN ==> f_name@[q] == 0u8,
            decreases blen - j,
        {
            f_name[j] = bytes[j];
            j = j + 1;
        }
        proof {
            assert(f_name@ =~= name_record(bytes@));
        }
        PFSDEntry { inode: ino, permission: PFSPerm::from_permission(perm), f_type, name_len: blen as u16, f_name }
    }

    /// Adds the entries `.` (naming itself) and `..` (naming `parent`) to a
    /// new directory.
    fn add_dots(&self, parent: INodeNo, perm: Permission, fs_inner: &mut ParchFSInner, now: usize)
        requires
            old(fs_inner).wf(),
            self.base.inode_no.0 < old(fs_inner)@.inodes.len(),
            self.base.mmap_start is None,
            (perm.bits & !PERMISSION_ALL) == 0,
            dots_spec(old(fs_inner)@, self.base.inode_no.0 as int, parent.0 as int, perm.bits, now) is Some,
        ensures
            final(fs_inner).wf(),
            final(fs_inner).base_page() == old(fs_inner).base_page(),
            final(fs_inner)@.inodes.len() == old(fs_inner)@.inodes.len(),
            Some(final(fs_inner)@) == dots_spec(old(fs_inner)@, self.base.inode_no.0 as int, parent.0 as int, perm.bits, now),
    {
        proof {
            reveal(dots_spec);
        }
        let dot_bytes: [u8; 1] = [46u8];
        let dot = Self::entry_record(self.base.inode_no, perm, PFSType::DIR, &dot_bytes);
        proof {
            assert(dot_bytes@ =~= seq![46u8]);
        }
        match self.add_dirent(&dot, fs_inner, now) {
            Ok(_) => {},
            Err(_) => {
                proof {
                    assert(false);
                }
                return;
            },
        }
        let dot2_bytes: [u8; 2] = [46u8, 46u8];
        let dot2 = Self::entry_record(parent, perm, PFSType::DIR, &dot2_bytes);
        proof {
            assert(dot2_bytes@ =~= seq![46u8, 46u8]);
        }
        match self.add_dirent(&dot2, fs_inner, now) {
            Ok(_) => {},
            Err(_) => {
                proof {
                    assert(false);
                }
            },
        }
    }

    /// Makes the file once the checks passed.
    fn create(&self, name: &String, perm: Permission, f_type: FileType, fs_inner: &mut ParchFSInner, now: usize) -> (r: Result<PFSFile, ErrorNum>)
        requires
            old(fs_inner).wf(),
            self.base.inode_no.0 < old(fs_inner)@.inodes.len(),
            self.base.mmap_start is None,
            (perm.bits & !PERMISSION_ALL) == 0,
            vstd::utf8::encode_utf8(name@).len() <= DENTRY_NAME_LEN,
            create_spec(old(fs_inner)@, self.base.inode_no.0 as int, self.base.path@, name@, perm.bits, f_type, now) is Some,
        ensures
            final(fs_inner).wf(),
            final(fs_inner).base_page() == old(fs_inner).base_page(),
            final(fs_inner)@.inodes.len() == old(fs_inner)@.inodes.len(),
            Some((opened(r), final(fs_inner)@)) == create_spec(old(fs_inner)@, self.base.inode_no.0 as int, self.base.path@, name@, perm.bits, f_type, now),
    {
        let inode_no = Self::new_inode(fs_inner, perm, f_type, now);
        let bytes = name.as_str().as_bytes();
        let pt = PFSType::from_file_type(f_type);
        proof {
            assert(pt == file_to_pfs(f_type));
        }
        let d = Self::entry_record(inode_no, perm, pt, bytes);
        self.add_dirent(&d, fs_inner, now)?;
        let res = self.find_entry(name, OpenMode { bits: 16 }, fs_inner, now)?;
        let f = match res {
            None => {
                return Err(ErrorNum::ENOENT);
            },
            Some(f) => f,
        };
        match f {
            PFSFile::Dir(child) => {
                child.add_dots(self.base.inode_no, perm, fs_inner, now);
                Ok(PFSFile::Dir(child))
            },
            other => Ok(other),
        }
    }

    /// Makes the file `name` of kind `f_type` (regular or directory) with
    /// permission `perm`, and opens it for the kernel; a directory gets the
    /// entries `.` and `..`.
    pub fn make_file(&self, name: String, perm: Permission, f_type: FileType, fs_inner: &mut ParchFSInner, now: usize) -> (r: Result<PFSFile, ErrorNum>)
        requires
            old(fs_inner).wf(),
            self.base.inode_no.0 < old(fs_inner)@.inodes.len(),
            self.base.mmap_start is None,
            (perm.bits & !PERMISSION_ALL) == 0,
            make_spec(old(fs_inner)@, self.base.inode_no.0 as int, self.base.path@, name@, perm.bits, f_type, now) is Some,
        ensures
            final(fs_inner).wf(),
            final(fs_inner).base_page() == old(fs_inner).base_page(),
            final(fs_inner)@.inodes.len() == old(fs_inner)@.inodes.len(),
            Some((opened(r), final(fs_inner)@)) == make_spec(old(fs_inner)@, self.base.inode_no.0 as int, self.base.path@, name@, perm.bits, f_type, now),
    {
        self.pre_make(&name, f_type, fs_inner, now)?;
        self.create(&name, perm, f_type, fs_inner, now)
    }

    /// Opens the entry `entry_name` in `mode`; when there is none and `mode`
    /// asks to create it, makes it a regular file with the default
    /// permission first.
    pub fn open_entry(&self, entry_name: &String, mode: OpenMode, fs_inner: &mut ParchFSInner, now: usize) -> (r: Result<PFSFile, ErrorNum>)
        requires
            old(fs_inner).wf(),
            self.base.inode_no.0 < old(fs_inner)@.inodes.len(),
            self.base.mmap_start is None,
            open_spec(old(fs_inner)@, self.base.inode_no.0 as int, self.base.path@, entry_name@, mode, now) is Some,
        ensures
            final(fs_inner).wf(),
            final(fs_inner).base_page() == old(fs_inner).base_page(),
            final(fs_inner)@.inodes.len() == old(fs_inner)@.inodes.len(),
            Some((opened(r), final(fs_inner)@)) == open_spec(old(fs_inner)@, self.base.inode_no.0 as int, self.base.path@, entry_name@, mode, now),
    {
        match self.find_entry(entry_name, mode, fs_inner, now)? {
            Some(f) => {
                return Ok(f);
            },
            None => {},
        }
        if mode.contains(OpenMode::CREATE) {
            let perm = Permission::default();
            let pb = perm.bits;
            assert((pb & !PERMISSION_ALL) == 0) by (bit_vector)
                requires
                    pb == 0o644u16,
            ;
            let _made = self.make_file(entry_name.clone(), perm, FileType::REGULAR, fs_inner, now)?;
            match self.find_entry(entry_name, mode, fs_inner, now)? {
                Some(f) => Ok(f),
                None => Err(ErrorNum::ENOENT),
            }
        } else {
            Err(ErrorNum::ENOENT)
        }
    }

    /// Removes this directory: lets go of each file its entries name,
    /// clearing the entries, removes the directories among them that lost
    /// their last link, and gives back its blocks and inode.  Giving back
    /// the blocks by resizing to 0 is refused (`EEMPTY`) for a directory
    /// whose size is not 0, which stops the kernel, so the directory must
    /// have size 0, and then it has no entries.
    pub fn remove_self(&self, fs_inner: &mut ParchFSInner, now: usize)
        requires
            old(fs_inner).wf(),
            self.base.inode_no.0 < old(fs_inner)@.inodes.len(),
            self.base.mmap_start is None,
            old(fs_inner)@.inode_bits[self.base.inode_no.0 as int],
            old(fs_inner)@.inodes[self.base.inode_no.0 as int].f_size == 0,
        ensures
            final(fs_inner).wf(),
            final(fs_inner).base_page() == old(fs_inner).base_page(),
            final(fs_inner)@.inodes.len() == old(fs_inner)@.inodes.len(),
            final(fs_inner)@ == rmself_spec(old(fs_inner)@, self.base.inode_no.0 as int, now),
        decreases old(fs_inner)@.inodes[self.base.inode_no.0 as int].f_size,
    {
        let no = self.base.inode_no;
        proof {
            reveal(super::base::read_chunks);
            lemma_decode_all_empty();
        }
        let entries = match self.read_dirent_raw(fs_inner, now) {
            Ok(v) => v,
            Err(_) => {
                proof {
                    assert(false);
                }
                return;
            },
        };
        let ghost m1 = fs_inner@;
        proof {
            let ino0 = old(fs_inner)@.inodes[no.0 as int];
            assert(super::base::read_len(0, 0, 0) == 0);
            assert(raw_spec(old(fs_inner)@, no.0 as int, now) == Some((
                Ok::<Seq<DEntryModel>, ErrorNum>(Seq::<DEntryModel>::empty()),
                with_inode(old(fs_inner)@, no.0 as int, PFSINode { access_time: now, ..ino0 }),
            )));
            lemma_entries_len(entries@);
        }
        let mut children: Vec<PFSDirInner> = Vec::new();
        let mut idx: usize = 0;
        while idx < entries.len()
            invariant
                entries@.len() == 0,
                children@.len() == 0,
                fs_inner.wf(),
                fs_inner@ == m1,
                fs_inner.base_page() == old(fs_inner).base_page(),
            decreases entries@.len() - idx,
        {
            let e = entries[idx];
            if e.inode.0 != BAD_INODE {
                let mut inode = match fs_inner.get_inode(e.inode) {
                    Ok(i) => i,
                    Err(_) => {
                        return;
                    },
                };
                inode.hard_link_count = inode.hard_link_count - 1;
                if inode.hard_link_count == 0 {
                    let path = match self.base.path.append(e.name()) {
                        Ok(p) => p,
                        Err(_) => {
                            return;
                        },
                    };
                    let base = PFSBase { inode_no: e.inode, open_mode: OpenMode { bits: 16 }, mmap_start: None, path };
                    if inode.f_type == PFSType::DIR {
                        children.push(PFSDirInner { base });
                    } else {
                        let _ = base.resize_locked(0, fs_inner, &mut inode);
                        fs_inner.put_inode(e.inode, inode);
                        fs_inner.free_inode(e.inode);
                    }
                }
                let _ = self.write_dirent_at(&PFSDEntry::empty(), idx, fs_inner, now);
            }
            idx = idx + 1;
        }
        let mut k: usize = 0;
        while k < children.len()
            invariant
                children@.len() == 0,
                fs_inner.wf(),
                fs_inner@ == m1,
                fs_inner.base_page() == old(fs_inner).base_page(),
            decreases children@.len() - k,
        {
            children[k].remove_self(fs_inner, now);
            k = k + 1;
        }
        let ghost ino1 = fs_inner@.inodes[no.0 as int];
        proof {
            lemma_rebuilt(ino1, pstate(fs_inner@, ino1), ino1);
            assert(with_inode(fs_inner@, no.0 as int, ino1) =~= fs_inner@) by {
                assert(fs_inner@.inodes.update(no.0 as int, ino1) =~= fs_inner@.inodes);
            }
        }
        match self.base.resize(0, fs_inner) {
            Ok(_) => {},
            Err(_) => {
                proof {
                    assert(false);
                }
                return;
            },
        }
        proof {
            fs_inner.lemma_wf();
        }
        fs_inner.free_inode(no);
    }

    /// Lets go of the file that `e` names: a directory is removed; another
    /// file loses a link, and with its last link its inode.
    fn unlink(&self, e: &Dirent, fs_inner: &mut ParchFSInner, now: usize)
        requires
            old(fs_inner).wf(),
            e.inode < old(fs_inner)@.inodes.len(),
            old(fs_inner)@.inode_bits[e.inode as int],
            !e.f_name@.contains('/'),
            unlink_spec(old(fs_inner)@, e@, now) is Some,
        ensures
            final(fs_inner).wf(),
            final(fs_inner).base_page() == old(fs_inner).base_page(),
            final(fs_inner)@.inodes.len() == old(fs_inner)@.inodes.len(),
            Some(final(fs_inner)@) == unlink_spec(old(fs_inner)@, e@, now),
    {
        let ino = INodeNo(e.inode);
        let mut inode = match fs_inner.get_inode(ino) {
            Ok(i) => i,
            Err(_) => {
                proof {
                    assert(false);
                }
                return;
            },
        };
        let path = match self.base.path.append(e.f_name.clone()) {
            Ok(p) => p,
            Err(_) => {
                proof {
                    assert(false);
                }
                return;
            },
        };
        if inode.f_type == PFSType::DIR {
            let child = PFSDirInner { base: PFSBase { inode_no: ino, open_mode: OpenMode { bits: 16 }, mmap_start: None, path } };
            child.remove_self(fs_inner, now);
        } else {
            inode.hard_link_count = inode.hard_link_count - 1;
            if inode.hard_link_count == 0 {
                let base = PFSBase { inode_no: ino, open_mode: OpenMode { bits: 16 }, mmap_start: None, path };
                let ghost before = inode;
                match base.resize_locked(0, fs_inner, &mut inode) {
                    Ok(_) => {},
                    Err(_) => {
                        proof {
                            assert(false);
                        }
                        return;
                    },
                }
                proof {
                    lemma_rebuilt(before, pstate(fs_inner@, inode), inode);
                    lemma_rebuilt(before, pstate(fs_inner@, before), before);
                    super::base::lemma_inode_eq(fs_inner@, inode, before);
                }
                fs_inner.put_inode(ino, inode);
                proof {
                    fs_inner.lemma_wf();
                }
                fs_inner.free_inode(ino);
            } else {
                fs_inner.put_inode(ino, inode);
            }
        }
    }

    /// Removes the entry `name`: lets go of the file it names and clears
    /// the record at the entry's place among the entries that name an
    /// inode.  `ENOENT` when no entry has that name.
    pub fn remove_file(&self, name: String, fs_inner: &mut ParchFSInner, now: usize) -> (r: Result<(), ErrorNum>)
        requires
            old(fs_inner).wf(),
            self.base.inode_no.0 < old(fs_inner)@.inodes.len(),
            self.base.mmap_start is None,
            remove_spec(old(fs_inner)@, self.base.inode_no.0 as int, name@, now) is Some,
        ensures
            final(fs_inner).wf(),
            final(fs_inner).base_page() == old(fs_inner).base_page(),
            final(fs_inner)@.inodes.len() == old(fs_inner)@.inodes.len(),
            Some((r, final(fs_inner)@)) == remove_spec(old(fs_inner)@, self.base.inode_no.0 as int, name@, now),
    {
        let entries = self.read_dirent(fs_inner, now)?;
        let ghost l = dirents_of(entries@);
        let mut i: usize = 0;
        while i < entries.len() && !(entries[i].f_name == name)
            invariant
                i <= entries@.len(),
                l == dirents_of(entries@),
                forall|j: int| 0 <= j < i ==> l[j].name != name@,
            decreases entries@.len() - i,
        {
            i = i + 1;
        }
        proof {
            lemma_find_name(l, name@, i as int);
        }
        if i == entries.len() {
            return Err(ErrorNum::ENOENT);
        }
        let e = &entries[i];
        if !fs_inner.inode_in_use(INodeNo(e.inode)) {
            return Err(ErrorNum::ENOENT);
        }
        self.unlink(e, fs_inner, now);
        self.write_dirent_at(&PFSDEntry::empty(), i, fs_inner, now)
    }
}

/// How far a read moves the cursor: the number of bytes it gave.
pub open spec fn read_moved(r: Result<super::base::ReadOut, ErrorNum>) -> int {
    match r {
        Ok(super::base::ReadOut::Bytes(b)) => b.len() as int,
        Ok(super::base::ReadOut::At(_, l)) => l,
        Err(_) => 0,
    }
}

impl PFSRegularInner {
    /// Writes `data` at the cursor and moves the cursor past it; how many
    /// bytes were written.
    pub fn write(&mut self, data: Vec<u8>, fs_inner: &mut ParchFSInner, now: usize) -> (r: Result<usize, ErrorNum>)
        requires
            old(fs_inner).wf(),
            old(self).base.inode_no.0 < old(fs_inner)@.inodes.len(),
            old(self).cursor.0 + data@.len() <= usize::MAX,
            old(self).base.mmap_start matches Some(v) ==> v.0 * 4096 + old(self).cursor.0 <= usize::MAX,
            super::base::write_spec(old(fs_inner)@, old(self).base.inode_no.0 as int, old(self).base.mmap_start, data@, old(self).cursor.0 as int, now) is Some,
        ensures
            final(fs_inner).wf(),
            final(fs_inner).base_page() == old(fs_inner).base_page(),
            final(self).base == old(self).base,
            match super::base::write_spec(old(fs_inner)@, old(self).base.inode_no.0 as int, old(self).base.mmap_start, data@, old(self).cursor.0 as int, now) {
                Some((Ok(_), m)) => r == Ok::<usize, ErrorNum>(data@.len() as usize) && final(fs_inner)@ == m
                    && final(self).cursor.0 == old(self).cursor.0 + data@.len(),
                Some((Err(e), m)) => r == Err::<usize, ErrorNum>(e) && final(fs_inner)@ == m && final(self).cursor == old(self).cursor,
                None => false,
            },
    {
        let len = data.len();
        match self.base.write(data, self.cursor, fs_inner, now) {
            Ok(_) => {},
            Err(e) => {
                return Err(e);
            },
        }
        self.cursor = Cursor(self.cursor.0 + len);
        Ok(len)
    }

    /// Reads up to `length` bytes at the cursor and moves the cursor past them.
    pub fn read(&mut self, length: usize, fs_inner: &mut ParchFSInner, now: usize) -> (r: Result<super::base::FileBytes, ErrorNum>)
        requires
            old(fs_inner).wf(),
            old(self).base.inode_no.0 < old(fs_inner)@.inodes.len(),
            old(self).cursor.0 + length <= usize::MAX,
            old(self).base.mmap_start matches Some(v) ==> v.0 * 4096 + old(self).cursor.0 <= usize::MAX,
            super::base::read_spec(old(fs_inner)@, old(self).base.inode_no.0 as int, old(self).base.mmap_start, length as int, old(self).cursor.0 as int, now) is Some,
        ensures
            final(fs_inner).wf(),
            final(fs_inner).base_page() == old(fs_inner).base_page(),
            final(self).base == old(self).base,
            Some((super::base::read_out(r), final(fs_inner)@)) == super::base::read_spec(old(fs_inner)@, old(self).base.inode_no.0 as int, old(self).base.mmap_start, length as int, old(self).cursor.0 as int, now),
            final(self).cursor.0 == old(self).cursor.0 + read_moved(super::base::read_out(r)),
    {
        let res = self.base.read(length, self.cursor, fs_inner, now)?;
        let moved = match &res {
            super::base::FileBytes::Data(v) => v.len(),
            super::base::FileBytes::AtAddress(_, l) => *l,
        };
        proof {
            old(fs_inner).lemma_wf();
            super::base::lemma_read_len(old(fs_inner)@, self.base.inode_no.0 as int, self.base.mmap_start, length as int, self.cursor.0 as int, now);
        }
        self.cursor = Cursor(self.cursor.0 + moved);
        Ok(res)
    }

    /// Moves the cursor to `offset`, or to the end of the file when that is
    /// nearer; where the cursor now stands.  The file's inode must be in use.
    pub fn seek(&mut self, offset: usize, fs_inner: &ParchFSInner) -> (r: Result<usize, ErrorNum>)
        requires
            fs_inner.wf(),
            old(self).base.inode_no.0 < fs_inner@.inodes.len(),
            fs_inner@.inode_bits[old(self).base.inode_no.0 as int],
        ensures
            final(self).base == old(self).base,
            r == Ok::<usize, ErrorNum>(final(self).cursor.0),
            final(self).cursor.0 == if offset > fs_inner@.inodes[old(self).base.inode_no.0 as int].f_size {
                fs_inner@.inodes[old(self).base.inode_no.0 as int].f_size
            } else {
                offset
            },
    {
        let len = match self.base.stat(fs_inner) {
            Ok(st) => st.file_size,
            Err(_) => {
                proof {
                    assert(false);
                }
                0
            },
        };
        let off = if offset > len { len } else { offset };
        self.cursor = Cursor(off);
        Ok(self.cursor.0)
    }
}

/// The root directory of the file system, opened in `open_mode`.
pub fn root_dir(fs_inner: &ParchFSInner, open_mode: OpenMode) -> (r: PFSDirInner)
    ensures
        r.base.inode_no.0 == fs_inner@.sb.root_inode,
        r.base.open_mode == open_mode,
        r.base.mmap_start is None,
        r.base.path@.len() == 0,
{
    let sb = fs_inner.superblock();
    PFSDirInner { base: PFSBase { inode_no: INodeNo(sb.root_inode), open_mode, mmap_start: None, path: Path::root() } }
}

/// The models of a list of records are as many as the records.
proof fn lemma_entries_len(v: Seq<PFSDEntry>)
    ensures
        super::dir::entries_of(v).len() == v.len(),
{
}

/// A directory of size 0 keeps no records.
proof fn lemma_decode_all_empty()
    ensures
        super::dir::decode_all(Seq::<u8>::empty()) == Some(Seq::<DEntryModel>::empty()),
{
}

} // verus!
