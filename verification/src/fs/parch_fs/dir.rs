//! Directories of ParchFS: files of directory entries, each `DENTRY_SIZE`
//! bytes, and the operations that find, add and remove entries.
use vstd::prelude::*;
use vstd::string::{StringExecFns, StrSliceExecFns};
use crate::error::ErrorNum;
use super::config::{BAD_INODE, DENTRY_NAME_LEN, DENTRY_SIZE};
use super::types::{INodeNo, PFSDEntry, PFSPerm, PFSType, pfs_type_code, pfs_type_of, pfs_to_file_type};
use super::store::{le32, FsModel, ParchFSInner};
use super::base::{PFSBase, FileBytes, ReadOut, read_spec, write_spec, getblk_spec};
use crate::fs::types::{Cursor, Dirent, DirentModel, FileType, Permission, PERMISSION_ALL};

verus! {

/// What a directory entry says: its inode, permission, kind, the length of
/// its name, and the bytes that hold the name.
pub struct DEntryModel {
    pub inode: u32,
    pub perm: u16,
    pub f_type: PFSType,
    pub name_len: u16,
    pub name: Seq<u8>,
}

impl View for PFSDEntry {
    type V = DEntryModel;

    open spec fn view(&self) -> DEntryModel {
        DEntryModel {
            inode: self.inode.0,
            perm: self.permission.bits,
            f_type: self.f_type,
            name_len: self.name_len,
            name: self.f_name@,
        }
    }
}

/// The little-endian number in `s[k..k + 2]`.
pub open spec fn le16(s: Seq<u8>, k: int) -> int {
    s[k] + s[k + 1] * 0x100
}

/// A 16-bit number in little-endian order.
pub open spec fn put16(v: u16) -> Seq<u8> {
    seq![(v & 0xff) as u8, ((v >> 8) & 0xff) as u8]
}

/// A 32-bit number in little-endian order.
pub open spec fn put32(v: u32) -> Seq<u8> {
    seq![(v & 0xff) as u8, ((v >> 8) & 0xff) as u8, ((v >> 16) & 0xff) as u8, ((v >> 24) & 0xff) as u8]
}

/// The bytes that keep a directory entry on disk.
pub open spec fn encode_dentry(d: DEntryModel) -> Seq<u8> {
    put32(d.inode) + put16(d.perm) + put16(pfs_type_code(d.f_type)) + put16(d.name_len) + d.name
}

/// The directory entry that the bytes from `k` on keep; `None` when its kind
/// is not a kind of file.
pub open spec fn decode_dentry(s: Seq<u8>, k: int) -> Option<DEntryModel> {
    match pfs_type_of(le16(s, k + 6) as u16) {
        None => None,
        Some(t) => Some(
            DEntryModel {
                inode: le32(s, k) as u32,
                perm: le16(s, k + 4) as u16,
                f_type: t,
                name_len: le16(s, k + 8) as u16,
                name: s.subrange(k + 10, k + DENTRY_SIZE as int),
            },
        ),
    }
}

/// The entries that the first `n` records of `s` keep; `None` when one of
/// them is not an entry.
pub open spec fn decode_n(s: Seq<u8>, n: int) -> Option<Seq<DEntryModel>>
    decreases n,
{
    if n <= 0 {
        Some(seq![])
    } else {
        match decode_n(s, n - 1) {
            None => None,
            Some(ds) => match decode_dentry(s, (n - 1) * DENTRY_SIZE as int) {
                None => None,
                Some(d) => Some(ds.push(d)),
            },
        }
    }
}

/// The text without its NUL characters.
pub open spec fn without_nul(t: Seq<char>) -> Seq<char> {
    t.filter(|c: char| c != '\0')
}

/// The entries that the bytes of a directory keep, one per record.
pub open spec fn decode_all(s: Seq<u8>) -> Option<Seq<DEntryModel>> {
    decode_n(s, s.len() as int / DENTRY_SIZE as int)
}

proof fn lemma_put16(v: u16)
    ensures
        put16(v).len() == 2,
        le16(put16(v), 0) == v,
{
    let b0 = (v & 0xff) as u8;
    let b1 = ((v >> 8) & 0xff) as u8;
    assert(b0 + b1 * 0x100 == v) by (bit_vector)
        requires
            b0 == (v & 0xff) as u8,
            b1 == ((v >> 8) & 0xff) as u8,
    ;
}

proof fn lemma_put32(v: u32)
    ensures
        put32(v).len() == 4,
        le32(put32(v), 0) == v,
{
    let b0 = (v & 0xff) as u8;
    let b1 = ((v >> 8) & 0xff) as u8;
    let b2 = ((v >> 16) & 0xff) as u8;
    let b3 = ((v >> 24) & 0xff) as u8;
    assert(b0 + b1 * 0x100 + b2 * 0x1_0000 + b3 * 0x100_0000 == v) by (bit_vector)
        requires
            b0 == (v & 0xff) as u8,
            b1 == ((v >> 8) & 0xff) as u8,
            b2 == ((v >> 16) & 0xff) as u8,
            b3 == ((v >> 24) & 0xff) as u8,
    ;
}

/// An entry kept on disk reads back as the same entry.
pub proof fn lemma_dentry_roundtrip(d: DEntryModel)
    requires
        d.name.len() == DENTRY_NAME_LEN,
    ensures
        encode_dentry(d).len() == DENTRY_SIZE,
        decode_dentry(encode_dentry(d), 0) == Some(d),
{
    let e = encode_dentry(d);
    lemma_put32(d.inode);
    lemma_put16(d.perm);
    lemma_put16(pfs_type_code(d.f_type));
    lemma_put16(d.name_len);
    assert(le32(e, 0) == le32(put32(d.inode), 0));
    assert(le16(e, 4) == le16(put16(d.perm), 0));
    assert(le16(e, 6) == le16(put16(pfs_type_code(d.f_type)), 0));
    assert(le16(e, 8) == le16(put16(d.name_len), 0));
    assert(e.subrange(10, 128) =~= d.name);
    assert(pfs_type_of(pfs_type_code(d.f_type)) == Some(d.f_type));
}

impl PFSDEntry {
    /// The entry that names no inode.
    pub fn empty() -> (r: Self)
        ensures
            r@ == (DEntryModel {
                inode: BAD_INODE,
                perm: 0,
                f_type: PFSType::UNKNOWN,
                name_len: 0,
                name: Seq::new(DENTRY_NAME_LEN as nat, |i: int| 0u8),
            }),
    {
        let r = PFSDEntry {
            inode: INodeNo(BAD_INODE),
            permission: PFSPerm::empty(),
            f_type: PFSType::UNKNOWN,
            name_len: 0,
            f_name: [0u8; 118],
        };
        assert(r.f_name@ =~= Seq::new(DENTRY_NAME_LEN as nat, |i: int| 0u8));
        r
    }

    /// The bytes that keep the entry on disk.
    pub fn to_bytes(&self) -> (r: Vec<u8>)
        ensures
            r@ == encode_dentry(self@),
    {
        let mut r: Vec<u8> = Vec::new();
        let ino = self.inode.0;
        r.push((ino & 0xff) as u8);
        r.push(((ino >> 8) & 0xff) as u8);
        r.push(((ino >> 16) & 0xff) as u8);
        r.push(((ino >> 24) & 0xff) as u8);
        let p = self.permission.bits;
        r.push((p & 0xff) as u8);
        r.push(((p >> 8) & 0xff) as u8);
        let t = self.f_type.code();
        r.push((t & 0xff) as u8);
        r.push(((t >> 8) & 0xff) as u8);
        let n = self.name_len;
        r.push((n & 0xff) as u8);
        r.push(((n >> 8) & 0xff) as u8);
        let ghost head = r@;
        let mut i: usize = 0;
        while i < DENTRY_NAME_LEN
            invariant
                i <= DENTRY_NAME_LEN,
                r@ == head + self.f_name@.subrange(0, i as int),
            decreases DENTRY_NAME_LEN - i,
        {
            r.push(self.f_name[i]);
            proof {
                assert(self.f_name@.subrange(0, i + 1) =~= self.f_name@.subrange(0, i as int).push(self.f_name@[i as int]));
            }
            i = i + 1;
        }
        proof {
            assert(self.f_name@.subrange(0, 118) =~= self.f_name@);
            assert(head =~= put32(ino) + put16(p) + put16(t) + put16(n));
        }
        r
    }

    /// The entry that the `DENTRY_SIZE` bytes of `s` from `k` on keep; `None`
    /// when its kind is not a kind of file.
    pub fn from_bytes(s: &[u8], k: usize) -> (r: Option<Self>)
        requires
            k + DENTRY_SIZE <= s@.len(),
        ensures
            match decode_dentry(s@, k as int) {
                None => r is None,
                Some(d) => r matches Some(e) && e@ == d,
            },
    {
        let ino = (s[k] as u32) + (s[k + 1] as u32) * 0x100 + (s[k + 2] as u32) * 0x1_0000 + (s[k + 3] as u32) * 0x100_0000;
        let perm = (s[k + 4] as u16) + (s[k + 5] as u16) * 0x100;
        let code = (s[k + 6] as u16) + (s[k + 7] as u16) * 0x100;
        let name_len = (s[k + 8] as u16) + (s[k + 9] as u16) * 0x100;
        let f_type = match PFSType::try_from_code(code) {
            Ok(t) => t,
            Err(_) => {
                return None;
            },
        };
        let slen = s.len();
        let mut f_name = [0u8; 118];
        let mut j: usize = 0;
        while j < DENTRY_NAME_LEN
            invariant
                j <= DENTRY_NAME_LEN,
                slen == s@.len(),
                k + DENTRY_SIZE <= slen,
                forall|q: int| 0 <= q < j ==> f_name@[q] == s@[k + 10 + q],
            decreases DENTRY_NAME_LEN - j,
        {
            f_name[j] = s[k + 10 + j];
            j = j + 1;
        }
        proof {
            assert(f_name@ =~= s@.subrange(k + 10, k + DENTRY_SIZE as int));
        }
        Some(PFSDEntry { inode: INodeNo(ino), permission: PFSPerm { bits: perm }, f_type, name_len, f_name })
    }

    /// The name of the entry: its first `name_len` bytes, as text without NUL
    /// characters.  Those bytes must be UTF-8.
    pub fn name(&self) -> (r: String)
        requires
            self.name_len <= DENTRY_NAME_LEN,
            vstd::utf8::valid_utf8(self.f_name@.subrange(0, self.name_len as int)),
        ensures
            r@ == without_nul(vstd::utf8::decode_utf8(self.f_name@.subrange(0, self.name_len as int))),
    {
        let mut bytes: Vec<u8> = Vec::new();
        let mut i: usize = 0;
        let n = self.name_len as usize;
        while i < n
            invariant
                n == self.name_len,
                n <= DENTRY_NAME_LEN,
                i <= n,
                bytes@ == self.f_name@.subrange(0, i as int),
            decreases n - i,
        {
            bytes.push(self.f_name[i]);
            proof {
                assert(self.f_name@.subrange(0, i + 1) =~= self.f_name@.subrange(0, i as int).push(self.f_name@[i as int]));
            }
            i = i + 1;
        }
        let full = match crate::text::string_from_utf8(bytes) {
            Some(s) => s,
            None => String::new(),
        };
        let st = full.as_str();
        let len = st.unicode_len();
        let mut out = String::from_str("");
        proof {
            reveal_strlit("");
            reveal(Seq::filter);
            assert(out@ =~= without_nul(st@.take(0)));
        }
        let mut j: usize = 0;
        while j < len
            invariant
                len == st@.len(),
                j <= len,
                out@ == without_nul(st@.take(j as int)),
            decreases len - j,
        {
            let c = st.get_char(j);
            if c != '\0' {
                out.append(st.substring_char(j, j + 1));
            }
            proof {
                reveal(Seq::filter);
                assert(st@.take(j + 1).drop_last() =~= st@.take(j as int));
                assert(st@.take(j + 1).last() == c);
                assert(st@.subrange(j as int, j + 1) =~= seq![c]);
            }
            j = j + 1;
        }
        proof {
            assert(st@.take(len as int) =~= st@);
        }
        out
    }
}


/// A directory of ParchFS, as opened.
pub struct PFSDirInner {
    pub base: PFSBase,
}

/// The models of a list of directory entries.
pub open spec fn entries_of(v: Seq<PFSDEntry>) -> Seq<DEntryModel> {
    Seq::new(v.len(), |i: int| v[i]@)
}

/// Reading the entries of the directory with inode `no`: what it gives and
/// the memory after.  A record whose kind is not a kind of file gives
/// `EBADTYPE`.  `None` when the file system is malformed on the way.
pub open spec fn raw_spec(m: FsModel, no: int, now: usize) -> Option<(Result<Seq<DEntryModel>, ErrorNum>, FsModel)> {
    if !m.inode_bits[no] {
        Some((Err(ErrorNum::ENOENT), m))
    } else {
        match read_spec(m, no, None, m.inodes[no].f_size as int, 0, now) {
            None => None,
            Some((Ok(ReadOut::Bytes(b)), m1)) => match decode_all(b) {
                Some(ds) => Some((Ok(ds), m1)),
                None => Some((Err(ErrorNum::EBADTYPE), m1)),
            },
            Some((Ok(ReadOut::At(_, _)), _)) => None,
            Some((Err(e), m1)) => Some((Err(e), m1)),
        }
    }
}

/// Whether the directory with inode `no` has room for the record `pos` and
/// a size that is a whole number of records.
pub open spec fn slot_ok(m: FsModel, no: int, pos: int) -> bool {
    m.inode_bits[no] ==> (m.inodes[no].f_size as int % DENTRY_SIZE as int == 0 && (pos + 1) * DENTRY_SIZE
        <= m.inodes[no].f_size)
}

/// Writing the entry `d` as record `pos` of the directory with inode `no`:
/// what it gives and the memory after.  `None` when the file system is
/// malformed on the way.
pub open spec fn wr_spec(m: FsModel, no: int, d: DEntryModel, pos: int, now: usize) -> Option<(Result<(), ErrorNum>, FsModel)> {
    if !m.inode_bits[no] {
        Some((Err(ErrorNum::ENOENT), m))
    } else {
        match write_spec(m, no, None, encode_dentry(d), pos * DENTRY_SIZE as int, now) {
            None => None,
            Some((Ok(_), m1)) => Some((Ok(()), m1)),
            Some((Err(e), m1)) => Some((Err(e), m1)),
        }
    }
}

/// The first record that names no inode, or the number of records.
pub open spec fn first_free(ds: Seq<DEntryModel>) -> int
    decreases ds.len(),
{
    if ds.len() == 0 {
        0
    } else if ds[0].inode == BAD_INODE {
        0
    } else {
        1 + first_free(ds.drop_first())
    }
}

/// Adding the entry `d` to the directory with inode `no`: into its first
/// free record, else into a new record at its end.  What it gives and the
/// memory after; `None` when the file system is malformed on the way.
#[verifier::opaque]
pub open spec fn add_spec(m: FsModel, no: int, d: DEntryModel, now: usize) -> Option<(Result<(), ErrorNum>, FsModel)> {
    match raw_spec(m, no, now) {
        None => None,
        Some((Err(e), m1)) => Some((Err(e), m1)),
        Some((Ok(ds), m1)) => {
            let pos = first_free(ds);
            if pos < ds.len() {
                if slot_ok(m1, no, pos) {
                    wr_spec(m1, no, d, pos, now)
                } else {
                    None
                }
            } else if (ds.len() + 1) * DENTRY_SIZE > usize::MAX {
                None
            } else {
                match getblk_spec(m1, no, (ds.len() + 1) * DENTRY_SIZE as int, true) {
                    None => None,
                    Some((Err(e), m2)) => Some((Err(e), m2)),
                    Some((Ok(_), m2)) => if slot_ok(m2, no, ds.len() as int) {
                        wr_spec(m2, no, d, ds.len() as int, now)
                    } else {
                        None
                    },
                }
            }
        },
    }
}

proof fn lemma_first_free(ds: Seq<DEntryModel>, i: int)
    requires
        0 <= i <= ds.len(),
        forall|j: int| 0 <= j < i ==> ds[j].inode != BAD_INODE,
        i < ds.len() ==> ds[i].inode == BAD_INODE,
    ensures
        first_free(ds) == i,
    decreases ds.len(),
{
    if ds.len() > 0 && i > 0 {
        let t = ds.drop_first();
        assert forall|j: int| 0 <= j < i - 1 implies t[j].inode != BAD_INODE by {
            assert(t[j] == ds[j + 1]);
        }
        lemma_first_free(t, i - 1);
    }
}

proof fn lemma_decode_none(s: Seq<u8>, a: int, b: int)
    requires
        0 <= a <= b,
        decode_n(s, a) is None,
    ensures
        decode_n(s, b) is None,
    decreases b - a,
{
    if a < b {
        lemma_decode_none(s, a, b - 1);
    }
}

impl PFSDirInner {
    /// All records of the directory, free ones too.
    pub fn read_dirent_raw(&self, fs_inner: &mut ParchFSInner, now: usize) -> (r: Result<Vec<PFSDEntry>, ErrorNum>)
        requires
            old(fs_inner).wf(),
            self.base.inode_no.0 < old(fs_inner)@.inodes.len(),
            self.base.mmap_start is None,
            slot_ok(old(fs_inner)@, self.base.inode_no.0 as int, -1),
            raw_spec(old(fs_inner)@, self.base.inode_no.0 as int, now) is Some,
        ensures
            final(fs_inner).wf(),
            final(fs_inner).base_page() == old(fs_inner).base_page(),
            final(fs_inner)@.inode_bits == old(fs_inner)@.inode_bits,
            final(fs_inner)@.inodes.len() == old(fs_inner)@.inodes.len(),
            Some((match r {
                Ok(v) => Ok(entries_of(v@)),
                Err(e) => Err(e),
            }, final(fs_inner)@)) == raw_spec(old(fs_inner)@, self.base.inode_no.0 as int, now),
    {
        let st = self.base.stat(fs_inner)?;
        let res = self.base.read(st.file_size, Cursor(0), fs_inner, now);
        let bytes = match res {
            Err(e) => {
                return Err(e);
            },
            Ok(FileBytes::AtAddress(_, _)) => {
                proof {
                    assert(false);
                }
                return Err(ErrorNum::EBADTYPE);
            },
            Ok(FileBytes::Data(b)) => b,
        };
        let ghost b = bytes@;
        let ghost m1 = fs_inner@;
        let ghost spec_r = raw_spec(old(fs_inner)@, self.base.inode_no.0 as int, now);
        assert(spec_r == match decode_all(b) {
            Some(ds) => Some((Ok::<Seq<DEntryModel>, ErrorNum>(ds), m1)),
            None => Some((Err::<Seq<DEntryModel>, ErrorNum>(ErrorNum::EBADTYPE), m1)),
        });
        let n = bytes.len() / DENTRY_SIZE;
        let mut v: Vec<PFSDEntry> = Vec::new();
        let mut i: usize = 0;
        proof {
            assert(entries_of(v@) =~= seq![]);
        }
        while i < n
            invariant
                b == bytes@,
                fs_inner.wf(),
                fs_inner.base_page() == old(fs_inner).base_page(),
                fs_inner@.inode_bits == old(fs_inner)@.inode_bits,
                fs_inner@.inodes.len() == old(fs_inner)@.inodes.len(),
                fs_inner@ == m1,
                spec_r == raw_spec(old(fs_inner)@, self.base.inode_no.0 as int, now),
                spec_r == match decode_all(b) {
                    Some(ds) => Some((Ok::<Seq<DEntryModel>, ErrorNum>(ds), m1)),
                    None => Some((Err::<Seq<DEntryModel>, ErrorNum>(ErrorNum::EBADTYPE), m1)),
                },
                n == bytes@.len() as int / DENTRY_SIZE as int,
                bytes@.len() <= usize::MAX,
                i <= n,
                decode_n(b, i as int) == Some(entries_of(v@)),
            decreases n - i,
        {
            proof {
                assert(i * 128 + 128 <= n * 128) by (nonlinear_arith)
                    requires
                        i < n,
                ;
                assert(n * 128 <= bytes@.len()) by (nonlinear_arith)
                    requires
                        n == bytes@.len() / 128,
                ;
            }
            let e = match PFSDEntry::from_bytes(bytes.as_slice(), i * DENTRY_SIZE) {
                Some(e) => e,
                None => {
                    proof {
                        assert(decode_n(b, i + 1) is None);
                        lemma_decode_none(b, i + 1, n as int);
                    }
                    return Err(ErrorNum::EBADTYPE);
                },
            };
            let ghost prev = v@;
            v.push(e);
            proof {
                assert(entries_of(v@) =~= entries_of(prev).push(e@));
            }
            i = i + 1;
        }
        Ok(v)
    }

    /// Writes `dirent` as record `pos` of the directory.
    pub fn write_dirent_at(&self, dirent: &PFSDEntry, pos: usize, fs_inner: &mut ParchFSInner, now: usize) -> (r: Result<(), ErrorNum>)
        requires
            old(fs_inner).wf(),
            self.base.inode_no.0 < old(fs_inner)@.inodes.len(),
            self.base.mmap_start is None,
            slot_ok(old(fs_inner)@, self.base.inode_no.0 as int, pos as int),
            wr_spec(old(fs_inner)@, self.base.inode_no.0 as int, dirent@, pos as int, now) is Some,
        ensures
            final(fs_inner).wf(),
            final(fs_inner).base_page() == old(fs_inner).base_page(),
            final(fs_inner)@.inode_bits == old(fs_inner)@.inode_bits,
            final(fs_inner)@.inodes.len() == old(fs_inner)@.inodes.len(),
            Some((r, final(fs_inner)@)) == wr_spec(old(fs_inner)@, self.base.inode_no.0 as int, dirent@, pos as int, now),
    {
        let st = self.base.stat(fs_inner)?;
        let bytes = dirent.to_bytes();
        proof {
            lemma_dentry_roundtrip(dirent@);
        }
        match self.base.write(bytes, Cursor(pos * DENTRY_SIZE), fs_inner, now) {
            Ok(_) => Ok(()),
            Err(e) => Err(e),
        }
    }

    /// Adds `dirent` to the directory: into its first free record, or into
    /// a new record at its end.
    pub fn add_dirent(&self, dirent: &PFSDEntry, fs_inner: &mut ParchFSInner, now: usize) -> (r: Result<(), ErrorNum>)
        requires
            old(fs_inner).wf(),
            self.base.inode_no.0 < old(fs_inner)@.inodes.len(),
            self.base.mmap_start is None,
            slot_ok(old(fs_inner)@, self.base.inode_no.0 as int, -1),
            add_spec(old(fs_inner)@, self.base.inode_no.0 as int, dirent@, now) is Some,
        ensures
            final(fs_inner).wf(),
            final(fs_inner).base_page() == old(fs_inner).base_page(),
            final(fs_inner)@.inode_bits == old(fs_inner)@.inode_bits,
            final(fs_inner)@.inodes.len() == old(fs_inner)@.inodes.len(),
            Some((r, final(fs_inner)@)) == add_spec(old(fs_inner)@, self.base.inode_no.0 as int, dirent@, now),
    {
        proof {
            reveal(add_spec);
        }
        let dirents = self.read_dirent_raw(fs_inner, now)?;
        let ghost ds = entries_of(dirents@);
        let mut i: usize = 0;
        while i < dirents.len() && dirents[i].inode.0 != BAD_INODE
            invariant
                i <= dirents@.len(),
                ds == entries_of(dirents@),
                forall|j: int| 0 <= j < i ==> ds[j].inode != BAD_INODE,
            decreases dirents@.len() - i,
        {
            i = i + 1;
        }
        proof {
            lemma_first_free(ds, i as int);
        }
        if i < dirents.len() {
            return self.write_dirent_at(dirent, i, fs_inner, now);
        }
        let n = dirents.len();
        self.base.expand((n + 1) * DENTRY_SIZE, fs_inner)?;
        self.write_dirent_at(dirent, n, fs_inner, now)
    }

    /// The entries of the directory that name an inode, as the file systems
    /// hand them out.
    pub fn read_dirent(&self, fs_inner: &mut ParchFSInner, now: usize) -> (r: Result<Vec<Dirent>, ErrorNum>)
        requires
            old(fs_inner).wf(),
            self.base.inode_no.0 < old(fs_inner)@.inodes.len(),
            self.base.mmap_start is None,
            slot_ok(old(fs_inner)@, self.base.inode_no.0 as int, -1),
            raw_spec(old(fs_inner)@, self.base.inode_no.0 as int, now) is Some,
            listing_ok(old(fs_inner)@, self.base.inode_no.0 as int, now),
        ensures
            final(fs_inner).wf(),
            final(fs_inner).base_page() == old(fs_inner).base_page(),
            final(fs_inner)@.inode_bits == old(fs_inner)@.inode_bits,
            final(fs_inner)@.inodes.len() == old(fs_inner)@.inodes.len(),
            Some((match r {
                Ok(v) => Ok(dirents_of(v@)),
                Err(e) => Err(e),
            }, final(fs_inner)@)) == list_spec(old(fs_inner)@, self.base.inode_no.0 as int, now),
    {
        let raw = self.read_dirent_raw(fs_inner, now)?;
        let ghost ds = entries_of(raw@);
        let mut out: Vec<Dirent> = Vec::new();
        let mut i: usize = 0;
        proof {
            reveal(Seq::filter);
            assert(ds.take(0) =~= Seq::<DEntryModel>::empty());
            assert(dirents_of(out@) =~= listing(ds.take(0)));
        }
        while i < raw.len()
            invariant
                i <= raw@.len(),
                ds == entries_of(raw@),
                forall|j: int| 0 <= j < ds.len() && ds[j].inode != BAD_INODE ==> entry_ok(#[trigger] ds[j]),
                dirents_of(out@) == listing(ds.take(i as int)),
            decreases raw@.len() - i,
        {
            let e = raw[i];
            proof {
                reveal(Seq::filter);
                assert(ds.take(i + 1).drop_last() =~= ds.take(i as int));
                assert(ds.take(i + 1).last() == e@);
            }
            let ghost before = out@;
            if e.inode.0 != BAD_INODE {
                proof {
                    assert(entry_ok(ds[i as int]));
                }
                let d = Dirent {
                    inode: e.inode.0,
                    permission: e.permission.into_permission(),
                    f_type: e.f_type.into_file_type(),
                    f_name: e.name(),
                };
                out.push(d);
                proof {
                    assert(live_entries(ds.take(i + 1)) =~= live_entries(ds.take(i as int)).push(e@));
                    assert(dirents_of(out@) =~= dirents_of(before).push(d@));
                    assert(listing(ds.take(i + 1)) =~= listing(ds.take(i as int)).push(dirent_of(e@)));
                }
            } else {
                proof {
                    assert(live_entries(ds.take(i + 1)) =~= live_entries(ds.take(i as int)));
                }
            }
            i = i + 1;
        }
        proof {
            assert(ds.take(raw@.len() as int) =~= ds);
        }
        Ok(out)
    }
}

/// The entries that name an inode.
pub open spec fn live_entries(ds: Seq<DEntryModel>) -> Seq<DEntryModel> {
    ds.filter(|d: DEntryModel| d.inode != BAD_INODE)
}

/// The name an entry gives: its first `name_len` bytes as text, without NUL characters.
pub open spec fn entry_name(d: DEntryModel) -> Seq<char> {
    without_nul(vstd::utf8::decode_utf8(d.name.subrange(0, d.name_len as int)))
}

/// Whether an entry can be handed out: its name fits its record and is
/// UTF-8, and its permission has only bits of a permission.
pub open spec fn entry_ok(d: DEntryModel) -> bool {
    &&& d.name_len <= DENTRY_NAME_LEN
    &&& d.name.len() == DENTRY_NAME_LEN
    &&& vstd::utf8::valid_utf8(d.name.subrange(0, d.name_len as int))
    &&& (d.perm & !PERMISSION_ALL) == 0
}

/// The entry as the file systems hand it out.
pub open spec fn dirent_of(d: DEntryModel) -> DirentModel {
    DirentModel { inode: d.inode, perm: d.perm, f_type: pfs_to_file_type(d.f_type), name: entry_name(d) }
}

/// The entries that name an inode, as the file systems hand them out.
pub open spec fn listing(ds: Seq<DEntryModel>) -> Seq<DirentModel> {
    let l = live_entries(ds);
    Seq::new(l.len(), |i: int| dirent_of(l[i]))
}

/// The models of a list of entries handed out.
pub open spec fn dirents_of(v: Seq<Dirent>) -> Seq<DirentModel> {
    Seq::new(v.len(), |i: int| v[i]@)
}

/// Whether every entry of the directory with inode `no` that names an inode
/// can be handed out.
pub open spec fn listing_ok(m: FsModel, no: int, now: usize) -> bool {
    raw_spec(m, no, now) matches Some((Ok(ds), _)) ==> forall|j: int|
        0 <= j < ds.len() && ds[j].inode != BAD_INODE ==> entry_ok(#[trigger] ds[j])
}

/// Listing the directory with inode `no`: what it gives and the memory after.
pub open spec fn list_spec(m: FsModel, no: int, now: usize) -> Option<(Result<Seq<DirentModel>, ErrorNum>, FsModel)> {
    match raw_spec(m, no, now) {
        None => None,
        Some((Ok(ds), m1)) => Some((Ok(listing(ds)), m1)),
        Some((Err(e), m1)) => Some((Err(e), m1)),
    }
}

} // verus!
