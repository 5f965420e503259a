//! The part of a ParchFS file that every kind of file shares: finding,
//! adding and freeing the blocks of its inode, and reading and writing its bytes.
use vstd::prelude::*;
use crate::error::ErrorNum;
use crate::mem::types::{VirtAddr, VirtPageNum};
use crate::fs::vfs::{OpenMode, Path};
use super::config::{BAD_BLOCK, BLK_SIZE, BLOCKNO_PER_BLK, DIRECT_BLK_COUNT, PFS_MAXCAP};
use super::types::{BlockNo, INodeNo, PFSINode};
use super::store::{
    FsModel,
    ParchFSInner,
    alloc_model,
    can_alloc,
    entry,
    fs_wf,
    lowest_free,
    same_inodes,
    set_entry,
};

verus! {

/// The block numbers of an inode and its size, with the memory they point into.
pub struct PState {
    pub m: FsModel,
    pub direct: Seq<u32>,
    pub indirect: u32,
    pub indirect2: u32,
    pub f_size: int,
}

/// The direct block numbers of an inode.
pub open spec fn direct_of(ino: PFSINode) -> Seq<u32> {
    Seq::new(16, |i: int| ino.direct_blk_no@[i].0)
}

/// The state of the memory `m` and the inode `ino`.
pub open spec fn pstate(m: FsModel, ino: PFSINode) -> PState {
    PState {
        m,
        direct: direct_of(ino),
        indirect: ino.indirect_blk.0,
        indirect2: ino.indirect_blk2.0,
        f_size: ino.f_size as int,
    }
}

/// Two inodes agree on everything but their block numbers and size.
pub open spec fn same_but_blocks(a: PFSINode, b: PFSINode) -> bool {
    &&& a.permission == b.permission
    &&& a.f_type == b.f_type
    &&& a.uid == b.uid
    &&& a.gid == b.gid
    &&& a.flags == b.flags
    &&& a.hard_link_count == b.hard_link_count
    &&& a.access_time == b.access_time
    &&& a.change_time == b.change_time
    &&& a.create_time == b.create_time
}

/// What looking for a block gives: the block, an error, or a malformed file
/// system (on which the kernel stops).
pub enum Outcome {
    Block(u32),
    Fail(ErrorNum),
    Broken,
}

/// Takes a block: the state after, and the block's number.  `None` when the
/// superblock counts no free block or no page is free.
pub open spec fn alloc_st(s: PState) -> Option<(PState, u32)> {
    if can_alloc(s.m) {
        Some((PState { m: alloc_model(s.m), ..s }, lowest_free(s.m.pages.fs) as u32))
    } else {
        None
    }
}

/// Gives each of the first `k` direct block numbers that is zero a new block, in order.
pub open spec fn fill_direct(s: PState, k: int) -> Option<PState>
    decreases k,
{
    if k <= 0 {
        Some(s)
    } else {
        match fill_direct(s, k - 1) {
            None => None,
            Some(s1) => if s1.direct[k - 1] == BAD_BLOCK {
                match alloc_st(s1) {
                    None => None,
                    Some((s2, nb)) => Some(PState { direct: s2.direct.update(k - 1, nb), ..s2 }),
                }
            } else {
                Some(s1)
            },
        }
    }
}

/// Gives entry `i` of the index block `b` a new block if it is zero.
pub open spec fn ensure_entry(s: PState, b: int, i: int) -> Option<PState> {
    if entry(s.m, b, i) == BAD_BLOCK {
        match alloc_st(s) {
            None => None,
            Some((s2, nb)) => Some(PState { m: set_entry(s2.m, b, i, nb), ..s2 }),
        }
    } else {
        Some(s)
    }
}

/// Gives each of the first `k` entries of the index block `b` that is zero a
/// new block, in order.
pub open spec fn fill_entries(s: PState, b: int, k: int) -> Option<PState>
    decreases k,
{
    if k <= 0 {
        Some(s)
    } else {
        match fill_entries(s, b, k - 1) {
            None => None,
            Some(s1) => ensure_entry(s1, b, k - 1),
        }
    }
}

/// For entry `i` of the doubly indirect block `ind2`: gives the entry a new
/// block if it is zero, then gives entry `i` of the block it names a new
/// block if that is zero.  `None` when the entry names a block outside
/// memory or a block cannot be taken.
pub open spec fn lv2_step(s1: PState, ind2: int, i: int) -> Option<PState> {
    match ensure_entry(s1, ind2, i) {
        None => None,
        Some(s2) => {
            let l = entry(s2.m, ind2, i) as int;
            if l >= s2.m.blocks.len() {
                None
            } else {
                ensure_entry(s2, l, i)
            }
        },
    }
}

/// Does the step of `lv2_step` for each of the first `k` entries of `ind2`, in order.
pub open spec fn fill_lv2(s: PState, ind2: int, k: int) -> Option<PState>
    decreases k,
{
    if k <= 0 {
        Some(s)
    } else {
        match fill_lv2(s, ind2, k - 1) {
            None => None,
            Some(s1) => lv2_step(s1, ind2, k - 1),
        }
    }
}

/// The smaller of two numbers.
pub open spec fn min_int(a: int, b: int) -> int {
    if a < b {
        a
    } else {
        b
    }
}

/// The blocks that creating the byte at `offset` adds, in the order the
/// inode finds them: the direct ones up to it, then the indirect block and
/// its entries up to it, then the doubly indirect block and, for each of its
/// entries up to it, that entry's block and the entry of the same position in it.
pub open spec fn create_path(s0: PState, offset: int) -> Option<PState> {
    match fill_direct(s0, min_int(DIRECT_BLK_COUNT as int, offset / BLK_SIZE as int + 1)) {
        None => None,
        Some(s1) => if offset < (BLK_SIZE * DIRECT_BLK_COUNT) as int {
            Some(s1)
        } else {
            let off1 = offset - BLK_SIZE * DIRECT_BLK_COUNT;
            let s2o = if s1.indirect == BAD_BLOCK {
                match alloc_st(s1) {
                    None => None,
                    Some((s2, nb)) => Some(PState { indirect: nb, ..s2 }),
                }
            } else {
                Some(s1)
            };
            match s2o {
                None => None,
                Some(s2) => if s2.indirect >= s2.m.blocks.len() {
                    None
                } else {
                    match fill_entries(
                        s2,
                        s2.indirect as int,
                        min_int(BLOCKNO_PER_BLK as int, off1 / BLK_SIZE as int + 1),
                    ) {
                        None => None,
                        Some(s3) => if off1 < (BLK_SIZE * BLOCKNO_PER_BLK) as int {
                            Some(s3)
                        } else {
                            let off2 = off1 - BLK_SIZE * BLOCKNO_PER_BLK;
                            let s4o = if s3.indirect2 == BAD_BLOCK {
                                match alloc_st(s3) {
                                    None => None,
                                    Some((s4, nb)) => Some(PState { indirect2: nb, ..s4 }),
                                }
                            } else {
                                Some(s3)
                            };
                            match s4o {
                                None => None,
                                Some(s4) => if s4.indirect2 >= s4.m.blocks.len() {
                                    None
                                } else {
                                    fill_lv2(
                                        s4,
                                        s4.indirect2 as int,
                                        min_int(
                                            BLOCKNO_PER_BLK as int,
                                            off2 / (BLOCKNO_PER_BLK * BLK_SIZE) as int + 1,
                                        ),
                                    )
                                },
                            }
                        },
                    }
                },
            }
        },
    }
}

/// The block that holds the byte at `offset` of the file, looked up without
/// adding any: a zero block number on the way, or one outside memory, is a
/// malformed file system.
pub open spec fn lookup_block(s: PState, offset: int) -> Outcome {
    let len = s.m.blocks.len();
    if offset < (BLK_SIZE * DIRECT_BLK_COUNT) as int {
        let r = s.direct[offset / BLK_SIZE as int];
        if r == BAD_BLOCK {
            Outcome::Broken
        } else {
            Outcome::Block(r)
        }
    } else {
        let off1 = offset - BLK_SIZE * DIRECT_BLK_COUNT;
        if s.indirect == BAD_BLOCK || s.indirect >= len {
            Outcome::Broken
        } else if off1 < (BLK_SIZE * BLOCKNO_PER_BLK) as int {
            let r = entry(s.m, s.indirect as int, off1 / BLK_SIZE as int);
            if r == BAD_BLOCK {
                Outcome::Broken
            } else {
                Outcome::Block(r)
            }
        } else {
            let off2 = off1 - BLK_SIZE * BLOCKNO_PER_BLK;
            let bo = off2 / BLK_SIZE as int;
            if s.indirect2 == BAD_BLOCK || s.indirect2 >= len {
                Outcome::Broken
            } else {
                let l1 = entry(s.m, s.indirect2 as int, bo / BLOCKNO_PER_BLK as int);
                if l1 == BAD_BLOCK || l1 >= len {
                    Outcome::Broken
                } else {
                    let l2 = entry(s.m, l1 as int, bo % BLOCKNO_PER_BLK as int);
                    if l2 == BAD_BLOCK {
                        Outcome::Broken
                    } else {
                        Outcome::Block(l2)
                    }
                }
            }
        }
    }
}

/// Looking for the block of the byte at `offset`, adding the missing blocks
/// on the way when `create`: what is found, and the state after.  Beyond the
/// largest size, or at or past the end of the file when not growing it, is
/// out of range; growing the file to `offset` makes `offset` its new size.
pub open spec fn blockno_spec(s: PState, offset: int, create: bool) -> (Outcome, PState) {
    if offset >= PFS_MAXCAP {
        (Outcome::Fail(ErrorNum::EOOR), s)
    } else if offset >= s.f_size && !(create && offset > s.f_size) {
        (Outcome::Fail(ErrorNum::EOOR), s)
    } else {
        let s0 = if create && offset > s.f_size {
            PState { f_size: offset, ..s }
        } else {
            s
        };
        if !create {
            (lookup_block(s0, offset), s0)
        } else {
            match create_path(s0, offset) {
                None => (Outcome::Broken, s0),
                Some(s1) => (lookup_block(s1, offset), s1),
            }
        }
    }
}

/// Once filling fails, filling more fails too.
proof fn lemma_fill_direct_mono(s: PState, j: int, k: int)
    requires
        0 <= j <= k,
        fill_direct(s, k) is Some,
    ensures
        fill_direct(s, j) is Some,
    decreases k - j,
{
    if j < k {
        lemma_fill_direct_mono(s, j + 1, k);
    }
}

proof fn lemma_fill_entries_mono(s: PState, b: int, j: int, k: int)
    requires
        0 <= j <= k,
        fill_entries(s, b, k) is Some,
    ensures
        fill_entries(s, b, j) is Some,
    decreases k - j,
{
    if j < k {
        lemma_fill_entries_mono(s, b, j + 1, k);
    }
}

proof fn lemma_fill_lv2_mono(s: PState, b: int, j: int, k: int)
    requires
        0 <= j <= k,
        fill_lv2(s, b, k) is Some,
    ensures
        fill_lv2(s, b, j) is Some,
    decreases k - j,
{
    if j < k {
        lemma_fill_lv2_mono(s, b, j + 1, k);
    }
}

/// A part of a ParchFS file that every kind of file shares.
pub struct PFSBase {
    pub inode_no: INodeNo,
    pub open_mode: OpenMode,
    pub mmap_start: Option<VirtPageNum>,
    pub path: Path,
}


/// Gives each of the first `k` direct block numbers of `inode` that is zero a new block.
fn fill_direct_blocks(fs_inner: &mut ParchFSInner, inode: &mut PFSINode, k: usize)
    requires
        old(fs_inner).wf(),
        k <= DIRECT_BLK_COUNT,
        fill_direct(pstate(old(fs_inner)@, *old(inode)), k as int) is Some,
    ensures
        final(fs_inner).wf(),
        final(fs_inner).base_page() == old(fs_inner).base_page(),
            same_inodes(final(fs_inner)@, old(fs_inner)@),
        same_but_blocks(*final(inode), *old(inode)),
        final(inode).indirect_blk == old(inode).indirect_blk,
        final(inode).indirect_blk2 == old(inode).indirect_blk2,
        final(inode).f_size == old(inode).f_size,
        Some(pstate(final(fs_inner)@, *final(inode))) == fill_direct(
            pstate(old(fs_inner)@, *old(inode)),
            k as int,
        ),
{
    let ghost s0 = pstate(fs_inner@, *inode);
    let mut i: usize = 0;
    while i < k
        invariant
            fs_inner.wf(),
            fs_inner.base_page() == old(fs_inner).base_page(),
            same_inodes(fs_inner@, old(fs_inner)@),
            same_but_blocks(*inode, *old(inode)),
            inode.indirect_blk == old(inode).indirect_blk,
            inode.indirect_blk2 == old(inode).indirect_blk2,
            inode.f_size == old(inode).f_size,
            s0 == pstate(old(fs_inner)@, *old(inode)),
            k <= DIRECT_BLK_COUNT,
            i <= k,
            fill_direct(s0, k as int) is Some,
            fill_direct(s0, i as int) == Some(pstate(fs_inner@, *inode)),
        decreases k - i,
    {
        proof {
            lemma_fill_direct_mono(s0, i + 1, k as int);
            assert(pstate(fs_inner@, *inode).direct[i as int] == inode.direct_blk_no@[i as int].0);
        }
        if inode.direct_blk_no[i].0 == BAD_BLOCK {
            let ghost before = *inode;
            let nb = fs_inner.alloc_blk();
            inode.direct_blk_no[i] = nb;
            proof {
                assert(direct_of(*inode) =~= direct_of(before).update(i as int, nb.0));
            }
        }
        i = i + 1;
    }
}

/// Gives entry `i` of the index block `b` a new block if it is zero.
fn ensure_entry_block(fs_inner: &mut ParchFSInner, inode: &PFSINode, b: BlockNo, i: usize)
    requires
        old(fs_inner).wf(),
        b.0 < old(fs_inner)@.blocks.len(),
        i < BLOCKNO_PER_BLK,
        ensure_entry(pstate(old(fs_inner)@, *inode), b.0 as int, i as int) is Some,
    ensures
        final(fs_inner).wf(),
        final(fs_inner).base_page() == old(fs_inner).base_page(),
            same_inodes(final(fs_inner)@, old(fs_inner)@),
        Some(pstate(final(fs_inner)@, *inode)) == ensure_entry(
            pstate(old(fs_inner)@, *inode),
            b.0 as int,
            i as int,
        ),
        entry(final(fs_inner)@, b.0 as int, i as int) != BAD_BLOCK,
        final(fs_inner)@.blocks.len() == old(fs_inner)@.blocks.len(),
{
    proof {
        fs_inner.lemma_wf();
    }
    if fs_inner.read_entry(b, i).0 == BAD_BLOCK {
        let nb = fs_inner.alloc_blk();
        fs_inner.write_entry(b, i, nb);
    }
}

/// Gives each of the first `k` entries of the index block `b` that is zero a new block.
fn fill_entry_blocks(fs_inner: &mut ParchFSInner, inode: &PFSINode, b: BlockNo, k: usize)
    requires
        old(fs_inner).wf(),
        b.0 < old(fs_inner)@.blocks.len(),
        k <= BLOCKNO_PER_BLK,
        fill_entries(pstate(old(fs_inner)@, *inode), b.0 as int, k as int) is Some,
    ensures
        final(fs_inner).wf(),
        final(fs_inner).base_page() == old(fs_inner).base_page(),
            same_inodes(final(fs_inner)@, old(fs_inner)@),
        Some(pstate(final(fs_inner)@, *inode)) == fill_entries(
            pstate(old(fs_inner)@, *inode),
            b.0 as int,
            k as int,
        ),
{
    let ghost s0 = pstate(fs_inner@, *inode);
    let mut i: usize = 0;
    while i < k
        invariant
            fs_inner.wf(),
            fs_inner.base_page() == old(fs_inner).base_page(),
            same_inodes(fs_inner@, old(fs_inner)@),
            s0 == pstate(old(fs_inner)@, *inode),
            fs_inner@.blocks.len() == old(fs_inner)@.blocks.len(),
            b.0 < old(fs_inner)@.blocks.len(),
            k <= BLOCKNO_PER_BLK,
            i <= k,
            fill_entries(s0, b.0 as int, k as int) is Some,
            fill_entries(s0, b.0 as int, i as int) == Some(pstate(fs_inner@, *inode)),
        decreases k - i,
    {
        proof {
            lemma_fill_entries_mono(s0, b.0 as int, i + 1, k as int);
        }
        ensure_entry_block(fs_inner, inode, b, i);
        i = i + 1;
    }
}

/// Entry `i` of the doubly indirect block `ind2` and entry `i` of the block it
/// names, each given a new block if zero.
fn fill_lv2_step(fs_inner: &mut ParchFSInner, inode: &PFSINode, ind2: BlockNo, i: usize, off2: usize)
    requires
        old(fs_inner).wf(),
        ind2.0 < old(fs_inner)@.blocks.len(),
        i < BLOCKNO_PER_BLK,
        off2 < BLOCKNO_PER_BLK * BLOCKNO_PER_BLK * BLK_SIZE,
        lv2_step(pstate(old(fs_inner)@, *inode), ind2.0 as int, i as int) is Some,
    ensures
        final(fs_inner).wf(),
        final(fs_inner).base_page() == old(fs_inner).base_page(),
            same_inodes(final(fs_inner)@, old(fs_inner)@),
        lv2_step(pstate(old(fs_inner)@, *inode), ind2.0 as int, i as int) == Some(
            pstate(final(fs_inner)@, *inode),
        ),
        final(fs_inner)@.blocks.len() == old(fs_inner)@.blocks.len(),
{
    ensure_entry_block(fs_inner, inode, ind2, i);
    let ghost c2 = pstate(fs_inner@, *inode);
    proof {
        fs_inner.lemma_wf();
    }
    let l = fs_inner.read_entry(ind2, i);
    let mut j: usize = 0;
    while j < BLOCKNO_PER_BLK
        invariant_except_break
            j == 0 ==> pstate(fs_inner@, *inode) == c2,
        invariant
            fs_inner.wf(),
            fs_inner.base_page() == old(fs_inner).base_page(),
            same_inodes(fs_inner@, old(fs_inner)@),
            i < BLOCKNO_PER_BLK,
            j <= BLOCKNO_PER_BLK,
            l.0 < c2.m.blocks.len(),
            fs_inner@.blocks.len() == c2.m.blocks.len(),
            c2.m.blocks.len() == old(fs_inner)@.blocks.len(),
            ensure_entry(c2, l.0 as int, i as int) is Some,
            j > 0 ==> Some(pstate(fs_inner@, *inode)) == ensure_entry(c2, l.0 as int, i as int),
            j > 0 ==> entry(fs_inner@, l.0 as int, i as int) != BAD_BLOCK,
        ensures
            Some(pstate(fs_inner@, *inode)) == ensure_entry(c2, l.0 as int, i as int),
        decreases BLOCKNO_PER_BLK - j,
    {
        proof {
            if j > 0 {
                assert(ensure_entry(pstate(fs_inner@, *inode), l.0 as int, i as int) == Some(pstate(fs_inner@, *inode)));
            }
        }
        let ghost before = pstate(fs_inner@, *inode);
        ensure_entry_block(fs_inner, inode, l, i);
        proof {
            if j > 0 {
                assert(pstate(fs_inner@, *inode) == before);
            }
        }
        let lv2_cap = i * BLOCKNO_PER_BLK * BLK_SIZE + j * BLK_SIZE;
        if lv2_cap > off2 {
            break;
        }
        j = j + 1;
    }
}


/// Does the step of `fill_lv2_step` for each of the first `k` entries of the
/// doubly indirect block `ind2`.
fn fill_lv2_blocks(fs_inner: &mut ParchFSInner, inode: &PFSINode, ind2: BlockNo, k: usize, off2: usize)
    requires
        old(fs_inner).wf(),
        ind2.0 < old(fs_inner)@.blocks.len(),
        k <= BLOCKNO_PER_BLK,
        off2 < BLOCKNO_PER_BLK * BLOCKNO_PER_BLK * BLK_SIZE,
        fill_lv2(pstate(old(fs_inner)@, *inode), ind2.0 as int, k as int) is Some,
    ensures
        final(fs_inner).wf(),
        final(fs_inner).base_page() == old(fs_inner).base_page(),
            same_inodes(final(fs_inner)@, old(fs_inner)@),
        Some(pstate(final(fs_inner)@, *inode)) == fill_lv2(
            pstate(old(fs_inner)@, *inode),
            ind2.0 as int,
            k as int,
        ),
{
    let ghost s0 = pstate(fs_inner@, *inode);
    let mut i: usize = 0;
    while i < k
        invariant
            fs_inner.wf(),
            fs_inner.base_page() == old(fs_inner).base_page(),
            same_inodes(fs_inner@, old(fs_inner)@),
            s0 == pstate(old(fs_inner)@, *inode),
            fs_inner@.blocks.len() == old(fs_inner)@.blocks.len(),
            ind2.0 < old(fs_inner)@.blocks.len(),
            k <= BLOCKNO_PER_BLK,
            off2 < BLOCKNO_PER_BLK * BLOCKNO_PER_BLK * BLK_SIZE,
            i <= k,
            fill_lv2(s0, ind2.0 as int, k as int) is Some,
            fill_lv2(s0, ind2.0 as int, i as int) == Some(pstate(fs_inner@, *inode)),
        decreases k - i,
    {
        proof {
            lemma_fill_lv2_mono(s0, ind2.0 as int, i + 1, k as int);
        }
        fill_lv2_step(fs_inner, inode, ind2, i, off2);
        proof {
            fs_inner.lemma_wf();
        }
        i = i + 1;
    }
}

impl PFSBase {
    /// The block that holds the byte at `offset` of the file whose inode is
    /// `inode`; when `create`, the missing blocks on the way are added and a
    /// file shorter than `offset` grows to it.
    pub fn get_blockno_locked(
        &self,
        offset: usize,
        create: bool,
        fs_inner: &mut ParchFSInner,
        inode: &mut PFSINode,
    ) -> (r: Result<BlockNo, ErrorNum>)
        requires
            old(fs_inner).wf(),
            !(blockno_spec(pstate(old(fs_inner)@, *old(inode)), offset as int, create).0 is Broken),
        ensures
            final(fs_inner).wf(),
            final(fs_inner).base_page() == old(fs_inner).base_page(),
            same_inodes(final(fs_inner)@, old(fs_inner)@),
            same_but_blocks(*final(inode), *old(inode)),
            pstate(final(fs_inner)@, *final(inode)) == blockno_spec(
                pstate(old(fs_inner)@, *old(inode)),
                offset as int,
                create,
            ).1,
            match blockno_spec(pstate(old(fs_inner)@, *old(inode)), offset as int, create).0 {
                Outcome::Block(b) => r == Ok::<BlockNo, ErrorNum>(BlockNo(b)),
                Outcome::Fail(e) => r == Err::<BlockNo, ErrorNum>(e),
                Outcome::Broken => false,
            },
    {
        proof {
            fs_inner.lemma_wf();
        }
        if (offset as u64) >= PFS_MAXCAP {
            return Err(ErrorNum::EOOR);
        }
        if create && offset > inode.f_size {
            inode.f_size = offset;
        } else if offset >= inode.f_size {
            return Err(ErrorNum::EOOR);
        }
        let ghost s0 = pstate(fs_inner@, *inode);
        proof {
            assert(direct_of(*inode) =~= direct_of(*old(inode)));
        }
        let kd: usize = if offset / BLK_SIZE + 1 < DIRECT_BLK_COUNT {
            offset / BLK_SIZE + 1
        } else {
            DIRECT_BLK_COUNT
        };
        if create {
            fill_direct_blocks(fs_inner, inode, kd);
        }
        let ghost s1 = pstate(fs_inner@, *inode);
        if offset < BLK_SIZE * DIRECT_BLK_COUNT {
            proof {
                assert(s1.direct[(offset / BLK_SIZE) as int] == inode.direct_blk_no@[(offset / BLK_SIZE) as int].0);
            }
            let res = inode.direct_blk_no[offset / BLK_SIZE];
            return Ok(res);
        }
        let off1 = offset - BLK_SIZE * DIRECT_BLK_COUNT;
        let ke: usize = if off1 / BLK_SIZE + 1 < BLOCKNO_PER_BLK {
            off1 / BLK_SIZE + 1
        } else {
            BLOCKNO_PER_BLK
        };
        if create {
            if inode.indirect_blk.0 == BAD_BLOCK {
                inode.indirect_blk = fs_inner.alloc_blk();
                proof {
                    assert(direct_of(*inode) =~= s1.direct);
                }
            }
            proof {
                fs_inner.lemma_wf();
            }
            fill_entry_blocks(fs_inner, inode, inode.indirect_blk, ke);
        }
        let ghost s3 = pstate(fs_inner@, *inode);
        proof {
            fs_inner.lemma_wf();
        }
        if off1 < BLK_SIZE * BLOCKNO_PER_BLK {
            let res = fs_inner.read_entry(inode.indirect_blk, off1 / BLK_SIZE);
            return Ok(res);
        }
        let off2 = off1 - BLK_SIZE * BLOCKNO_PER_BLK;
        let k2: usize = if off2 / (BLOCKNO_PER_BLK * BLK_SIZE) + 1 < BLOCKNO_PER_BLK {
            off2 / (BLOCKNO_PER_BLK * BLK_SIZE) + 1
        } else {
            BLOCKNO_PER_BLK
        };
        if create {
            if inode.indirect_blk2.0 == BAD_BLOCK {
                inode.indirect_blk2 = fs_inner.alloc_blk();
                proof {
                    assert(direct_of(*inode) =~= s3.direct);
                }
            }
            proof {
                fs_inner.lemma_wf();
            }
            fill_lv2_blocks(fs_inner, inode, inode.indirect_blk2, k2, off2);
        }
        proof {
            fs_inner.lemma_wf();
        }
        let blk_offset = off2 / BLK_SIZE;
        let lv1_blkno = fs_inner.read_entry(inode.indirect_blk2, blk_offset / BLOCKNO_PER_BLK);
        let lv2_blkno = fs_inner.read_entry(lv1_blkno, blk_offset % BLOCKNO_PER_BLK);
        Ok(lv2_blkno)
    }
}


/// Freeing the block `b` can go ahead: it is taken, not as executable
/// memory, and the superblock can count one free block more.
pub open spec fn free_ok(m: FsModel, b: int) -> bool {
    &&& m.pages.fs[b]
    &&& !m.pages.mm[b]
    &&& m.sb.free_block < u64::MAX
}

/// The memory after freeing the block `b`, zeroed.
pub open spec fn free_model(m: FsModel, b: int) -> FsModel {
    FsModel {
        pages: crate::mem::page_allocator::AllocModel {
            fs: m.pages.fs.update(b, false),
            mm: m.pages.mm,
        },
        blocks: m.blocks.update(b, crate::fs::parch_fs::store::zero_block()),
        sb: super::types::SuperBlock { free_block: (m.sb.free_block + 1) as u64, ..m.sb },
        ..m
    }
}

/// Frees the block `b` of level `lvl` (0: a data block; 1: a block of block
/// numbers; 2: a block of such blocks) and all below it.  `None` when a
/// block on the way lies outside memory or cannot be freed.
pub open spec fn free_tree(m: FsModel, b: int, lvl: nat) -> Option<FsModel>
    decreases lvl, 1int, 0int,
{
    if b == BAD_BLOCK {
        Some(m)
    } else if b < 0 || b >= m.blocks.len() {
        None
    } else {
        let m1o = if lvl >= 1 {
            free_entries(m, b, (lvl - 1) as nat, 0, BLOCKNO_PER_BLK as int)
        } else {
            Some(m)
        };
        match m1o {
            None => None,
            Some(m1) => if free_ok(m1, b) {
                Some(free_model(m1, b))
            } else {
                None
            },
        }
    }
}

/// Frees, for each entry `i` from `from` up to `k` of the block `b`, the
/// block of level `lvl` it names and all below it, and zeroes the entry.
pub open spec fn free_entries(m: FsModel, b: int, lvl: nat, from: int, k: int) -> Option<FsModel>
    decreases lvl + 1, 0int, k - from,
{
    if k <= from {
        Some(m)
    } else {
        match free_entries(m, b, lvl, from, k - 1) {
            None => None,
            Some(m1) => match free_tree(m1, entry(m1, b, k - 1) as int, lvl) {
                None => None,
                Some(m2) => Some(set_entry(m2, b, k - 1, 0)),
            },
        }
    }
}

proof fn lemma_free_entries_mono(m: FsModel, b: int, lvl: nat, from: int, j: int, k: int)
    requires
        from <= j <= k,
        free_entries(m, b, lvl, from, k) is Some,
    ensures
        free_entries(m, b, lvl, from, j) is Some,
    decreases k - j,
{
    if j < k {
        lemma_free_entries_mono(m, b, lvl, from, j + 1, k);
    }
}

/// Frees the data blocks that the direct block numbers `from` up to `k` name,
/// and zeroes those numbers.
pub open spec fn free_direct(s: PState, from: int, k: int) -> Option<PState>
    decreases k - from,
{
    if k <= from {
        Some(s)
    } else {
        match free_direct(s, from, k - 1) {
            None => None,
            Some(s1) => match free_tree(s1.m, s1.direct[k - 1] as int, 0) {
                None => None,
                Some(m2) => Some(PState { m: m2, direct: s1.direct.update(k - 1, 0), ..s1 }),
            },
        }
    }
}

proof fn lemma_free_direct_mono(s: PState, from: int, j: int, k: int)
    requires
        from <= j <= k,
        free_direct(s, from, k) is Some,
    ensures
        free_direct(s, from, j) is Some,
    decreases k - j,
{
    if j < k {
        lemma_free_direct_mono(s, from, j + 1, k);
    }
}

/// Freeing keeps the shape of the memory.
proof fn lemma_free_wf(m: FsModel, b: int, lvl: nat)
    requires
        fs_wf(m),
    ensures
        free_tree(m, b, lvl) matches Some(m2) ==> fs_wf(m2) && m2.blocks.len() == m.blocks.len(),
    decreases lvl, 1int, 0int,
{
    if b != BAD_BLOCK && 0 <= b < m.blocks.len() {
        if lvl >= 1 {
            lemma_free_entries_wf(m, b, (lvl - 1) as nat, 0, BLOCKNO_PER_BLK as int);
        }
        let m1o = if lvl >= 1 {
            free_entries(m, b, (lvl - 1) as nat, 0, BLOCKNO_PER_BLK as int)
        } else {
            Some(m)
        };
        if let Some(m1) = m1o {
            if free_ok(m1, b) {
                let m2 = free_model(m1, b);
                assert forall|i: int| 0 <= i < m2.blocks.len() implies (#[trigger] m2.blocks[i]).len() == BLK_SIZE by {
                    if i != b {
                        assert(m2.blocks[i] == m1.blocks[i]);
                    }
                }
            }
        }
    }
}

proof fn lemma_free_entries_wf(m: FsModel, b: int, lvl: nat, from: int, k: int)
    requires
        fs_wf(m),
        0 <= b < m.blocks.len(),
        0 <= from,
        k <= BLOCKNO_PER_BLK,
    ensures
        free_entries(m, b, lvl, from, k) matches Some(m2) ==> fs_wf(m2) && m2.blocks.len() == m.blocks.len(),
    decreases lvl + 1, 0int, k - from,
{
    if k > from {
        lemma_free_entries_wf(m, b, lvl, from, k - 1);
        if let Some(m1) = free_entries(m, b, lvl, from, k - 1) {
            lemma_free_wf(m1, entry(m1, b, k - 1) as int, lvl);
            if let Some(m2) = free_tree(m1, entry(m1, b, k - 1) as int, lvl) {
                let m3 = set_entry(m2, b, k - 1, 0);
                crate::fs::parch_fs::store::lemma_le32_roundtrip(m2.blocks[b], 4 * (k - 1), 0);
                assert forall|i: int| 0 <= i < m3.blocks.len() implies (#[trigger] m3.blocks[i]).len() == BLK_SIZE by {
                    if i != b {
                        assert(m3.blocks[i] == m2.blocks[i]);
                    }
                }
            }
        }
    }
}

impl PFSBase {
    /// Frees the block `block_no` of level `lvl` (0: a data block; 1: a block
    /// of block numbers; 2: a block of such blocks) and every block below it;
    /// the caller then sets the number that named it to zero.
    pub fn free_blockno(&self, block_no: BlockNo, lvl: usize, fs_inner: &mut ParchFSInner, inode: &PFSINode)
        requires
            old(fs_inner).wf(),
            lvl <= 2,
            free_tree(old(fs_inner)@, block_no.0 as int, lvl as nat) is Some,
        ensures
            final(fs_inner).wf(),
            final(fs_inner).base_page() == old(fs_inner).base_page(),
            same_inodes(final(fs_inner)@, old(fs_inner)@),
            Some(final(fs_inner)@) == free_tree(old(fs_inner)@, block_no.0 as int, lvl as nat),
        decreases lvl,
    {
        if block_no.0 == BAD_BLOCK {
            return;
        }
        proof {
            fs_inner.lemma_wf();
        }
        if lvl >= 1 {
            let ghost m0 = fs_inner@;
            let mut i: usize = 0;
            while i < BLOCKNO_PER_BLK
                invariant
                    fs_inner.wf(),
                    fs_inner.base_page() == old(fs_inner).base_page(),
                    same_inodes(fs_inner@, old(fs_inner)@),
                same_inodes(fs_inner@, old(fs_inner)@),
            same_inodes(fs_inner@, old(fs_inner)@),
                    1 <= lvl <= 2,
                    m0 == old(fs_inner)@,
                    0 < block_no.0 < m0.blocks.len(),
                    fs_inner@.blocks.len() == m0.blocks.len(),
                    i <= BLOCKNO_PER_BLK,
                    free_entries(m0, block_no.0 as int, (lvl - 1) as nat, 0, BLOCKNO_PER_BLK as int) is Some,
                    free_entries(m0, block_no.0 as int, (lvl - 1) as nat, 0, i as int) == Some(fs_inner@),
                decreases BLOCKNO_PER_BLK - i,
            {
                proof {
                    lemma_free_entries_mono(m0, block_no.0 as int, (lvl - 1) as nat, 0, i + 1, BLOCKNO_PER_BLK as int);
                }
                let child = fs_inner.read_entry(block_no, i);
                proof {
                    fs_inner.lemma_wf();
                    lemma_free_wf(fs_inner@, child.0 as int, (lvl - 1) as nat);
                }
                self.free_blockno(child, lvl - 1, fs_inner, inode);
                proof {
                    fs_inner.lemma_wf();
                }
                fs_inner.write_entry(block_no, i, BlockNo(BAD_BLOCK));
                i = i + 1;
            }
        }
        fs_inner.free_blk(block_no);
    }
}


/// Frees what the file keeps from block `ss` on, the block numbers of its
/// inode being as in `s`: with `ss` within the direct and indirect blocks,
/// the whole doubly indirect tree, and then either the indirect tree and the
/// direct blocks from `ss` on, or the entries of the indirect block from `ss`
/// on; beyond them, the entries of the doubly indirect block past the one that
/// holds block `ss`, and the entries of that one from `ss` on.  `None` when a
/// block on the way lies outside memory, cannot be freed, or is missing where
/// entries are to be freed.
pub open spec fn shrink(s: PState, ss: int) -> Option<PState> {
    let len = s.m.blocks.len();
    let d = DIRECT_BLK_COUNT as int;
    let n = BLOCKNO_PER_BLK as int;
    if ss <= d + n {
        match free_tree(s.m, s.indirect2 as int, 2) {
            None => None,
            Some(m1) => {
                let s1 = PState { m: m1, indirect2: 0, ..s };
                if ss <= d {
                    match free_tree(s1.m, s1.indirect as int, 1) {
                        None => None,
                        Some(m2) => free_direct(PState { m: m2, indirect: 0, ..s1 }, ss, d),
                    }
                } else if s1.indirect == BAD_BLOCK || s1.indirect >= len {
                    None
                } else {
                    match free_entries(s1.m, s1.indirect as int, 0, ss - d, n) {
                        None => None,
                        Some(m2) => Some(PState { m: m2, ..s1 }),
                    }
                }
            },
        }
    } else if s.indirect2 == BAD_BLOCK || s.indirect2 >= len {
        None
    } else {
        let start = ss - d - n;
        let lv2_start = (start - 1) / n + 1;
        match free_entries(s.m, s.indirect2 as int, 1, lv2_start, n) {
            None => None,
            Some(m1) => {
                let lv1_start = start % n;
                if lv1_start != 0 {
                    let l = entry(m1, s.indirect2 as int, lv2_start - 1) as int;
                    if lv2_start > n {
                        None
                    } else 
if l == BAD_BLOCK || l >= len {
                        None
                    } else {
                        match free_entries(m1, l, 0, lv1_start, n) {
                            None => None,
                            Some(m2) => Some(PState { m: m2, ..s }),
                        }
                    }
                } else {
                    Some(PState { m: m1, ..s })
                }
            },
        }
    }
}

/// Resizing the file to `new_size`: growing it adds the block of its last
/// byte as `get_blockno_locked` does; shrinking to zero is refused; shrinking
/// otherwise frees the blocks past the new size.  `None` when the file
/// system is malformed on the way.
pub open spec fn resize_spec(s: PState, new_size: int) -> (Option<Result<(), ErrorNum>>, PState) {
    if s.f_size < new_size {
        let (o, s2) = blockno_spec(s, new_size, true);
        (
            match o {
                Outcome::Block(_) => Some(Ok(())),
                Outcome::Fail(e) => Some(Err(e)),
                Outcome::Broken => None,
            },
            s2,
        )
    } else if s.f_size == new_size {
        (Some(Ok(())), s)
    } else if new_size == 0 {
        (Some(Err(ErrorNum::EEMPTY)), s)
    } else {
        match shrink(s, (new_size - 1) / BLK_SIZE as int + 1) {
            None => (None, s),
            Some(s2) => (Some(Ok(())), PState { f_size: new_size, ..s2 }),
        }
    }
}

impl PFSBase {
    /// Frees, for each entry `i` from `from` up to `to` of the block `b`, the
    /// block of level `lvl` it names and all below it, and zeroes the entry.
    fn free_entry_range(
        &self,
        fs_inner: &mut ParchFSInner,
        inode: &PFSINode,
        b: BlockNo,
        lvl: usize,
        from: usize,
        to: usize,
    )
        requires
            old(fs_inner).wf(),
            lvl <= 1,
            0 < b.0 < old(fs_inner)@.blocks.len(),
            from <= to <= BLOCKNO_PER_BLK,
            free_entries(old(fs_inner)@, b.0 as int, lvl as nat, from as int, to as int) is Some,
        ensures
            final(fs_inner).wf(),
            final(fs_inner).base_page() == old(fs_inner).base_page(),
            same_inodes(final(fs_inner)@, old(fs_inner)@),
            Some(final(fs_inner)@) == free_entries(old(fs_inner)@, b.0 as int, lvl as nat, from as int, to as int),
            final(fs_inner)@.blocks.len() == old(fs_inner)@.blocks.len(),
    {
        let ghost m0 = fs_inner@;
        let mut i: usize = from;
        proof {
            fs_inner.lemma_wf();
        }
        while i < to
            invariant
                fs_inner.wf(),
                fs_inner.base_page() == old(fs_inner).base_page(),
                same_inodes(fs_inner@, old(fs_inner)@),
            same_inodes(fs_inner@, old(fs_inner)@),
                lvl <= 1,
                m0 == old(fs_inner)@,
                0 < b.0 < m0.blocks.len(),
                fs_inner@.blocks.len() == m0.blocks.len(),
                from <= i <= to <= BLOCKNO_PER_BLK,
                free_entries(m0, b.0 as int, lvl as nat, from as int, to as int) is Some,
                free_entries(m0, b.0 as int, lvl as nat, from as int, i as int) == Some(fs_inner@),
            decreases to - i,
        {
            proof {
                lemma_free_entries_mono(m0, b.0 as int, lvl as nat, from as int, i + 1, to as int);
                fs_inner.lemma_wf();
            }
            let child = fs_inner.read_entry(b, i);
            proof {
                lemma_free_wf(fs_inner@, child.0 as int, lvl as nat);
            }
            self.free_blockno(child, lvl, fs_inner, inode);
            proof {
                fs_inner.lemma_wf();
            }
            fs_inner.write_entry(b, i, BlockNo(BAD_BLOCK));
            i = i + 1;
        }
    }

    /// Frees the data blocks that the direct block numbers `from` up to
    /// `DIRECT_BLK_COUNT` of `inode` name, and zeroes those numbers.
    fn free_direct_range(&self, fs_inner: &mut ParchFSInner, inode: &mut PFSINode, from: usize)
        requires
            old(fs_inner).wf(),
            from <= DIRECT_BLK_COUNT,
            free_direct(pstate(old(fs_inner)@, *old(inode)), from as int, DIRECT_BLK_COUNT as int) is Some,
        ensures
            final(fs_inner).wf(),
            final(fs_inner).base_page() == old(fs_inner).base_page(),
            same_inodes(final(fs_inner)@, old(fs_inner)@),
            same_but_blocks(*final(inode), *old(inode)),
            Some(pstate(final(fs_inner)@, *final(inode))) == free_direct(
                pstate(old(fs_inner)@, *old(inode)),
                from as int,
                DIRECT_BLK_COUNT as int,
            ),
    {
        let ghost s0 = pstate(fs_inner@, *inode);
        let mut i: usize = from;
        while i < DIRECT_BLK_COUNT
            invariant
                fs_inner.wf(),
                fs_inner.base_page() == old(fs_inner).base_page(),
                same_inodes(fs_inner@, old(fs_inner)@),
            same_inodes(fs_inner@, old(fs_inner)@),
                same_but_blocks(*inode, *old(inode)),
                s0 == pstate(old(fs_inner)@, *old(inode)),
                from <= i <= DIRECT_BLK_COUNT,
                free_direct(s0, from as int, DIRECT_BLK_COUNT as int) is Some,
                free_direct(s0, from as int, i as int) == Some(pstate(fs_inner@, *inode)),
            decreases DIRECT_BLK_COUNT - i,
        {
            proof {
                lemma_free_direct_mono(s0, from as int, i + 1, DIRECT_BLK_COUNT as int);
                assert(pstate(fs_inner@, *inode).direct[i as int] == inode.direct_blk_no@[i as int].0);
            }
            self.free_blockno(inode.direct_blk_no[i], 0, fs_inner, inode);
            let ghost before = *inode;
            inode.direct_blk_no[i] = BlockNo(BAD_BLOCK);
            proof {
                assert(direct_of(*inode) =~= direct_of(before).update(i as int, 0));
            }
            i = i + 1;
        }
    }

    /// Makes sure the byte at `offset` has a block, growing the file to it.
    pub fn expand_locked(&self, offset: usize, fs_inner: &mut ParchFSInner, inode: &mut PFSINode) -> (r: Result<(), ErrorNum>)
        requires
            old(fs_inner).wf(),
            !(blockno_spec(pstate(old(fs_inner)@, *old(inode)), offset as int, true).0 is Broken),
        ensures
            final(fs_inner).wf(),
            final(fs_inner).base_page() == old(fs_inner).base_page(),
            same_inodes(final(fs_inner)@, old(fs_inner)@),
            same_but_blocks(*final(inode), *old(inode)),
            pstate(final(fs_inner)@, *final(inode)) == blockno_spec(
                pstate(old(fs_inner)@, *old(inode)),
                offset as int,
                true,
            ).1,
            match blockno_spec(pstate(old(fs_inner)@, *old(inode)), offset as int, true).0 {
                Outcome::Block(_) => r == Ok::<(), ErrorNum>(()),
                Outcome::Fail(e) => r == Err::<(), ErrorNum>(e),
                Outcome::Broken => false,
            },
    {
        match self.get_blockno_locked(offset, true, fs_inner, inode) {
            Ok(_) => Ok(()),
            Err(e) => Err(e),
        }
    }

    /// Resizes the file of `inode` to `new_size`.
    pub fn resize_locked(&self, new_size: usize, fs_inner: &mut ParchFSInner, inode: &mut PFSINode) -> (r: Result<(), ErrorNum>)
        requires
            old(fs_inner).wf(),
            resize_spec(pstate(old(fs_inner)@, *old(inode)), new_size as int).0 is Some,
        ensures
            final(fs_inner).wf(),
            final(fs_inner).base_page() == old(fs_inner).base_page(),
            same_inodes(final(fs_inner)@, old(fs_inner)@),
            same_but_blocks(*final(inode), *old(inode)),
            Some(r) == resize_spec(pstate(old(fs_inner)@, *old(inode)), new_size as int).0,
            pstate(final(fs_inner)@, *final(inode)) == resize_spec(
                pstate(old(fs_inner)@, *old(inode)),
                new_size as int,
            ).1,
    {
        if inode.f_size < new_size {
            return self.expand_locked(new_size, fs_inner, inode);
        }
        if inode.f_size == new_size {
            return Ok(());
        }
        if new_size == 0 {
            return Err(ErrorNum::EEMPTY);
        }
        let ghost s = pstate(fs_inner@, *inode);
        proof {
            fs_inner.lemma_wf();
        }
        let shrink_start = (new_size - 1) / BLK_SIZE + 1;
        if shrink_start <= DIRECT_BLK_COUNT + BLOCKNO_PER_BLK {
            proof {
                lemma_free_wf(fs_inner@, inode.indirect_blk2.0 as int, 2);
            }
            self.free_blockno(inode.indirect_blk2, 2, fs_inner, inode);
            let ghost before = *inode;
            inode.indirect_blk2 = BlockNo(BAD_BLOCK);
            proof {
                assert(direct_of(*inode) =~= direct_of(before));
                fs_inner.lemma_wf();
            }
            if shrink_start <= DIRECT_BLK_COUNT {
                proof {
                    lemma_free_wf(fs_inner@, inode.indirect_blk.0 as int, 1);
                }
                self.free_blockno(inode.indirect_blk, 1, fs_inner, inode);
                let ghost before2 = *inode;
                inode.indirect_blk = BlockNo(BAD_BLOCK);
                proof {
                    assert(direct_of(*inode) =~= direct_of(before2));
                }
                self.free_direct_range(fs_inner, inode, shrink_start);
            } else {
                let start = shrink_start - DIRECT_BLK_COUNT;
                self.free_entry_range(fs_inner, inode, inode.indirect_blk, 0, start, BLOCKNO_PER_BLK);
            }
        } else {
            let start = shrink_start - DIRECT_BLK_COUNT - BLOCKNO_PER_BLK;
            let lv2_start = (start - 1) / BLOCKNO_PER_BLK + 1;
            let ind2 = inode.indirect_blk2;
            if lv2_start < BLOCKNO_PER_BLK {
                self.free_entry_range(fs_inner, inode, ind2, 1, lv2_start, BLOCKNO_PER_BLK);
            }
            let lv1_start = start % BLOCKNO_PER_BLK;
            if lv1_start != 0 {
                proof {
                    fs_inner.lemma_wf();
                }
                let l = fs_inner.read_entry(ind2, lv2_start - 1);
                self.free_entry_range(fs_inner, inode, l, 0, lv1_start, BLOCKNO_PER_BLK);
            }
        }
        let ghost before3 = *inode;
        inode.f_size = new_size;
        proof {
            assert(direct_of(*inode) =~= direct_of(before3));
        }
        Ok(())
    }
}


/// Where the piece of a copy that starts at file position `off` ends, within
/// its block, the copy ending at `target`: the end of the block, or the
/// position of `target` in its block when `target` lies within this block.
pub open spec fn chunk_size(off: int, target: int) -> int {
    let start = off % BLK_SIZE as int;
    let end = if target > off + (BLK_SIZE - start) {
        BLK_SIZE as int
    } else {
        target % BLK_SIZE as int
    };
    end - start
}

/// The bytes of the file from `off` up to `target`, block by block.  `None`
/// when a piece would be empty (a copy ending exactly at a block boundary) or
/// the file system is malformed on the way.
#[verifier::opaque]
pub open spec fn read_chunks(s: PState, off: int, target: int) -> Option<Result<Seq<u8>, ErrorNum>>
    decreases target - off,
{
    if off >= target {
        Some(Ok(seq![]))
    } else {
        let start = off % BLK_SIZE as int;
        let cpy = chunk_size(off, target);
        if cpy <= 0 {
            None
        } else {
            match blockno_spec(s, off, false).0 {
                Outcome::Broken => None,
                Outcome::Fail(e) => Some(Err(e)),
                Outcome::Block(b) => if b >= s.m.blocks.len() {
                    None
                } else {
                    match read_chunks(s, off + cpy, target) {
                        None => None,
                        Some(Err(e)) => Some(Err(e)),
                        Some(Ok(rest)) => Some(Ok(s.m.blocks[b as int].subrange(start, start + cpy) + rest)),
                    }
                },
            }
        }
    }
}

/// Writes `data[ptr..]` into the file from `off` up to `target`, block by
/// block: the error that stopped it, if any, and the state after.  `None`
/// when a piece would be empty or the file system is malformed on the way.
#[verifier::opaque]
pub open spec fn write_chunks(s: PState, data: Seq<u8>, off: int, ptr: int, target: int) -> Option<(Option<ErrorNum>, PState)>
    decreases target - off,
{
    if off >= target {
        Some((None, s))
    } else {
        let start = off % BLK_SIZE as int;
        let cpy = chunk_size(off, target);
        if cpy <= 0 {
            None
        } else {
            match blockno_spec(s, off, false).0 {
                Outcome::Broken => None,
                Outcome::Fail(e) => Some((Some(e), s)),
                Outcome::Block(b) => if b >= s.m.blocks.len() {
                    None
                } else {
                    let blk = s.m.blocks[b as int];
                    let nb = blk.subrange(0, start) + data.subrange(ptr, ptr + cpy) + blk.subrange(start + cpy, BLK_SIZE as int);
                    write_chunks(
                        PState { m: FsModel { blocks: s.m.blocks.update(b as int, nb), ..s.m }, ..s },
                        data,
                        off + cpy,
                        ptr + cpy,
                        target,
                    )
                },
            }
        }
    }
}

/// The number of bytes a read of `length` bytes from `off` gets from a file
/// of `f_size` bytes.
pub open spec fn read_len(f_size: int, off: int, length: int) -> int {
    if f_size <= off + length {
        if off > f_size {
            0
        } else {
            f_size - off
        }
    } else {
        length
    }
}

/// The memory with the inode `no` replaced by `ino`.
pub open spec fn with_inode(m: FsModel, no: int, ino: PFSINode) -> FsModel {
    FsModel { inodes: m.inodes.update(no, ino), ..m }
}

/// What a read or write of a file gives: bytes, or, for a file mapped into
/// memory, the address and length that the bytes are to be copied at.
pub enum FileBytes {
    Data(Vec<u8>),
    AtAddress(VirtAddr, usize),
}

/// A piece of a copy is never longer than what is left, and when it is not
/// empty it ends within the block it starts in.
proof fn lemma_chunk(off: int, target: int)
    requires
        0 <= off < target,
    ensures
        chunk_size(off, target) <= target - off,
        chunk_size(off, target) > 0 ==> off % BLK_SIZE as int + chunk_size(off, target) <= BLK_SIZE,
{
    let start = off % 4096;
    assert(off == (off / 4096) * 4096 + start) by (nonlinear_arith)
        requires
            start == off % 4096,
    ;
    if target <= off + (4096 - start) {
        let base = off - start;
        assert(target % 4096 == target - base || target - base == 4096) by (nonlinear_arith)
            requires
                base % 4096 == 0,
                base < target <= base + 4096,
        {
            assert(base == (base / 4096) * 4096);
            if target - base < 4096 {
                assert(target == (base / 4096) * 4096 + (target - base));
            }
        }
        assert(base % 4096 == 0) by (nonlinear_arith)
            requires
                off == (off / 4096) * 4096 + start,
                base == off - start,
        ;
    }
}

/// What a read gives, as a model: bytes, or the address and length to copy
/// them from for a file mapped into memory.
pub enum ReadOut {
    Bytes(Seq<u8>),
    At(int, int),
}

/// The model of what a read returned.
pub open spec fn read_out(r: Result<FileBytes, ErrorNum>) -> Result<ReadOut, ErrorNum> {
    match r {
        Ok(FileBytes::Data(v)) => Ok(ReadOut::Bytes(v@)),
        Ok(FileBytes::AtAddress(a, l)) => Ok(ReadOut::At(a.0 as int, l as int)),
        Err(e) => Err(e),
    }
}

/// Reading up to `length` bytes from `off` of the file with inode `no` in
/// the memory `m` at time `now`: what it gives, and the memory after (the
/// inode's access time stamped).  `None` when the file system is malformed on
/// the way or a piece of the copy would be empty.
pub open spec fn read_spec(
    m: FsModel,
    no: int,
    mmap: Option<VirtPageNum>,
    length: int,
    off: int,
    now: usize,
) -> Option<(Result<ReadOut, ErrorNum>, FsModel)> {
    if !m.inode_bits[no] {
        Some((Err(ErrorNum::ENOENT), m))
    } else {
        let ino1 = PFSINode { access_time: now, ..m.inodes[no] };
        let m1 = with_inode(m, no, ino1);
        let len = read_len(ino1.f_size as int, off, length);
        if len == 0 {
            Some((Ok(ReadOut::Bytes(seq![])), m1))
        } else {
            match mmap {
                Some(vpn) => Some((Ok(ReadOut::At(vpn.0 * 4096 + off, len)), m1)),
                None => match read_chunks(pstate(m1, ino1), off, off + len) {
                    None => None,
                    Some(Ok(b)) => Some((Ok(ReadOut::Bytes(b)), m1)),
                    Some(Err(e)) => Some((Err(e), m1)),
                },
            }
        }
    }
}

/// The bytes a read gives are as many as it was to copy.
pub proof fn lemma_read_chunks_len(s: PState, off: int, target: int)
    requires
        fs_wf(s.m),
        0 <= off <= target,
        read_chunks(s, off, target) matches Some(Ok(_)),
    ensures
        read_chunks(s, off, target) matches Some(Ok(b)) && b.len() == target - off,
    decreases target - off,
{
    reveal(read_chunks);
    if off < target {
        let cpy = chunk_size(off, target);
        lemma_chunk(off, target);
        lemma_read_chunks_len(s, off + cpy, target);
    }
}

/// A read gives at most `length` bytes, and the inode stays in use.
pub proof fn lemma_read_len(m: FsModel, no: int, mmap: Option<VirtPageNum>, length: int, off: int, now: usize)
    requires
        fs_wf(m),
        0 <= no < m.inodes.len(),
        0 <= length,
        0 <= off,
        read_spec(m, no, mmap, length, off, now) is Some,
    ensures
        match read_spec(m, no, mmap, length, off, now) {
            Some((Ok(ReadOut::Bytes(b)), _)) => b.len() <= length,
            Some((Ok(ReadOut::At(_, l)), _)) => l <= length,
            _ => true,
        },
{
    if m.inode_bits[no] {
        let ino1 = PFSINode { access_time: now, ..m.inodes[no] };
        let m1 = with_inode(m, no, ino1);
        let len = read_len(ino1.f_size as int, off, length);
        if len > 0 && mmap is None && read_chunks(pstate(m1, ino1), off, off + len) matches Some(Ok(_)) {
            assert(fs_wf(m1));
            lemma_read_chunks_len(pstate(m1, ino1), off, off + len);
        }
    }
}

/// The inode with the fields of `base` and the block numbers and size of `s`.
pub open spec fn rebuilt(base: PFSINode, s: PState) -> PFSINode {
    choose|i: PFSINode| same_but_blocks(i, base) && pstate(s.m, i) == s
}

/// Writing `data` from `off` into the file with inode `no` in the memory
/// `m` at time `now`: what it gives (for a file mapped into memory, the
/// address to copy to), and the memory after.  `None` when the file system
/// is malformed on the way or a piece of the copy would be empty.
pub open spec fn write_spec(
    m: FsModel,
    no: int,
    mmap: Option<VirtPageNum>,
    data: Seq<u8>,
    off: int,
    now: usize,
) -> Option<(Result<Option<int>, ErrorNum>, FsModel)> {
    if data.len() == 0 {
        Some((Ok(None), m))
    } else if !m.inode_bits[no] {
        Some((Err(ErrorNum::ENOENT), m))
    } else {
        let ino1 = PFSINode { access_time: now, change_time: now, ..m.inodes[no] };
        let m1 = with_inode(m, no, ino1);
        let target = off + data.len();
        let (o, s2) = grown(m1, ino1, target);
        let ino2 = rebuilt(ino1, s2);
        match o {
            Outcome::Broken => None,
            Outcome::Fail(e) => Some((Err(e), with_inode(s2.m, no, ino2))),
            Outcome::Block(_) => match mmap {
                Some(vpn) => Some((Ok(Some(vpn.0 * 4096 + off)), with_inode(s2.m, no, ino2))),
                None => match write_chunks(s2, data, off, 0, target) {
                    None => None,
                    Some((Some(e), s3)) => Some((Err(e), with_inode(s3.m, no, ino2))),
                    Some((None, s3)) => Some((Ok(None), with_inode(s3.m, no, ino2))),
                },
            },
        }
    }
}

/// The model of what a write returned.
pub open spec fn write_out(r: Result<Option<VirtAddr>, ErrorNum>) -> Result<Option<int>, ErrorNum> {
    match r {
        Ok(Some(a)) => Ok(Some(a.0 as int)),
        Ok(None) => Ok(None),
        Err(e) => Err(e),
    }
}

/// An inode is fixed by its block numbers, its size and the rest of its fields.
pub proof fn lemma_inode_eq(m: FsModel, a: PFSINode, b: PFSINode)
    requires
        pstate(m, a) == pstate(m, b),
        same_but_blocks(a, b),
    ensures
        a == b,
{
    assert forall|i: int| 0 <= i < 16 implies a.direct_blk_no@[i] == b.direct_blk_no@[i] by {
        assert(direct_of(a)[i] == direct_of(b)[i]);
    }
    assert(a.direct_blk_no =~= b.direct_blk_no);
}

/// The inode that `rebuilt` picks is the one with those fields and block numbers.
pub proof fn lemma_rebuilt(base: PFSINode, s: PState, i: PFSINode)
    requires
        same_but_blocks(i, base),
        pstate(s.m, i) == s,
    ensures
        rebuilt(base, s) == i,
{
    let r = rebuilt(base, s);
    assert(same_but_blocks(r, base) && pstate(s.m, r) == s);
    lemma_inode_eq(s.m, r, i);
}

impl PFSBase {
    /// The bytes of the file from `offset` up to the end of its block or to
    /// `target`, whichever comes first, and how many they are.
    fn read_piece(&self, fs_inner: &mut ParchFSInner, inode: &mut PFSINode, offset: usize, target: usize) -> (r: Result<(Vec<u8>, usize), ErrorNum>)
        requires
            old(fs_inner).wf(),
            offset < target,
            read_chunks(pstate(old(fs_inner)@, *old(inode)), offset as int, target as int) is Some,
        ensures
            final(fs_inner).wf(),
            final(fs_inner).base_page() == old(fs_inner).base_page(),
            same_inodes(final(fs_inner)@, old(fs_inner)@),
            final(fs_inner)@ == old(fs_inner)@,
            *final(inode) == *old(inode),
            match r {
                Err(e) => read_chunks(pstate(old(fs_inner)@, *old(inode)), offset as int, target as int)
                    == Some(Err::<Seq<u8>, ErrorNum>(e)),
                Ok((v, n)) => {
                    &&& 0 < n
                    &&& offset + n <= target
                    &&& read_chunks(pstate(old(fs_inner)@, *old(inode)), offset as int, target as int)
                        == match read_chunks(pstate(old(fs_inner)@, *old(inode)), offset + n, target as int) {
                        Some(Ok(rest)) => Some(Ok(v@ + rest)),
                        other => other,
                    }
                },
            },
    {
        proof {
            lemma_chunk(offset as int, target as int);
            fs_inner.lemma_wf();
            reveal(read_chunks);
        }
        let ghost ino0 = *inode;
        let blk = match self.get_blockno_locked(offset, false, fs_inner, inode) {
            Ok(b) => b,
            Err(e) => {
                proof {
                    lemma_inode_eq(fs_inner@, *inode, ino0);
                }
                return Err(e);
            },
        };
        proof {
            lemma_inode_eq(fs_inner@, *inode, ino0);
        }
        let cpy_start = offset % BLK_SIZE;
        let cpy_end = if target - offset > BLK_SIZE - cpy_start {
            BLK_SIZE
        } else {
            target % BLK_SIZE
        };
        let cpy_size = cpy_end - cpy_start;
        proof {
            fs_inner.lemma_wf();
        }
        let piece = fs_inner.read_bytes(blk, cpy_start, cpy_size);
        Ok((piece, cpy_size))
    }

    /// Reads up to `length` bytes of the file from `offset` on, cut at its
    /// end; the read stamps the inode's access time with `now`.  A file
    /// mapped into memory gives the address to copy from instead.
    pub fn read(&self, length: usize, offset: crate::fs::types::Cursor, fs_inner: &mut ParchFSInner, now: usize) -> (r: Result<FileBytes, ErrorNum>)
        requires
            old(fs_inner).wf(),
            self.inode_no.0 < old(fs_inner)@.inodes.len(),
            offset.0 + length <= usize::MAX,
            old(fs_inner)@.inode_bits[self.inode_no.0 as int] ==> {
                let no = self.inode_no.0 as int;
                let ino1 = PFSINode { access_time: now, ..old(fs_inner)@.inodes[no] };
                let len = read_len(ino1.f_size as int, offset.0 as int, length as int);
                &&& len > 0 && self.mmap_start is None ==> read_chunks(
                    pstate(with_inode(old(fs_inner)@, no, ino1), ino1),
                    offset.0 as int,
                    offset.0 + len,
                ) is Some
                &&& len > 0 && self.mmap_start is Some ==> ((self.mmap_start->0).0 * 4096 + offset.0 <= usize::MAX)
            },
        ensures
            final(fs_inner).wf(),
            final(fs_inner).base_page() == old(fs_inner).base_page(),
            final(fs_inner)@.inode_bits == old(fs_inner)@.inode_bits,
            final(fs_inner)@.inodes.len() == old(fs_inner)@.inodes.len(),
            Some((read_out(r), final(fs_inner)@)) == read_spec(
                old(fs_inner)@,
                self.inode_no.0 as int,
                self.mmap_start,
                length as int,
                offset.0 as int,
                now,
            ),
            !old(fs_inner)@.inode_bits[self.inode_no.0 as int] ==> r == Err::<FileBytes, ErrorNum>(ErrorNum::ENOENT)
                && final(fs_inner)@ == old(fs_inner)@,
            old(fs_inner)@.inode_bits[self.inode_no.0 as int] ==> {
                let no = self.inode_no.0 as int;
                let ino1 = PFSINode { access_time: now, ..old(fs_inner)@.inodes[no] };
                let m1 = with_inode(old(fs_inner)@, no, ino1);
                let len = read_len(ino1.f_size as int, offset.0 as int, length as int);
                &&& final(fs_inner)@ == m1
                &&& len == 0 ==> (r matches Ok(FileBytes::Data(v)) && v@.len() == 0)
                &&& len > 0 && self.mmap_start is Some ==> (r matches Ok(FileBytes::AtAddress(a, l)) && a.0 == (self.mmap_start->0).0 * 4096 + offset.0 && l == len)
                &&& len > 0 && self.mmap_start is None ==> match read_chunks(pstate(m1, ino1), offset.0 as int, offset.0 + len) {
                    Some(Ok(bytes)) => r matches Ok(FileBytes::Data(v)) && v@ == bytes,
                    Some(Err(e)) => r == Err::<FileBytes, ErrorNum>(e),
                    None => false,
                }
            },
    {
        let ghost off_param = offset.0;
        let ghost len_param = length;
        let mut pos = offset.0;
        let mut len = length;
        let mut inode = match fs_inner.get_inode(self.inode_no) {
            Ok(i) => i,
            Err(e) => {
                return Err(e);
            },
        };
        inode.access_time = now;
        fs_inner.put_inode(self.inode_no, inode);
        if inode.f_size <= pos + len {
            if pos > inode.f_size {
                len = 0;
            } else {
                len = inode.f_size - pos;
            }
        }
        if len == 0 {
            return Ok(FileBytes::Data(Vec::new()));
        }
        if let Some(mmap_start) = self.mmap_start {
            proof {
                crate::mem::types::lemma_page_start(mmap_start.0);
            }
            let start_va = VirtAddr::from(mmap_start);
            return Ok(FileBytes::AtAddress(VirtAddr(start_va.0 + pos), len));
        }
        let ghost s = pstate(fs_inner@, inode);
        let ghost off0 = pos as int;
        let mut result: Vec<u8> = Vec::new();
        let target = len + pos;
        proof {
            fs_inner.lemma_wf();
        }
        while pos < target
            invariant
                fs_inner.wf(),
                fs_inner.base_page() == old(fs_inner).base_page(),
                s == pstate(fs_inner@, inode),
                fs_inner@ == with_inode(old(fs_inner)@, self.inode_no.0 as int, inode),
                inode == (PFSINode { access_time: now, ..old(fs_inner)@.inodes[self.inode_no.0 as int] }),
                old(fs_inner)@.inode_bits[self.inode_no.0 as int],
                self.inode_no.0 < old(fs_inner)@.inodes.len(),
                off0 == off_param,
                off_param == offset.0,
                len_param == length,
                self.mmap_start is None,
                target == off_param + read_len(inode.f_size as int, off_param as int, len_param as int),
                read_len(inode.f_size as int, off_param as int, len_param as int) > 0,
                off0 <= pos <= target,
                read_chunks(s, off0, target as int) is Some,
                read_chunks(s, off0, target as int) == match read_chunks(s, pos as int, target as int) {
                    Some(Ok(rest)) => Some(Ok(result@ + rest)),
                    other => other,
                },
            decreases target - pos,
        {
            let (mut piece, cpy_size) = match self.read_piece(fs_inner, &mut inode, pos, target) {
                Ok(x) => x,
                Err(e) => {
                    return Err(e);
                },
            };
            let ghost old_result = result@;
            let ghost piece_v = piece@;
            result.append(&mut piece);
            proof {
                if let Some(Ok(rest)) = read_chunks(s, pos + cpy_size, target as int) {
                    assert(old_result + (piece_v + rest) =~= (old_result + piece_v) + rest);
                }
            }
            pos = pos + cpy_size;
        }
        proof {
            reveal(read_chunks);
            assert(result@ + Seq::<u8>::empty() =~= result@);
        }
        Ok(FileBytes::Data(result))
    }
}


/// The state of a file before its bytes are written: its inode `ino` and the
/// memory `m`, grown to hold `target` bytes when it is shorter.
pub open spec fn grown(m: FsModel, ino: PFSINode, target: int) -> (Outcome, PState) {
    if (ino.f_size as int) < target {
        blockno_spec(pstate(m, ino), target, true)
    } else {
        (Outcome::Block(0), pstate(m, ino))
    }
}

impl PFSBase {
    /// Writes the piece of `data` from `ptr` on into the file from `offset`
    /// up to the end of its block or to `target`, whichever comes first; how
    /// many bytes it wrote.
    fn write_piece(
        &self,
        fs_inner: &mut ParchFSInner,
        inode: &mut PFSINode,
        data: &Vec<u8>,
        offset: usize,
        ptr: usize,
        target: usize,
    ) -> (r: Result<usize, ErrorNum>)
        requires
            old(fs_inner).wf(),
            offset < target,
            ptr + (target - offset) == data@.len(),
            write_chunks(pstate(old(fs_inner)@, *old(inode)), data@, offset as int, ptr as int, target as int) is Some,
        ensures
            final(fs_inner).wf(),
            final(fs_inner).base_page() == old(fs_inner).base_page(),
            same_inodes(final(fs_inner)@, old(fs_inner)@),
            *final(inode) == *old(inode),
            match r {
                Err(e) => write_chunks(pstate(old(fs_inner)@, *old(inode)), data@, offset as int, ptr as int, target as int)
                    == Some((Some(e), pstate(old(fs_inner)@, *old(inode)))) && final(fs_inner)@ == old(fs_inner)@,
                Ok(n) => {
                    &&& 0 < n
                    &&& offset + n <= target
                    &&& write_chunks(pstate(old(fs_inner)@, *old(inode)), data@, offset as int, ptr as int, target as int)
                        == write_chunks(pstate(final(fs_inner)@, *old(inode)), data@, offset + n, ptr + n, target as int)
                },
            },
    {
        proof {
            lemma_chunk(offset as int, target as int);
            fs_inner.lemma_wf();
            reveal(write_chunks);
        }
        let ghost ino0 = *inode;
        let blk = match self.get_blockno_locked(offset, false, fs_inner, inode) {
            Ok(b) => b,
            Err(e) => {
                proof {
                    lemma_inode_eq(fs_inner@, *inode, ino0);
                }
                return Err(e);
            },
        };
        proof {
            lemma_inode_eq(fs_inner@, *inode, ino0);
        }
        let dst_start = offset % BLK_SIZE;
        let dst_end = if target - offset > BLK_SIZE - dst_start {
            BLK_SIZE
        } else {
            target % BLK_SIZE
        };
        let cpy_size = dst_end - dst_start;
        let slice = data.as_slice();
        proof {
            fs_inner.lemma_wf();
            assert(cpy_size == chunk_size(offset as int, target as int));
        }
        let n = slice.len();
        proof {
            assert(ptr + cpy_size <= n);
        }
        let piece = &slice[ptr..ptr + cpy_size];
        fs_inner.write_bytes(blk, dst_start, piece);
        Ok(cpy_size)
    }

    /// Writes `data` into the file from `offset` on, growing it when it is
    /// too short; the write stamps the inode's access and change times with
    /// `now`.  A file mapped into memory gives the address to copy the data to
    /// instead of writing it.
    pub fn write(
        &self,
        data: Vec<u8>,
        offset: crate::fs::types::Cursor,
        fs_inner: &mut ParchFSInner,
        now: usize,
    ) -> (r: Result<Option<VirtAddr>, ErrorNum>)
        requires
            old(fs_inner).wf(),
            self.inode_no.0 < old(fs_inner)@.inodes.len(),
            offset.0 + data@.len() <= usize::MAX,
            data@.len() > 0 && old(fs_inner)@.inode_bits[self.inode_no.0 as int] ==> {
                let no = self.inode_no.0 as int;
                let ino1 = PFSINode { access_time: now, change_time: now, ..old(fs_inner)@.inodes[no] };
                let m1 = with_inode(old(fs_inner)@, no, ino1);
                let target = offset.0 + data@.len();
                let (o, s2) = grown(m1, ino1, target);
                &&& !(o is Broken)
                &&& o is Block && self.mmap_start is None ==> write_chunks(s2, data@, offset.0 as int, 0, target) is Some
                &&& o is Block && self.mmap_start is Some ==> ((self.mmap_start->0).0 * 4096 + offset.0 <= usize::MAX)
            },
        ensures
            final(fs_inner).wf(),
            final(fs_inner).base_page() == old(fs_inner).base_page(),
            final(fs_inner)@.inode_bits == old(fs_inner)@.inode_bits,
            final(fs_inner)@.inodes.len() == old(fs_inner)@.inodes.len(),
            Some((write_out(r), final(fs_inner)@)) == write_spec(
                old(fs_inner)@,
                self.inode_no.0 as int,
                self.mmap_start,
                data@,
                offset.0 as int,
                now,
            ),
    {
        if data.len() == 0 {
            return Ok(None);
        }
        let no = self.inode_no;
        let mut inode = match fs_inner.get_inode(no) {
            Ok(i) => i,
            Err(e) => {
                return Err(e);
            },
        };
        inode.change_time = now;
        inode.access_time = now;
        fs_inner.put_inode(no, inode);
        let ghost ino1 = inode;
        let ghost m1 = fs_inner@;
        let target = offset.0 + data.len();
        if inode.f_size < target {
            let res = self.expand_locked(target, fs_inner, &mut inode);
            if let Err(e) = res {
                fs_inner.put_inode(no, inode);
                proof {
                    let s2 = grown(m1, ino1, target as int).1;
                    assert(direct_of(inode) =~= s2.direct);
                    lemma_rebuilt(ino1, s2, inode);
                }
                return Err(e);
            }
        }
        let ghost s2 = grown(m1, ino1, target as int).1;
        proof {
            assert(direct_of(inode) =~= s2.direct);
            assert(pstate(fs_inner@, inode) == s2);
            lemma_rebuilt(ino1, s2, inode);
        }
        if let Some(mmap_start) = self.mmap_start {
            fs_inner.put_inode(no, inode);
            proof {
                crate::mem::types::lemma_page_start(mmap_start.0);
            }
            let start_va = VirtAddr::from(mmap_start);
            return Ok(Some(VirtAddr(start_va.0 + offset.0)));
        }
        let ghost ino2 = inode;
        let mut pos = offset.0;
        let mut data_ptr: usize = 0;
        proof {
            fs_inner.lemma_wf();
        }
        while pos < target
            invariant
                fs_inner.wf(),
                fs_inner.base_page() == old(fs_inner).base_page(),
                inode == ino2,
                no == self.inode_no,
                data@.len() > 0,
                old(fs_inner)@.inode_bits[self.inode_no.0 as int],
                ino1 == (PFSINode { access_time: now, change_time: now, ..old(fs_inner)@.inodes[no.0 as int] }),
                m1 == with_inode(old(fs_inner)@, no.0 as int, ino1),
                s2 == grown(m1, ino1, target as int).1,
                grown(m1, ino1, target as int).0 is Block,
                same_but_blocks(ino2, ino1),
                rebuilt(ino1, s2) == ino2,
                self.mmap_start is None,
                no.0 < fs_inner@.inodes.len(),
                offset.0 <= pos <= target,
                target == offset.0 + data@.len(),
                data_ptr == pos - offset.0,
                fs_inner@.inodes == s2.m.inodes,
                fs_inner@.inode_bits == s2.m.inode_bits,
                s2.m.inode_bits == old(fs_inner)@.inode_bits,
                s2.m.inodes.len() == old(fs_inner)@.inodes.len(),
                pstate(s2.m, ino2) == s2,
                write_chunks(s2, data@, offset.0 as int, 0, target as int) is Some,
                write_chunks(s2, data@, offset.0 as int, 0, target as int) == write_chunks(
                    pstate(fs_inner@, inode),
                    data@,
                    pos as int,
                    data_ptr as int,
                    target as int,
                ),
            decreases target - pos,
        {
            let n = match self.write_piece(fs_inner, &mut inode, &data, pos, data_ptr, target) {
                Ok(n) => n,
                Err(e) => {
                    fs_inner.put_inode(no, inode);
                    return Err(e);
                },
            };
            pos = pos + n;
            data_ptr = data_ptr + n;
        }
        proof {
            reveal(write_chunks);
        }
        fs_inner.put_inode(no, inode);
        Ok(None)
    }
}


/// A file's details: how it was opened, its size, its path and its inode.
pub struct FileStat {
    pub open_mode: OpenMode,
    pub file_size: usize,
    pub path: Path,
    pub inode: u32,
}

/// Looking for the block of the byte at `off` of the file with inode `no`,
/// adding missing blocks when `create`: what is found and the memory after.
/// `None` when the file system is malformed on the way.
pub open spec fn getblk_spec(m: FsModel, no: int, off: int, create: bool) -> Option<(Result<u32, ErrorNum>, FsModel)> {
    if !m.inode_bits[no] {
        Some((Err(ErrorNum::ENOENT), m))
    } else {
        let ino = m.inodes[no];
        let (o, s2) = blockno_spec(pstate(m, ino), off, create);
        let ino2 = rebuilt(ino, s2);
        match o {
            Outcome::Broken => None,
            Outcome::Fail(e) => Some((Err(e), with_inode(s2.m, no, ino2))),
            Outcome::Block(b) => Some((Ok(b), with_inode(s2.m, no, ino2))),
        }
    }
}

/// Resizing the file with inode `no` to `new_size`: what it gives and the
/// memory after.  `None` when the file system is malformed on the way.
pub open spec fn rsz_spec(m: FsModel, no: int, new_size: int) -> Option<(Result<(), ErrorNum>, FsModel)> {
    if !m.inode_bits[no] {
        Some((Err(ErrorNum::ENOENT), m))
    } else {
        let ino = m.inodes[no];
        let (o, s2) = resize_spec(pstate(m, ino), new_size);
        match o {
            None => None,
            Some(res) => Some((res, with_inode(s2.m, no, rebuilt(ino, s2)))),
        }
    }
}

impl PFSBase {
    /// A part of a file: its inode, path and the mode it was opened in, not
    /// mapped into memory.
    pub fn new(inode_no: INodeNo, path: Path, open_mode: OpenMode) -> (r: Result<Self, ErrorNum>)
        ensures
            r matches Ok(b) && b.inode_no == inode_no && b.path@ == path@ && b.open_mode == open_mode
                && b.mmap_start is None,
    {
        Ok(PFSBase { inode_no, open_mode, mmap_start: None, path })
    }

    /// The block that holds the byte at `offset`, adding the missing blocks
    /// on the way when `create`.
    pub fn get_blockno(&self, offset: usize, create: bool, fs_inner: &mut ParchFSInner) -> (r: Result<BlockNo, ErrorNum>)
        requires
            old(fs_inner).wf(),
            self.inode_no.0 < old(fs_inner)@.inodes.len(),
            getblk_spec(old(fs_inner)@, self.inode_no.0 as int, offset as int, create) is Some,
        ensures
            final(fs_inner).wf(),
            final(fs_inner).base_page() == old(fs_inner).base_page(),
            final(fs_inner)@.inode_bits == old(fs_inner)@.inode_bits,
            final(fs_inner)@.inodes.len() == old(fs_inner)@.inodes.len(),
            Some((match r {
                Ok(b) => Ok::<u32, ErrorNum>(b.0),
                Err(e) => Err(e),
            }, final(fs_inner)@)) == getblk_spec(old(fs_inner)@, self.inode_no.0 as int, offset as int, create),
    {
        let mut inode = match fs_inner.get_inode(self.inode_no) {
            Ok(i) => i,
            Err(e) => {
                return Err(e);
            },
        };
        let ghost ino0 = inode;
        let r = self.get_blockno_locked(offset, create, fs_inner, &mut inode);
        proof {
            let s2 = blockno_spec(pstate(old(fs_inner)@, ino0), offset as int, create).1;
            lemma_rebuilt(ino0, s2, inode);
        }
        fs_inner.put_inode(self.inode_no, inode);
        r
    }

    /// Makes sure the byte at `offset` has a block, growing the file to it.
    pub fn expand(&self, offset: usize, fs_inner: &mut ParchFSInner) -> (r: Result<(), ErrorNum>)
        requires
            old(fs_inner).wf(),
            self.inode_no.0 < old(fs_inner)@.inodes.len(),
            getblk_spec(old(fs_inner)@, self.inode_no.0 as int, offset as int, true) is Some,
        ensures
            final(fs_inner).wf(),
            final(fs_inner).base_page() == old(fs_inner).base_page(),
            final(fs_inner)@.inode_bits == old(fs_inner)@.inode_bits,
            final(fs_inner)@.inodes.len() == old(fs_inner)@.inodes.len(),
            Some((match r {
                Ok(_) => Ok::<u32, ErrorNum>((getblk_spec(old(fs_inner)@, self.inode_no.0 as int, offset as int, true)->0).0->Ok_0),
                Err(e) => Err(e),
            }, final(fs_inner)@)) == getblk_spec(old(fs_inner)@, self.inode_no.0 as int, offset as int, true),
    {
        match self.get_blockno(offset, true, fs_inner) {
            Ok(_) => Ok(()),
            Err(e) => Err(e),
        }
    }

    /// Resizes the file to `new_size`.
    pub fn resize(&self, new_size: usize, fs_inner: &mut ParchFSInner) -> (r: Result<(), ErrorNum>)
        requires
            old(fs_inner).wf(),
            self.inode_no.0 < old(fs_inner)@.inodes.len(),
            rsz_spec(old(fs_inner)@, self.inode_no.0 as int, new_size as int) is Some,
        ensures
            final(fs_inner).wf(),
            final(fs_inner).base_page() == old(fs_inner).base_page(),
            final(fs_inner)@.inode_bits == old(fs_inner)@.inode_bits,
            final(fs_inner)@.inodes.len() == old(fs_inner)@.inodes.len(),
            Some((r, final(fs_inner)@)) == rsz_spec(old(fs_inner)@, self.inode_no.0 as int, new_size as int),
    {
        let mut inode = match fs_inner.get_inode(self.inode_no) {
            Ok(i) => i,
            Err(e) => {
                return Err(e);
            },
        };
        let ghost ino0 = inode;
        let r = self.resize_locked(new_size, fs_inner, &mut inode);
        proof {
            let s2 = resize_spec(pstate(old(fs_inner)@, ino0), new_size as int).1;
            lemma_rebuilt(ino0, s2, inode);
        }
        fs_inner.put_inode(self.inode_no, inode);
        r
    }

    /// The kind of the file.
    pub fn f_type(&self, fs_inner: &ParchFSInner) -> (r: Result<crate::fs::types::FileType, ErrorNum>)
        requires
            fs_inner.wf(),
            self.inode_no.0 < fs_inner@.inodes.len(),
        ensures
            fs_inner@.inode_bits[self.inode_no.0 as int] ==> r == Ok::<crate::fs::types::FileType, ErrorNum>(
                super::types::pfs_to_file_type(fs_inner@.inodes[self.inode_no.0 as int].f_type),
            ),
            !fs_inner@.inode_bits[self.inode_no.0 as int] ==> r == Err::<crate::fs::types::FileType, ErrorNum>(ErrorNum::ENOENT),
    {
        let inode = fs_inner.get_inode(self.inode_no)?;
        Ok(inode.f_type.into_file_type())
    }

    /// How the file was opened, its size, path and inode.
    pub fn stat(&self, fs_inner: &ParchFSInner) -> (r: Result<FileStat, ErrorNum>)
        requires
            fs_inner.wf(),
            self.inode_no.0 < fs_inner@.inodes.len(),
        ensures
            fs_inner@.inode_bits[self.inode_no.0 as int] ==> (r matches Ok(st) && st.open_mode == self.open_mode
                && st.file_size == fs_inner@.inodes[self.inode_no.0 as int].f_size && st.path@ == self.path@
                && st.inode == self.inode_no.0),
            !fs_inner@.inode_bits[self.inode_no.0 as int] ==> (r matches Err(e) && e == ErrorNum::ENOENT),
    {
        let inode = fs_inner.get_inode(self.inode_no)?;
        Ok(FileStat { open_mode: self.open_mode, file_size: inode.f_size, path: self.path.clone(), inode: self.inode_no.0 })
    }

    /// The page that holds the block at `offset`, which must start a block,
    /// marked as taken by files.
    pub fn get_page(&self, offset: usize, fs_inner: &mut ParchFSInner) -> (r: Result<crate::mem::types::PhysPageNum, ErrorNum>)
        requires
            old(fs_inner).wf(),
            self.inode_no.0 < old(fs_inner)@.inodes.len(),
            offset % BLK_SIZE == 0 ==> getblk_spec(old(fs_inner)@, self.inode_no.0 as int, offset as int, false) is Some,
            offset % BLK_SIZE == 0 ==> ((getblk_spec(old(fs_inner)@, self.inode_no.0 as int, offset as int, false)->0).0 matches Ok(b)
                ==> b < old(fs_inner)@.blocks.len()),
        ensures
            final(fs_inner).wf(),
            offset % BLK_SIZE != 0 ==> r == Err::<crate::mem::types::PhysPageNum, ErrorNum>(ErrorNum::ENOTALIGNED)
                && final(fs_inner)@ == old(fs_inner)@,
            offset % BLK_SIZE == 0 ==> match (getblk_spec(old(fs_inner)@, self.inode_no.0 as int, offset as int, false)->0).0 {
                Ok(b) => r matches Ok(ppn) && ppn.0 == old(fs_inner).base_page().0 + b,
                Err(e) => r == Err::<crate::mem::types::PhysPageNum, ErrorNum>(e),
            },
    {
        if offset % BLK_SIZE != 0 {
            return Err(ErrorNum::ENOTALIGNED);
        }
        let block_no = self.get_blockno(offset, false, fs_inner)?;
        let base = fs_inner.base_page_num();
        let ppn = block_no.to_ppn(crate::mem::types::PhysPageNum(base));
        proof {
            fs_inner.lemma_wf();
            assert(block_no.0 > 0) by {
                let s = pstate(old(fs_inner)@, old(fs_inner)@.inodes[self.inode_no.0 as int]);
                assert(blockno_spec(s, offset as int, false).0 == Outcome::Block(block_no.0));
            }
        }
        fs_inner.claim_page(ppn);
        Ok(ppn)
    }
}

} // verus!
