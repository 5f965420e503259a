//! The memory that a ParchFS lives in: its superblock, the bitmap and list of
//! inodes, and its blocks, which are pages handed out by the page allocator.
use vstd::prelude::*;
use crate::error::ErrorNum;
use crate::mem::types::PhysPageNum;
use crate::mem::phys_bitmap::BitMap;
use crate::mem::page_allocator::{BitMapPageAllocator, AllocModel};
use super::types::{INodeNo, BlockNo, PFSINode, SuperBlock};
use super::config::{BLK_SIZE, BLOCKNO_PER_BLK, PFS_MAGIC};

verus! {

/// A block of zero bytes.
pub open spec fn zero_block() -> Seq<u8> {
    Seq::new(BLK_SIZE as nat, |i: int| 0u8)
}

/// The little-endian number in `s[k..k + 4]`.
pub open spec fn le32(s: Seq<u8>, k: int) -> int {
    s[k] + s[k + 1] * 0x100 + s[k + 2] * 0x1_0000 + s[k + 3] * 0x100_0000
}

/// `s` with `v` written in little-endian order at `k..k + 4`.
pub open spec fn put_le32(s: Seq<u8>, k: int, v: u32) -> Seq<u8> {
    s.update(k, (v & 0xff) as u8).update(k + 1, ((v >> 8) & 0xff) as u8).update(
        k + 2,
        ((v >> 16) & 0xff) as u8,
    ).update(k + 3, ((v >> 24) & 0xff) as u8)
}

/// What the memory of a ParchFS holds: which pages are taken, the bytes of
/// every block, the superblock, which inodes are in use, and the inodes.
pub struct FsModel {
    pub pages: AllocModel,
    pub blocks: Seq<Seq<u8>>,
    pub sb: SuperBlock,
    pub inode_bits: Seq<bool>,
    pub inodes: Seq<PFSINode>,
}

/// The shape of the memory: one block per page, each `BLK_SIZE` bytes, the
/// first page never free (block number zero means no block), and one bit per inode.
pub open spec fn fs_wf(m: FsModel) -> bool {
    &&& m.blocks.len() == m.pages.fs.len()
    &&& m.pages.mm.len() == m.pages.fs.len()
    &&& 0 < m.blocks.len() <= u32::MAX
    &&& m.pages.fs[0]
    &&& forall|i: int| 0 <= i < m.blocks.len() ==> (#[trigger] m.blocks[i]).len() == BLK_SIZE
    &&& m.inode_bits.len() == m.inodes.len()
    &&& m.inodes.len() <= u32::MAX
}

/// Two memories hold the same inodes and inode bitmap.
pub open spec fn same_inodes(a: FsModel, b: FsModel) -> bool {
    a.inodes == b.inodes && a.inode_bits == b.inode_bits
}

/// The lowest page that is not taken.
pub open spec fn lowest_free(fs: Seq<bool>) -> int {
    choose|i: int| 0 <= i < fs.len() && !fs[i] && forall|q: int| 0 <= q < i ==> #[trigger] fs[q]
}

/// A block can be taken: the superblock counts a free one and a page is free.
pub open spec fn can_alloc(m: FsModel) -> bool {
    &&& m.sb.free_block > 0
    &&& exists|i: int| 0 <= i < m.pages.fs.len() && !m.pages.fs[i]
}

/// The memory after taking the lowest free page as a block, zeroed.
pub open spec fn alloc_model(m: FsModel) -> FsModel {
    let i = lowest_free(m.pages.fs);
    FsModel {
        pages: AllocModel { fs: m.pages.fs.update(i, true), mm: m.pages.mm },
        blocks: m.blocks.update(i, zero_block()),
        sb: SuperBlock { free_block: (m.sb.free_block - 1) as u64, ..m.sb },
        ..m
    }
}

/// Entry `i` of the block `b` read as a block of block numbers.
pub open spec fn entry(m: FsModel, b: int, i: int) -> u32 {
    le32(m.blocks[b], 4 * i) as u32
}

/// The memory with entry `i` of block `b` set to `v`.
pub open spec fn set_entry(m: FsModel, b: int, i: int, v: u32) -> FsModel {
    FsModel { blocks: m.blocks.update(b, put_le32(m.blocks[b], 4 * i, v)), ..m }
}

/// The lowest free page is free, and every page before it is taken.
pub proof fn lemma_lowest_free(fs: Seq<bool>)
    requires
        exists|i: int| 0 <= i < fs.len() && !fs[i],
    ensures
        0 <= lowest_free(fs) < fs.len(),
        !fs[lowest_free(fs)],
        forall|q: int| 0 <= q < lowest_free(fs) ==> #[trigger] fs[q],
    decreases fs.len(),
{
    let w = choose|i: int| 0 <= i < fs.len() && !fs[i];
    lemma_min_free(fs, w);
}

proof fn lemma_min_free(fs: Seq<bool>, w: int)
    requires
        0 <= w < fs.len(),
        !fs[w],
    ensures
        exists|i: int| 0 <= i < fs.len() && !fs[i] && forall|q: int| 0 <= q < i ==> #[trigger] fs[q],
    decreases w,
{
    if forall|q: int| 0 <= q < w ==> #[trigger] fs[q] {
    } else {
        let q = choose|q: int| 0 <= q < w && !fs[q];
        lemma_min_free(fs, q);
    }
}

/// Writing a number in little-endian order and reading it back gives the number.
pub proof fn lemma_le32_roundtrip(s: Seq<u8>, k: int, v: u32)
    requires
        0 <= k,
        k + 4 <= s.len(),
    ensures
        le32(put_le32(s, k, v), k) == v,
        put_le32(s, k, v).len() == s.len(),
        forall|j: int| 0 <= j < s.len() && (j < k || j >= k + 4) ==> #[trigger] put_le32(s, k, v)[j] == s[j],
{
    let t = put_le32(s, k, v);
    let b0 = (v & 0xff) as u8;
    let b1 = ((v >> 8) & 0xff) as u8;
    let b2 = ((v >> 16) & 0xff) as u8;
    let b3 = ((v >> 24) & 0xff) as u8;
    assert(t[k] == b0 && t[k + 1] == b1 && t[k + 2] == b2 && t[k + 3] == b3);
    assert(b0 + b1 * 0x100 + b2 * 0x1_0000 + b3 * 0x100_0000 == v) by (bit_vector)
        requires
            b0 == (v & 0xff) as u8,
            b1 == ((v >> 8) & 0xff) as u8,
            b2 == ((v >> 16) & 0xff) as u8,
            b3 == ((v >> 24) & 0xff) as u8,
    ;
}

/// The memory of a ParchFS.
pub struct ParchFSInner {
    superblock: SuperBlock,
    inode_bitmap: BitMap,
    inodes: Vec<PFSINode>,
    pages: BitMapPageAllocator,
    blocks: Vec<Vec<u8>>,
}

impl View for ParchFSInner {
    type V = FsModel;

    closed spec fn view(&self) -> FsModel {
        FsModel {
            pages: self.pages@,
            blocks: Seq::new(self.blocks@.len(), |i: int| self.blocks@[i]@),
            sb: self.superblock,
            inode_bits: self.inode_bitmap@,
            inodes: self.inodes@,
        }
    }
}

impl ParchFSInner {
    /// The bitmaps are well formed and the memory has its shape.
    pub closed spec fn wf(&self) -> bool {
        &&& self.pages.wf()
        &&& self.inode_bitmap.wf()
        &&& fs_wf(self@)
    }

    /// The first page, whose index is block number zero.
    pub closed spec fn base_page(&self) -> PhysPageNum {
        self.pages.base_of()
    }

    /// A well-formed store has the shape of its model.
    pub proof fn lemma_wf(&self)
        requires
            self.wf(),
        ensures
            fs_wf(self@),
    {
    }

    /// A ParchFS in the memory given: its superblock, inode bitmap, inodes,
    /// page allocator and blocks.  The superblock must carry the ParchFS magic number.
    pub fn new(
        superblock: SuperBlock,
        inode_bitmap: BitMap,
        inodes: Vec<PFSINode>,
        pages: BitMapPageAllocator,
        blocks: Vec<Vec<u8>>,
    ) -> (r: Self)
        requires
            superblock.magic == PFS_MAGIC,
            pages.wf(),
            inode_bitmap.wf(),
            fs_wf(
                FsModel {
                    pages: pages@,
                    blocks: Seq::new(blocks@.len(), |i: int| blocks@[i]@),
                    sb: superblock,
                    inode_bits: inode_bitmap@,
                    inodes: inodes@,
                },
            ),
        ensures
            r.wf(),
            r@ == (FsModel {
                pages: pages@,
                blocks: Seq::new(blocks@.len(), |i: int| blocks@[i]@),
                sb: superblock,
                inode_bits: inode_bitmap@,
                inodes: inodes@,
            }),
            r.base_page() == pages.base_of(),
    {
        ParchFSInner { superblock, inode_bitmap, inodes, pages, blocks }
    }

    /// The superblock.
    pub fn superblock(&self) -> (r: SuperBlock)
        ensures
            r == self@.sb,
    {
        self.superblock
    }

    /// The inode `inode_no`: `ENOENT` when it is not in use.
    pub fn get_inode(&self, inode_no: INodeNo) -> (r: Result<PFSINode, ErrorNum>)
        requires
            self.wf(),
            inode_no.0 < self@.inodes.len(),
        ensures
            self@.inode_bits[inode_no.0 as int] ==> r == Ok::<PFSINode, ErrorNum>(self@.inodes[inode_no.0 as int]),
            !self@.inode_bits[inode_no.0 as int] ==> r == Err::<PFSINode, ErrorNum>(ErrorNum::ENOENT),
    {
        if !self.inode_bitmap.get(inode_no.0 as usize) {
            return Err(ErrorNum::ENOENT);
        }
        Ok(self.inodes[inode_no.0 as usize])
    }

    /// Whether the inode `inode_no` is in use.
    pub fn inode_in_use(&self, inode_no: INodeNo) -> (r: bool)
        requires
            self.wf(),
            inode_no.0 < self@.inodes.len(),
        ensures
            r == self@.inode_bits[inode_no.0 as int],
    {
        self.inode_bitmap.get(inode_no.0 as usize)
    }

    /// Stores `inode` as the inode `inode_no`.
    pub fn put_inode(&mut self, inode_no: INodeNo, inode: PFSINode)
        requires
            old(self).wf(),
            inode_no.0 < old(self)@.inodes.len(),
        ensures
            final(self).wf(),
            final(self).base_page() == old(self).base_page(),
            final(self)@ == (FsModel { inodes: old(self)@.inodes.update(inode_no.0 as int, inode), ..old(self)@ }),
    {
        self.inodes.set(inode_no.0 as usize, inode);
        proof {
            assert(self@.blocks =~= old(self)@.blocks);
        }
    }

    /// Takes the lowest free page as a block, zeroed, and counts one free
    /// block less in the superblock.
    pub fn alloc_blk(&mut self) -> (r: BlockNo)
        requires
            old(self).wf(),
            can_alloc(old(self)@),
        ensures
            final(self).wf(),
            final(self).base_page() == old(self).base_page(),
            final(self)@ == alloc_model(old(self)@),
            r.0 == lowest_free(old(self)@.pages.fs),
            0 < r.0 < old(self)@.blocks.len(),
            !old(self)@.pages.fs[r.0 as int],
    {
        proof {
            lemma_lowest_free(self@.pages.fs);
        }
        self.superblock.free_block = self.superblock.free_block - 1;
        let ppn = match self.pages.alloc_page(false) {
            Some(p) => p,
            None => {
                proof {
                    assert(false);
                }
                PhysPageNum(0)
            },
        };
        let i = ppn.0 - self.pages.base_page_num();
        self.blocks.set(i, vec![0u8; BLK_SIZE]);
        proof {
            assert(i == lowest_free(old(self)@.pages.fs)) by {
                let l = lowest_free(old(self)@.pages.fs);
                if i < l {
                } else if l < i {
                }
            }
            assert(self.blocks@[i as int]@ =~= zero_block());
            assert(self@.blocks =~= old(self)@.blocks.update(i as int, zero_block()));
            assert(self@.pages.mm =~= old(self)@.pages.mm);
            assert(self@ == alloc_model(old(self)@));
        }
        BlockNo(i as u32)
    }

    /// Frees the block `block_no`, zeroing it, and counts one free block more
    /// in the superblock.
    pub fn free_blk(&mut self, block_no: BlockNo)
        requires
            old(self).wf(),
            0 < block_no.0 < old(self)@.blocks.len(),
            old(self)@.pages.fs[block_no.0 as int],
            !old(self)@.pages.mm[block_no.0 as int],
            old(self)@.sb.free_block < u64::MAX,
        ensures
            final(self).wf(),
            final(self).base_page() == old(self).base_page(),
            final(self)@ == (FsModel {
                pages: AllocModel {
                    fs: old(self)@.pages.fs.update(block_no.0 as int, false),
                    mm: old(self)@.pages.mm,
                },
                blocks: old(self)@.blocks.update(block_no.0 as int, zero_block()),
                sb: SuperBlock { free_block: (old(self)@.sb.free_block + 1) as u64, ..old(self)@.sb },
                ..old(self)@
            }),
    {
        proof {
            self.pages.lemma_wf();
        }
        self.superblock.free_block = self.superblock.free_block + 1;
        let base = self.pages.base_page_num();
        let ppn = block_no.to_ppn(PhysPageNum(base));
        self.pages.free(ppn, false);
        let i = block_no.0 as usize;
        self.blocks.set(i, vec![0u8; BLK_SIZE]);
        proof {
            assert(self.blocks@[i as int]@ =~= zero_block());
            assert(self@.blocks =~= old(self)@.blocks.update(i as int, zero_block()));
            assert(self@.pages.mm =~= old(self)@.pages.mm.update(i as int, false));
            assert(old(self)@.pages.mm.update(i as int, false) =~= old(self)@.pages.mm);
        }
    }

    /// Takes the lowest free inode number.
    pub fn alloc_inode(&mut self) -> (r: INodeNo)
        requires
            old(self).wf(),
            exists|i: int| 0 <= i < old(self)@.inode_bits.len() && !old(self)@.inode_bits[i],
        ensures
            final(self).wf(),
            final(self).base_page() == old(self).base_page(),
            r.0 == lowest_free(old(self)@.inode_bits),
            final(self)@ == (FsModel { inode_bits: old(self)@.inode_bits.update(r.0 as int, true), ..old(self)@ }),
    {
        proof {
            lemma_lowest_free(self@.inode_bits);
        }
        let inode_no = match self.inode_bitmap.first_empty() {
            Some(i) => i,
            None => 0,
        };
        proof {
            assert(inode_no == lowest_free(old(self)@.inode_bits)) by {
                let l = lowest_free(old(self)@.inode_bits);
                if inode_no < l {
                } else if l < inode_no {
                }
            }
        }
        self.inode_bitmap.set(inode_no);
        proof {
            assert(self@.blocks =~= old(self)@.blocks);
        }
        INodeNo(inode_no as u32)
    }

    /// Frees the inode number `inode_no`, which must be in use.
    pub fn free_inode(&mut self, inode_no: INodeNo)
        requires
            old(self).wf(),
            inode_no.0 < old(self)@.inode_bits.len(),
            old(self)@.inode_bits[inode_no.0 as int],
        ensures
            final(self).wf(),
            final(self).base_page() == old(self).base_page(),
            final(self)@ == (FsModel { inode_bits: old(self)@.inode_bits.update(inode_no.0 as int, false), ..old(self)@ }),
    {
        self.inode_bitmap.clear(inode_no.0 as usize);
        proof {
            assert(self@.blocks =~= old(self)@.blocks);
        }
    }

    /// Entry `i` of the block `b` read as a block of block numbers.
    pub fn read_entry(&self, b: BlockNo, i: usize) -> (r: BlockNo)
        requires
            self.wf(),
            b.0 < self@.blocks.len(),
            i < BLOCKNO_PER_BLK,
        ensures
            r.0 == entry(self@, b.0 as int, i as int),
    {
        let blk = &self.blocks[b.0 as usize];
        assert(blk@ == self@.blocks[b.0 as int]);
        let k = 4 * i;
        let v = (blk[k] as u32) + (blk[k + 1] as u32) * 0x100 + (blk[k + 2] as u32) * 0x1_0000 + (
        blk[k + 3] as u32) * 0x100_0000;
        BlockNo(v)
    }

    /// Sets entry `i` of the block `b` to the block number `v`.
    pub fn write_entry(&mut self, b: BlockNo, i: usize, v: BlockNo)
        requires
            old(self).wf(),
            b.0 < old(self)@.blocks.len(),
            i < BLOCKNO_PER_BLK,
        ensures
            final(self).wf(),
            final(self).base_page() == old(self).base_page(),
            final(self)@ == set_entry(old(self)@, b.0 as int, i as int, v.0),
            entry(final(self)@, b.0 as int, i as int) == v.0,
    {
        let bi = b.0 as usize;
        let k = 4 * i;
        let x = v.0;
        let ghost before = self.blocks@[bi as int]@;
        assert(self@.blocks[bi as int] == before);
        assert(before.len() == BLK_SIZE);
        self.blocks[bi].set(k, (x & 0xff) as u8);
        self.blocks[bi].set(k + 1, ((x >> 8) & 0xff) as u8);
        self.blocks[bi].set(k + 2, ((x >> 16) & 0xff) as u8);
        self.blocks[bi].set(k + 3, ((x >> 24) & 0xff) as u8);
        proof {
            lemma_le32_roundtrip(before, k as int, x);
            assert(self.blocks@[bi as int]@ =~= put_le32(before, k as int, x));
            assert(self@.blocks =~= old(self)@.blocks.update(bi as int, put_le32(before, k as int, x)));
        }
    }

    /// The `len` bytes of the block `b` from `start` on.
    pub fn read_bytes(&self, b: BlockNo, start: usize, len: usize) -> (r: Vec<u8>)
        requires
            self.wf(),
            b.0 < self@.blocks.len(),
            start + len <= BLK_SIZE,
        ensures
            r@ == self@.blocks[b.0 as int].subrange(start as int, start + len),
    {
        let blk = &self.blocks[b.0 as usize];
        assert(blk@ == self@.blocks[b.0 as int]);
        let mut res: Vec<u8> = Vec::new();
        let mut i = start;
        while i < start + len
            invariant
                start <= i <= start + len <= BLK_SIZE,
                blk@.len() == BLK_SIZE,
                res@ == blk@.subrange(start as int, i as int),
            decreases start + len - i,
        {
            res.push(blk[i]);
            proof {
                assert(blk@.subrange(start as int, i + 1) =~= blk@.subrange(start as int, i as int).push(blk@[i as int]));
            }
            i = i + 1;
        }
        res
    }

    /// Writes `data` into the block `b` from `start` on.
    pub fn write_bytes(&mut self, b: BlockNo, start: usize, data: &[u8])
        requires
            old(self).wf(),
            b.0 < old(self)@.blocks.len(),
            start + data@.len() <= BLK_SIZE,
        ensures
            final(self).wf(),
            final(self).base_page() == old(self).base_page(),
            final(self)@ == (FsModel {
                blocks: old(self)@.blocks.update(
                    b.0 as int,
                    old(self)@.blocks[b.0 as int].subrange(0, start as int) + data@ + old(
                        self,
                    )@.blocks[b.0 as int].subrange(start + data@.len(), BLK_SIZE as int),
                ),
                ..old(self)@
            }),
    {
        let bi = b.0 as usize;
        let ghost before = self.blocks@[bi as int]@;
        assert(self@.blocks[bi as int] == before);
        let mut i: usize = 0;
        while i < data.len()
            invariant
                self.pages == old(self).pages,
                self.inode_bitmap == old(self).inode_bitmap,
                self.inodes == old(self).inodes,
                self.superblock == old(self).superblock,
                self.blocks@.len() == old(self).blocks@.len(),
                bi < self.blocks@.len(),
                before == old(self).blocks@[bi as int]@,
                before.len() == BLK_SIZE,
                start + data@.len() <= BLK_SIZE,
                i <= data@.len(),
                forall|j: int| 0 <= j < self.blocks@.len() && j != bi ==> #[trigger] self.blocks@[j] == old(self).blocks@[j],
                self.blocks@[bi as int]@ =~= before.subrange(0, start as int) + data@.subrange(0, i as int) + before.subrange(start + i, BLK_SIZE as int),
            decreases data@.len() - i,
        {
            self.blocks[bi].set(start + i, data[i]);
            proof {
                assert(self.blocks@[bi as int]@ =~= before.subrange(0, start as int) + data@.subrange(0, i + 1) + before.subrange(start + i + 1, BLK_SIZE as int));
            }
            i = i + 1;
        }
        proof {
            assert(data@.subrange(0, data@.len() as int) =~= data@);
            assert(self@.blocks =~= old(self)@.blocks.update(bi as int, before.subrange(0, start as int) + data@ + before.subrange(start + data@.len(), BLK_SIZE as int)));
        }
    }
}


impl ParchFSInner {
    /// The index of the first page, whose block number is zero.
    pub fn base_page_num(&self) -> (r: usize)
        requires
            self.wf(),
        ensures
            r == self.base_page().0,
            r + self@.blocks.len() <= usize::MAX,
    {
        proof {
            self.pages.lemma_wf();
        }
        self.pages.base_page_num()
    }

    /// Marks the page `ppn`, which lies among the blocks, as taken by files.
    pub fn claim_page(&mut self, ppn: PhysPageNum)
        requires
            old(self).wf(),
            old(self).base_page().0 <= ppn.0 < old(self).base_page().0 + old(self)@.blocks.len(),
            ppn.0 > old(self).base_page().0,
        ensures
            final(self).wf(),
            final(self).base_page() == old(self).base_page(),
            final(self)@ == (FsModel {
                pages: AllocModel {
                    fs: old(self)@.pages.fs.update(ppn.0 - old(self).base_page().0, true),
                    mm: old(self)@.pages.mm,
                },
                ..old(self)@
            }),
    {
        self.pages.claim(ppn, false);
        proof {
            assert(self@.blocks =~= old(self)@.blocks);
        }
    }
}

} // verus!
