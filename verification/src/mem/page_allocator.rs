//! The allocator of physical pages: one bitmap for every page that is taken
//! (by files or by running code) and one for the pages that running code took.
use vstd::prelude::*;
use super::types::{PhysAddr, PhysPageNum, page_ceil, page_of};
use super::phys_bitmap::{BitMap, total_ones};

verus! {

/// What the allocator knows: which pages are taken at all, and which are
/// taken as executable memory, by their index from the first page.
pub struct AllocModel {
    pub fs: Seq<bool>,
    pub mm: Seq<bool>,
}

/// Allocates physical pages with two bitmaps: `bitmap_fs` has every page that
/// is taken, `bitmap_mm` the pages taken as executable memory; `base` is the
/// first page that the bitmaps cover.
pub struct BitMapPageAllocator {
    bitmap_mm: BitMap,
    bitmap_fs: BitMap,
    base: PhysPageNum,
}

impl View for BitMapPageAllocator {
    type V = AllocModel;

    closed spec fn view(&self) -> AllocModel {
        AllocModel { fs: self.bitmap_fs@, mm: self.bitmap_mm@ }
    }
}

/// The page at `i` lies outside the usable region `[begin, begin + length)`:
/// before its first whole page or from the page that holds its end on.
pub open spec fn outside_region(page: int, begin: PhysAddr, length: usize) -> bool {
    page < page_ceil(begin.0) || page >= page_of((begin.0 + length) as usize)
}

impl BitMapPageAllocator {
    /// The first page that the bitmaps cover.
    pub closed spec fn base_of(&self) -> PhysPageNum {
        self.base
    }

    /// A well-formed allocator has bitmaps of one length, and its page
    /// numbers fit in a `usize`.
    pub proof fn lemma_wf(&self)
        requires
            self.wf(),
        ensures
            self@.mm.len() == self@.fs.len(),
            self.base_of().0 + self@.fs.len() <= usize::MAX,
    {
    }

    /// The index of the first page that the bitmaps cover.
    pub fn base_page_num(&self) -> (r: usize)
        ensures
            r == self.base_of().0,
    {
        self.base.0
    }

    /// The number of taken pages.
    pub closed spec fn taken_count(&self) -> nat {
        total_ones(self.bitmap_fs.words_of())
    }

    /// The number of pages taken as executable memory.
    pub closed spec fn exec_count(&self) -> nat {
        total_ones(self.bitmap_mm.words_of())
    }

    /// Both bitmaps are well formed and of one length, every executable page
    /// is also marked taken, and the page numbers fit in a `usize`.
    pub closed spec fn wf(&self) -> bool {
        &&& self.bitmap_mm.wf()
        &&& self.bitmap_fs.wf()
        &&& self.bitmap_mm@.len() == self.bitmap_fs@.len()
        &&& forall|p: int| 0 <= p < self.bitmap_mm@.len() ==> #[trigger] self.bitmap_mm@[p] ==> self.bitmap_fs@[p]
        &&& self.base.0 + self.bitmap_fs@.len() <= usize::MAX
    }

    /// Marks the page `ppn` as taken, and as executable when `is_exec`.
    fn mark_unavailable(&mut self, ppn: PhysPageNum, is_exec: bool)
        requires
            old(self).wf(),
            old(self).base.0 <= ppn.0 < old(self).base.0 + old(self)@.fs.len(),
        ensures
            final(self).wf(),
            final(self).base == old(self).base,
            final(self)@.fs == old(self)@.fs.update(ppn.0 - old(self).base.0, true),
            final(self)@.mm == if is_exec {
                old(self)@.mm.update(ppn.0 - old(self).base.0, true)
            } else {
                old(self)@.mm
            },
    {
        let index = ppn.0 - self.base.0;
        if is_exec {
            self.bitmap_mm.set(index);
        }
        self.bitmap_fs.set(index);
    }

    /// Marks the page `ppn` as free, and as not executable when `is_exec`.
    fn mark_available(&mut self, ppn: PhysPageNum, is_exec: bool)
        requires
            old(self).wf(),
            old(self).base.0 <= ppn.0 < old(self).base.0 + old(self)@.fs.len(),
            !is_exec ==> !old(self)@.mm[ppn.0 - old(self).base.0],
        ensures
            final(self).wf(),
            final(self).base == old(self).base,
            final(self)@.fs == old(self)@.fs.update(ppn.0 - old(self).base.0, false),
            final(self)@.mm == if is_exec {
                old(self)@.mm.update(ppn.0 - old(self).base.0, false)
            } else {
                old(self)@.mm
            },
    {
        let index = ppn.0 - self.base.0;
        if is_exec {
            self.bitmap_mm.clear(index);
        }
        self.bitmap_fs.clear(index);
    }

    /// An allocator over the bitmaps `bitmap_mm` and `bitmap_fs`, whose first
    /// page is `base`: every page from `base` up to the page that holds
    /// `phys_end` that lies outside `[begin, begin + length)` is marked taken,
    /// as executable memory.
    pub fn new(
        base: PhysPageNum,
        phys_end: PhysAddr,
        begin: PhysAddr,
        length: usize,
        bitmap_mm: BitMap,
        bitmap_fs: BitMap,
    ) -> (r: Self)
        requires
            bitmap_mm.wf(),
            bitmap_fs.wf(),
            bitmap_mm@.len() == bitmap_fs@.len(),
            forall|p: int| 0 <= p < bitmap_mm@.len() ==> #[trigger] bitmap_mm@[p] ==> bitmap_fs@[p],
            base.0 <= page_ceil(phys_end.0) < base.0 + bitmap_fs@.len(),
            base.0 + bitmap_fs@.len() <= usize::MAX,
            begin.0 + length <= usize::MAX,
        ensures
            r.wf(),
            r.base_of() == base,
            r@.fs.len() == bitmap_fs@.len(),
            forall|p: int|
                0 <= p < bitmap_fs@.len() ==> #[trigger] r@.fs[p] == (bitmap_fs@[p] || (base.0 + p
                    <= page_ceil(phys_end.0) && outside_region(base.0 + p, begin, length))),
            forall|p: int|
                0 <= p < bitmap_fs@.len() ==> #[trigger] r@.mm[p] == (bitmap_mm@[p] || (base.0 + p
                    <= page_ceil(phys_end.0) && outside_region(base.0 + p, begin, length))),
    {
        let mut res = BitMapPageAllocator { bitmap_mm, bitmap_fs, base };
        let end = phys_end.to_ppn_ceil();
        let first = begin.to_ppn_ceil();
        let last: PhysPageNum = PhysAddr(begin.0 + length).into();
        let mut i: PhysPageNum = base;
        while i.0 <= end.0
            invariant
                res.wf(),
                res.base == base,
                base.0 <= i.0 <= end.0 + 1,
                end.0 == page_ceil(phys_end.0),
                first.0 == page_ceil(begin.0),
                last.0 == page_of((begin.0 + length) as usize),
                end.0 < base.0 + bitmap_fs@.len(),
                res@.fs.len() == bitmap_fs@.len(),
                forall|p: int|
                    0 <= p < bitmap_fs@.len() ==> #[trigger] res@.fs[p] == (bitmap_fs@[p] || (base.0
                        + p < i.0 && outside_region(base.0 + p, begin, length))),
                forall|p: int|
                    0 <= p < bitmap_fs@.len() ==> #[trigger] res@.mm[p] == (bitmap_mm@[p] || (base.0
                        + p < i.0 && outside_region(base.0 + p, begin, length))),
            decreases end.0 + 1 - i.0,
        {
            if i.0 < first.0 || i.0 >= last.0 {
                res.mark_unavailable(i, true);
            }
            i.step_up();
        }
        res
    }

    /// Takes the lowest free page, as executable memory when `is_exec`;
    /// `None` when every page is taken.
    pub fn alloc_page(&mut self, is_exec: bool) -> (r: Option<PhysPageNum>)
        requires
            old(self).wf(),
        ensures
            final(self).wf(),
            final(self).base_of() == old(self).base_of(),
            match r {
                None => final(self)@ == old(self)@ && forall|p: int|
                    0 <= p < old(self)@.fs.len() ==> #[trigger] old(self)@.fs[p],
                Some(ppn) => {
                    let i = ppn.0 - old(self).base_of().0;
                    &&& 0 <= i < old(self)@.fs.len()
                    &&& !old(self)@.fs[i]
                    &&& forall|q: int| 0 <= q < i ==> #[trigger] old(self)@.fs[q]
                    &&& final(self)@.fs == old(self)@.fs.update(i, true)
                    &&& final(self)@.mm == if is_exec {
                        old(self)@.mm.update(i, true)
                    } else {
                        old(self)@.mm
                    }
                },
            },
    {
        proof {
            self.bitmap_fs.lemma_len();
        }
        match self.bitmap_fs.first_empty() {
            None => None,
            Some(block_id) => {
                proof {
                    assert(!self.bitmap_mm@[block_id as int]);
                }
                let ppn = PhysPageNum(self.base.0 + block_id);
                self.mark_unavailable(ppn, is_exec);
                Some(ppn)
            },
        }
    }

    /// Frees the page `to_free`, taken as executable memory when `is_exec`.
    pub fn free(&mut self, to_free: PhysPageNum, is_exec: bool)
        requires
            old(self).wf(),
            old(self).base_of().0 <= to_free.0 < old(self).base_of().0 + old(self)@.fs.len(),
            old(self)@.fs[to_free.0 - old(self).base_of().0],
            is_exec == old(self)@.mm[to_free.0 - old(self).base_of().0],
        ensures
            final(self).wf(),
            final(self).base_of() == old(self).base_of(),
            final(self)@.fs == old(self)@.fs.update(to_free.0 - old(self).base_of().0, false),
            final(self)@.mm == old(self)@.mm.update(to_free.0 - old(self).base_of().0, false),
    {
        proof {
            let i = to_free.0 - self.base.0;
            if !is_exec {
                assert(self@.mm.update(i, false) =~= self@.mm);
            }
        }
        self.mark_available(to_free, is_exec);
    }

    /// Marks the page `to_claim` as taken, as executable memory when `is_exec`.
    pub fn claim(&mut self, to_claim: PhysPageNum, is_exec: bool)
        requires
            old(self).wf(),
            old(self).base_of().0 <= to_claim.0 < old(self).base_of().0 + old(self)@.fs.len(),
        ensures
            final(self).wf(),
            final(self).base_of() == old(self).base_of(),
            final(self)@.fs == old(self)@.fs.update(to_claim.0 - old(self).base_of().0, true),
            final(self)@.mm == if is_exec {
                old(self)@.mm.update(to_claim.0 - old(self).base_of().0, true)
            } else {
                old(self)@.mm
            },
    {
        self.mark_unavailable(to_claim, is_exec);
    }

    /// The numbers of taken pages and of pages taken as executable memory.
    pub fn stat(&self) -> (r: (usize, usize))
        requires
            self.wf(),
        ensures
            r.0 == self.taken_count(),
            r.1 == self.exec_count(),
    {
        (self.bitmap_fs.count(), self.bitmap_mm.count())
    }
}

/// Allocating a page and freeing it again gives back the allocator as it was.
pub proof fn lemma_alloc_free(before: AllocModel, after: AllocModel, i: int, is_exec: bool)
    requires
        0 <= i < before.fs.len(),
        before.fs.len() == before.mm.len(),
        !before.fs[i],
        !before.mm[i],
        after.fs == before.fs.update(i, true),
        after.mm == if is_exec {
            before.mm.update(i, true)
        } else {
            before.mm
        },
    ensures
        after.fs.update(i, false) == before.fs,
        after.mm.update(i, false) == before.mm,
        after.fs[i],
        after.mm[i] == is_exec,
{
    assert(after.fs.update(i, false) =~= before.fs);
    assert(after.mm.update(i, false) =~= before.mm);
}

} // verus!
