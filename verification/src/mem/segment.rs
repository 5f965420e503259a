//! Segments of an address space: runs of virtual pages with the state of
//! each page (not yet backed, backed by its own page, shared copy-on-write,
//! or waiting for a page of a file), and what mapping, unmapping, copying
//! for a child process and handling a page fault do to them.  What a
//! segment asks of the page table comes back as a list of operations.
use vstd::prelude::*;
use crate::error::ErrorNum;
use super::types::{PhysPageNum, VirtAddr, page_ceil};
use super::page_allocator::BitMapPageAllocator;
use crate::config::{PROC_U_STACK_ADDR, PROC_U_STACK_SIZE, TRAMPOLINE_ADDR, U_TRAMPOLINE_ADDR};

verus! {

/// Segment flag: readable.
pub const SEG_R: usize = 2;
/// Segment flag: writable.
pub const SEG_W: usize = 4;
/// Segment flag: executable.
pub const SEG_X: usize = 8;
/// Segment flag: reachable from user mode.
pub const SEG_U: usize = 16;

/// Where a segment stands: built, mapped into a page table, or unmapped for good.
#[derive(Clone, Copy, PartialEq, Eq, Structural, Debug)]
pub enum SegmentStatus {
    Initialized,
    Mapped,
    Zombie,
}

/// The state of one virtual page of a segment.
#[derive(Clone, Copy, PartialEq, Eq, Structural, Debug)]
pub enum PageSlot {
    /// Taken out of the segment.
    Unmapped,
    /// Gets a zeroed page of its own at its first fault.
    LazyAlloc,
    /// Backed by a page of its own.
    Populated(PhysPageNum),
    /// Shares a page with another segment until it is written.
    CopyOnWrite(PhysPageNum),
    /// Gets the page of file `file` (a handle) at byte `offset` at its first fault.
    LazyVMA(usize, usize),
}

/// What a segment asks of the page table, or of physical memory.
#[derive(Clone, Copy, PartialEq, Eq, Structural, Debug)]
pub enum PtOp {
    /// Map the virtual page to the physical page with the flags; it must not be mapped.
    MapPage(usize, PhysPageNum, usize),
    /// Map the virtual page, which must be mapped, to the physical page with the flags.
    RemapPage(usize, PhysPageNum, usize),
    /// Unmap the virtual page.
    UnmapPage(usize),
    /// Copy the contents of the first physical page into the second.
    CopyPage(PhysPageNum, PhysPageNum),
    /// Map the virtual page to the physical page with the flags, whatever it held.
    ForceMapPage(usize, PhysPageNum, usize),
}

/// The flags without the write permission.
pub open spec fn read_only(flag: usize) -> usize {
    flag & !SEG_W
}

/// The flags have the write permission.
pub open spec fn writable(flag: usize) -> bool {
    flag & SEG_W != 0
}

/// The maps that `do_map` asks for: each page that shares a page copy-on-write
/// is mapped to it, read-only, in the order of the pages.
pub open spec fn cow_maps(frames: Seq<(usize, PageSlot)>, flag: usize) -> Seq<PtOp>
    decreases frames.len(),
{
    if frames.len() == 0 {
        seq![]
    } else {
        let rest = cow_maps(frames.drop_last(), flag);
        match frames.last().1 {
            PageSlot::CopyOnWrite(p) => rest.push(PtOp::MapPage(frames.last().0, p, read_only(flag))),
            _ => rest,
        }
    }
}

/// The slot of a page after the segment is copied for a child: a page of its
/// own becomes shared copy-on-write; every other slot stays.
pub open spec fn shared_slot(s: PageSlot) -> PageSlot {
    match s {
        PageSlot::Populated(p) => PageSlot::CopyOnWrite(p),
        _ => s,
    }
}

/// The slots after the segment is copied for a child.
pub open spec fn shared_frames(frames: Seq<(usize, PageSlot)>) -> Seq<(usize, PageSlot)> {
    Seq::new(frames.len(), |i: int| (frames[i].0, shared_slot(frames[i].1)))
}

/// The remaps that copying asks for: each page of its own is made read-only,
/// so that the first write to it faults.
pub open spec fn populated_remaps(frames: Seq<(usize, PageSlot)>, flag: usize) -> Seq<PtOp>
    decreases frames.len(),
{
    if frames.len() == 0 {
        seq![]
    } else {
        let rest = populated_remaps(frames.drop_last(), flag);
        match frames.last().1 {
            PageSlot::Populated(p) => rest.push(PtOp::RemapPage(frames.last().0, p, flag)),
            _ => rest,
        }
    }
}

/// The unmaps of the pages `vpns`, in order.
pub open spec fn unmaps(vpns: Seq<usize>) -> Seq<PtOp> {
    Seq::new(vpns.len(), |i: int| PtOp::UnmapPage(vpns[i]))
}

/// The slots after pages from `a` up to `b` are put in, not backed yet,
/// into slots whose pages are at most `a`: a slot of page `a` is replaced.
pub open spec fn grown(f: Seq<(usize, PageSlot)>, a: usize, b: usize) -> Seq<(usize, PageSlot)> {
    if b <= a {
        f
    } else if f.len() > 0 && f.last().0 == a {
        f.drop_last() + lazy_run(a, b)
    } else {
        f + lazy_run(a, b)
    }
}

/// The pages of `frames`.
pub open spec fn keys(frames: Seq<(usize, PageSlot)>) -> Seq<usize> {
    Seq::new(frames.len(), |i: int| frames[i].0)
}

/// The pages run up strictly, as the keys of an ordered map do.
pub open spec fn ordered(frames: Seq<(usize, PageSlot)>) -> bool {
    forall|i: int, j: int| 0 <= i < j < frames.len() ==> frames[i].0 < frames[j].0
}

/// The position of page `vpn` in `frames`, if it is there.
pub open spec fn position(frames: Seq<(usize, PageSlot)>, vpn: usize) -> Option<int> {
    if exists|i: int| 0 <= i < frames.len() && frames[i].0 == vpn {
        Some(choose|i: int| 0 <= i < frames.len() && frames[i].0 == vpn)
    } else {
        None
    }
}

/// What a page fault on a slot does, when it is not refused: the slot it
/// leaves and the operations it asks for.  `new_page` is the page taken
/// when one is needed, `file_page` the page that the file gives.
pub open spec fn fault_result(
    vpn: usize,
    slot: PageSlot,
    flag: usize,
    only_holder: bool,
    new_page: PhysPageNum,
    file_page: PhysPageNum,
) -> (PageSlot, Seq<PtOp>) {
    match slot {
        PageSlot::LazyAlloc => (PageSlot::Populated(new_page), seq![PtOp::MapPage(vpn, new_page, flag)]),
        PageSlot::CopyOnWrite(p) => if only_holder {
            (PageSlot::Populated(p), seq![PtOp::RemapPage(vpn, p, flag)])
        } else {
            (PageSlot::Populated(new_page), seq![PtOp::CopyPage(p, new_page), PtOp::RemapPage(vpn, new_page, flag)])
        },
        PageSlot::LazyVMA(_, _) => (PageSlot::Populated(file_page), seq![PtOp::MapPage(vpn, file_page, flag)]),
        _ => (slot, seq![]),
    }
}

/// A fault on the slot needs a new page: a lazy page, or a shared page that
/// others hold too.
pub open spec fn needs_page(slot: PageSlot, only_holder: bool) -> bool {
    slot is LazyAlloc || (slot is CopyOnWrite && !only_holder)
}

/// The operations to run, in order, and whether the fault was refused.
pub open spec fn fault_refusal(slot: PageSlot, flag: usize) -> Option<ErrorNum> {
    match slot {
        PageSlot::Unmapped => Some(ErrorNum::EPERM),
        PageSlot::Populated(_) => Some(ErrorNum::EPERM),
        PageSlot::CopyOnWrite(_) => if writable(flag) {
            None
        } else {
            Some(ErrorNum::EPERM)
        },
        _ => None,
    }
}

/// The slots `frames` with the slot at position `i` replaced by `s`.
pub open spec fn with_slot(frames: Seq<(usize, PageSlot)>, i: int, s: PageSlot) -> Seq<(usize, PageSlot)> {
    frames.update(i, (frames[i].0, s))
}

/// A page that a fault has backed faults for real the next time: every
/// fault that is not refused leaves the page backed by its own page, and a
/// fault on such a page is refused with `EPERM`.
pub proof fn lemma_second_fault_refused(
    vpn: usize,
    slot: PageSlot,
    flag: usize,
    only_holder: bool,
    new_page: PhysPageNum,
    file_page: PhysPageNum,
)
    requires
        fault_refusal(slot, flag) is None,
        !(slot is Unmapped),
    ensures
        fault_result(vpn, slot, flag, only_holder, new_page, file_page).0 is Populated,
        fault_refusal(fault_result(vpn, slot, flag, only_holder, new_page, file_page).0, flag) == Some(ErrorNum::EPERM),
{
}

/// After a segment is copied for a child, no page is its own any more:
/// each page of its own is shared, and every other slot is kept.
pub proof fn lemma_clone_shares_all(frames: Seq<(usize, PageSlot)>)
    ensures
        forall|i: int| 0 <= i < frames.len() ==> !(#[trigger] shared_frames(frames)[i].1 is Populated),
        keys(shared_frames(frames)) == keys(frames),
        forall|i: int| 0 <= i < frames.len() && frames[i].1 is Populated ==> #[trigger] shared_frames(frames)[i].1
            == PageSlot::CopyOnWrite(frames[i].1->Populated_0),
{
    assert(keys(shared_frames(frames)) =~= keys(frames));
}

/// Finds page `vpn` among `frames`.
fn find(frames: &Vec<(usize, PageSlot)>, vpn: usize) -> (r: Option<usize>)
    ensures
        r matches Some(i) ==> i < frames@.len() && frames@[i as int].0 == vpn,
        r is None <==> position(frames@, vpn) is None,
        ordered(frames@) && r is Some ==> position(frames@, vpn) == Some(r->Some_0 as int),
{
    let mut i: usize = 0;
    while i < frames.len()
        invariant
            i <= frames@.len(),
            forall|k: int| 0 <= k < i ==> frames@[k].0 != vpn,
        decreases frames@.len() - i,
    {
        if frames[i].0 == vpn {
            proof {
                assert(frames@[i as int].0 == vpn);
                if ordered(frames@) {
                    let c = choose|k: int| 0 <= k < frames@.len() && frames@[k].0 == vpn;
                    assert(c == i) by {
                        if c < i {
                        } else if c > i {
                            assert(frames@[i as int].0 < frames@[c].0);
                        }
                    }
                }
            }
            return Some(i);
        }
        i = i + 1;
    }
    None
}

/// A segment that maps each of its pages, from `start` up to `end`, to the
/// physical page of the same number.
pub struct IdenticalMappingSegment {
    pub start: usize,
    pub end: usize,
    pub flag: usize,
    pub status: SegmentStatus,
}

/// The maps of the pages from `start` up to `end`, each to itself.
pub open spec fn identity_maps(start: usize, end: usize, flag: usize) -> Seq<PtOp> {
    Seq::new((end - start) as nat, |i: int| PtOp::MapPage((start + i) as usize, PhysPageNum((start + i) as usize), flag))
}

impl IdenticalMappingSegment {
    /// The segment of the pages from `start` up to `end` with flags `flag`.
    pub fn new(start: usize, end: usize, flag: usize) -> (r: IdenticalMappingSegment)
        ensures
            r.start == start && r.end == end && r.flag == flag && r.status == SegmentStatus::Initialized,
    {
        IdenticalMappingSegment { start, end, flag, status: SegmentStatus::Initialized }
    }

    /// Whether `vpn` is one of its pages.
    pub fn contains(&self, vpn: usize) -> (r: bool)
        ensures
            r == (self.start <= vpn < self.end),
    {
        self.start <= vpn && vpn < self.end
    }

    /// Maps each page to itself; `EMMAPED` when it is mapped or unmapped already.
    pub fn do_map(&mut self) -> (r: Result<Vec<PtOp>, ErrorNum>)
        ensures
            old(self).status != SegmentStatus::Initialized ==> r == Err::<Vec<PtOp>, ErrorNum>(ErrorNum::EMMAPED)
                && *final(self) == *old(self),
            old(self).status == SegmentStatus::Initialized ==> (r matches Ok(ops) && ops@ == identity_maps(
                old(self).start,
                if old(self).end > old(self).start { old(self).end } else { old(self).start },
                old(self).flag,
            )) && final(self).status == SegmentStatus::Mapped && final(self).start == old(self).start
                && final(self).end == old(self).end && final(self).flag == old(self).flag,
    {
        if self.status != SegmentStatus::Initialized {
            return Err(ErrorNum::EMMAPED);
        }
        let ghost stop: usize = if self.end > self.start { self.end } else { self.start };
        let mut ops: Vec<PtOp> = Vec::new();
        let mut v = self.start;
        while v < self.end
            invariant
                self.start <= v <= stop,
                stop == if self.end > self.start { self.end } else { self.start },
                ops@ == identity_maps(self.start, v, self.flag),
            decreases self.end - v,
        {
            ops.push(PtOp::MapPage(v, PhysPageNum(v), self.flag));
            proof {
                assert(ops@ =~= identity_maps(self.start, (v + 1) as usize, self.flag));
            }
            v = v + 1;
        }
        self.status = SegmentStatus::Mapped;
        Ok(ops)
    }

    /// Unmapping: nothing to do for an empty segment; the kernel never
    /// unmaps one that has pages.
    pub fn do_unmap(&self) -> (r: Result<(), ErrorNum>)
        requires
            self.start == self.end,
        ensures
            r is Ok,
    {
        Ok(())
    }

    /// A copy of the segment for a child: its pages and flags, not mapped yet.
    pub fn clone_seg(&self) -> (r: IdenticalMappingSegment)
        ensures
            r.start == self.start && r.end == self.end && r.flag == self.flag,
            r.status == SegmentStatus::Initialized,
    {
        Self::new(self.start, self.end, self.flag)
    }

    /// A fault on page `vpn`: a page of the segment is mapped to itself;
    /// `EOOR` for any other.
    pub fn do_lazy(&self, vpn: usize) -> (r: Result<PtOp, ErrorNum>)
        ensures
            self.start <= vpn < self.end ==> r == Ok::<PtOp, ErrorNum>(PtOp::MapPage(vpn, PhysPageNum(vpn), self.flag)),
            !(self.start <= vpn < self.end) ==> r == Err::<PtOp, ErrorNum>(ErrorNum::EOOR),
    {
        if self.start <= vpn && vpn < self.end {
            Ok(PtOp::MapPage(vpn, PhysPageNum(vpn), self.flag))
        } else {
            Err(ErrorNum::EOOR)
        }
    }
}

/// A segment whose pages the kernel manages: each gets a zeroed page at its
/// first fault and is shared copy-on-write with children.  Its pages are
/// those from `start` up to `end`; `byte_len` is how many bytes it holds.
pub struct ManagedSegment {
    pub start: usize,
    pub end: usize,
    pub byte_len: usize,
    pub frames: Vec<(usize, PageSlot)>,
    pub flag: usize,
    pub status: SegmentStatus,
}

/// The pages from `start` up to `end`, each not yet backed.
pub open spec fn lazy_run(start: usize, end: usize) -> Seq<(usize, PageSlot)> {
    Seq::new((end - start) as nat, |i: int| ((start + i) as usize, PageSlot::LazyAlloc))
}

impl ManagedSegment {
    /// Its slots are ordered by page.
    pub open spec fn wf(&self) -> bool {
        ordered(self.frames@)
    }

    /// A segment of the pages from `start` up to `end`, none backed yet,
    /// holding `byte_len` bytes.
    pub fn new(start: usize, end: usize, flag: usize, byte_len: usize) -> (r: ManagedSegment)
        requires
            start <= end,
        ensures
            r.wf(),
            r.start == start && r.end == end && r.flag == flag && r.byte_len == byte_len,
            r.status == SegmentStatus::Initialized,
            r.frames@ == lazy_run(start, end),
    {
        let mut frames: Vec<(usize, PageSlot)> = Vec::new();
        let mut v = start;
        while v < end
            invariant
                start <= v <= end,
                frames@ == lazy_run(start, v),
            decreases end - v,
        {
            frames.push((v, PageSlot::LazyAlloc));
            proof {
                assert(frames@ =~= lazy_run(start, (v + 1) as usize));
            }
            v = v + 1;
        }
        ManagedSegment { start, end, byte_len, frames, flag, status: SegmentStatus::Initialized }
    }

    /// Whether `vpn` is one of its pages.
    pub fn contains(&self, vpn: usize) -> (r: bool)
        ensures
            r == (position(self.frames@, vpn) is Some),
    {
        find(&self.frames, vpn).is_some()
    }

    /// Maps the segment: the pages it shares copy-on-write are mapped
    /// read-only; `EMMAPED` when it is mapped or unmapped already.
    pub fn do_map(&mut self) -> (r: Result<Vec<PtOp>, ErrorNum>)
        ensures
            old(self).status != SegmentStatus::Initialized ==> r == Err::<Vec<PtOp>, ErrorNum>(ErrorNum::EMMAPED)
                && *final(self) == *old(self),
            old(self).status == SegmentStatus::Initialized ==> (r matches Ok(ops) && ops@ == cow_maps(
                old(self).frames@,
                old(self).flag,
            )) && final(self).status == SegmentStatus::Mapped && final(self).frames@ == old(self).frames@
                && final(self).start == old(self).start && final(self).end == old(self).end
                && final(self).flag == old(self).flag && final(self).byte_len == old(self).byte_len,
    {
        if self.status != SegmentStatus::Initialized {
            return Err(ErrorNum::EMMAPED);
        }
        let ops = cow_map_ops(&self.frames, self.flag);
        self.status = SegmentStatus::Mapped;
        Ok(ops)
    }

    /// Unmaps the segment, which must be mapped: every page from `start` up
    /// to `end` is unmapped, and the segment is done; its slots stay.
    pub fn do_unmap(&mut self) -> (r: Vec<PtOp>)
        requires
            old(self).status == SegmentStatus::Mapped,
            old(self).start <= old(self).end,
        ensures
            r@ == unmaps(Seq::new((old(self).end - old(self).start) as nat, |i: int| (old(self).start + i) as usize)),
            final(self).status == SegmentStatus::Zombie,
            final(self).frames@ == old(self).frames@,
            final(self).start == old(self).start && final(self).end == old(self).end,
            final(self).flag == old(self).flag && final(self).byte_len == old(self).byte_len,
    {
        let ghost want = Seq::new((self.end - self.start) as nat, |i: int| (self.start + i) as usize);
        let mut ops: Vec<PtOp> = Vec::new();
        let mut v = self.start;
        while v < self.end
            invariant
                self.start <= v <= self.end,
                want == Seq::new((self.end - self.start) as nat, |i: int| (self.start + i) as usize),
                ops@ == unmaps(want.take(v - self.start)),
            decreases self.end - v,
        {
            ops.push(PtOp::UnmapPage(v));
            proof {
                assert(ops@ =~= unmaps(want.take(v + 1 - self.start)));
            }
            v = v + 1;
        }
        proof {
            assert(want.take(self.end - self.start) =~= want);
        }
        self.status = SegmentStatus::Zombie;
        ops
    }

    /// Copies the segment for a child process: every page of its own becomes
    /// shared copy-on-write, in this segment and in the copy, and is remapped
    /// read-only here; the copy is not mapped yet.  Neither an unmapped slot
    /// nor a file page can be in a managed segment.
    pub fn clone_seg(&mut self) -> (r: (ManagedSegment, Vec<PtOp>))
        requires
            forall|i: int| 0 <= i < old(self).frames@.len() ==> !(#[trigger] old(self).frames@[i].1 is Unmapped)
                && !(old(self).frames@[i].1 is LazyVMA),
        ensures
            final(self).frames@ == shared_frames(old(self).frames@),
            r.1@ == populated_remaps(old(self).frames@, read_only(old(self).flag)),
            r.0.frames@ == shared_frames(old(self).frames@),
            r.0.start == old(self).start && r.0.end == old(self).end && r.0.byte_len == old(self).byte_len,
            r.0.flag == old(self).flag,
            r.0.status == SegmentStatus::Initialized,
            final(self).status == old(self).status,
            final(self).start == old(self).start && final(self).end == old(self).end,
            final(self).flag == old(self).flag && final(self).byte_len == old(self).byte_len,
            old(self).wf() ==> final(self).wf() && r.0.wf(),
    {
        let (frames, ops) = share_frames(&self.frames, read_only_flag(self.flag));
        let child = ManagedSegment {
            start: self.start,
            end: self.end,
            byte_len: self.byte_len,
            frames: copy_frames(&frames),
            flag: self.flag,
            status: SegmentStatus::Initialized,
        };
        self.frames = frames;
        (child, ops)
    }

    /// Handles a fault on page `vpn`: a page not backed yet gets a new page;
    /// a shared page, when the segment is writable, becomes its own (kept
    /// when this segment is its `only_holder`, else copied into a new page);
    /// a page of its own faults for real (`EPERM`), and so does a shared page
    /// of a read-only segment; `EOOR` for a page outside the segment.  New
    /// pages come from `alloc`, which must have one free when one is needed.
    pub fn do_lazy(&mut self, vpn: usize, alloc: &mut BitMapPageAllocator, only_holder: bool) -> (r: Result<Vec<PtOp>, ErrorNum>)
        requires
            old(self).wf(),
            old(alloc).wf(),
            old(self).start <= vpn < old(self).end ==> (position(old(self).frames@, vpn) matches Some(i) && {
                let s = old(self).frames@[i].1;
                &&& !(s is Unmapped) && !(s is LazyVMA)
                &&& needs_page(s, only_holder) && fault_refusal(s, old(self).flag) is None ==> exists|k: int|
                    0 <= k < old(alloc)@.fs.len() && !old(alloc)@.fs[k]
            }),
        ensures
            final(self).wf(),
            final(alloc).wf(),
            final(self).start == old(self).start && final(self).end == old(self).end,
            final(self).flag == old(self).flag && final(self).byte_len == old(self).byte_len,
            final(self).status == old(self).status,
            !(old(self).start <= vpn < old(self).end) ==> r == Err::<Vec<PtOp>, ErrorNum>(ErrorNum::EOOR)
                && final(self).frames@ == old(self).frames@ && final(alloc)@ == old(alloc)@,
            old(self).start <= vpn < old(self).end ==> ({
                let i = position(old(self).frames@, vpn)->Some_0;
                let s = old(self).frames@[i].1;
                match fault_refusal(s, old(self).flag) {
                    Some(e) => r == Err::<Vec<PtOp>, ErrorNum>(e) && final(self).frames@ == old(self).frames@
                        && final(alloc)@ == old(alloc)@,
                    None => if needs_page(s, only_holder) {
                        final(self).frames@[i].1 is Populated && {
                            let q = final(self).frames@[i].1->Populated_0;
                            let k = q.0 - old(alloc).base_of().0;
                            &&& 0 <= k < old(alloc)@.fs.len() && !old(alloc)@.fs[k]
                            &&& final(alloc)@.fs == old(alloc)@.fs.update(k, true)
                            &&& r matches Ok(ops) && (final(self).frames@[i].1, ops@) == fault_result(
                                vpn,
                                s,
                                old(self).flag,
                                only_holder,
                                q,
                                q,
                            )
                            &&& final(self).frames@ == with_slot(old(self).frames@, i, final(self).frames@[i].1)
                        }
                    } else {
                        final(alloc)@ == old(alloc)@ && (r matches Ok(ops) && (final(self).frames@[i].1, ops@)
                            == fault_result(vpn, s, old(self).flag, only_holder, PhysPageNum(0), PhysPageNum(0)))
                            && final(self).frames@ == with_slot(old(self).frames@, i, final(self).frames@[i].1)
                    },
                }
            }),
    {
        if !(self.start <= vpn && vpn < self.end) {
            return Err(ErrorNum::EOOR);
        }
        let i = match find(&self.frames, vpn) {
            Some(i) => i,
            None => {
                proof {
                    assert(false);
                }
                return Err(ErrorNum::EOOR);
            },
        };
        let slot = self.frames[i].1;
        let flag = self.flag;
        let res = fault_slot(vpn, slot, flag, only_holder, alloc, PhysPageNum(0));
        match res {
            Err(e) => Err(e),
            Ok((s, ops)) => {
                self.frames.set(i, (vpn, s));
                proof {
                    assert(ordered(self.frames@)) by {
                        assert forall|a: int, b: int| 0 <= a < b < self.frames@.len() implies self.frames@[a].0 < self.frames@[b].0 by {
                            assert(old(self).frames@[a].0 < old(self).frames@[b].0);
                        }
                    }
                }
                Ok(ops)
            },
        }
    }

    /// Gives the segment the flags `flag`, returning the flags it had; each
    /// page of its own is remapped with them.  The segment must be mapped
    /// and hold no unmapped slot and no file page.
    pub fn alter_permission(&mut self, flag: usize) -> (r: (usize, Vec<PtOp>))
        requires
            old(self).status == SegmentStatus::Mapped,
            forall|i: int| 0 <= i < old(self).frames@.len() ==> !(#[trigger] old(self).frames@[i].1 is Unmapped)
                && !(old(self).frames@[i].1 is LazyVMA),
        ensures
            r.0 == old(self).flag,
            r.1@ == populated_remaps(old(self).frames@, flag),
            final(self).flag == flag,
            final(self).frames@ == old(self).frames@,
            final(self).status == old(self).status,
            final(self).start == old(self).start && final(self).end == old(self).end,
            final(self).byte_len == old(self).byte_len,
    {
        let before = self.flag;
        self.flag = flag;
        let ops = populated_remap_ops(&self.frames, flag);
        (before, ops)
    }

    /// The address just past the bytes of the segment.
    pub fn get_end_va(&self) -> (r: VirtAddr)
        requires
            self.start * 4096 + self.byte_len <= usize::MAX,
        ensures
            r.0 == self.start * 4096 + self.byte_len,
    {
        VirtAddr(self.start * 4096 + self.byte_len)
    }

    /// Grows the segment by `increment` bytes: from its end on, a page not
    /// backed yet is put in while it is not past the page just after the new
    /// last byte, replacing a slot that is there; the end moves past the last
    /// page put in.  Gives the new end address.
    pub fn grow(&mut self, increment: usize) -> (r: VirtAddr)
        requires
            old(self).wf(),
            forall|k: int| 0 <= k < old(self).frames@.len() ==> (#[trigger] old(self).frames@[k]).0 <= old(self).end,
            old(self).start * 4096 + old(self).byte_len + increment + 4096 <= usize::MAX,
        ensures
            final(self).wf(),
            r.0 == old(self).start * 4096 + old(self).byte_len + increment,
            final(self).byte_len == old(self).byte_len + increment,
            final(self).end == if page_ceil(r.0) >= old(self).end {
                page_ceil(r.0) + 1
            } else {
                old(self).end as int
            },
            final(self).frames@ == grown(old(self).frames@, old(self).end, final(self).end),
            forall|k: int| 0 <= k < final(self).frames@.len() ==> (#[trigger] final(self).frames@[k]).0 <= final(self).end,
            final(self).start == old(self).start,
            final(self).flag == old(self).flag,
            final(self).status == old(self).status,
    {
        let tgt = VirtAddr(self.start * 4096 + self.byte_len + increment);
        let ceil = tgt.to_vpn_ceil();
        let ghost first = self.frames@;
        let ghost end0 = self.end;
        let mut map_iter = self.end;
        if ceil.0 >= map_iter {
            let n = self.frames.len();
            if n > 0 && self.frames[n - 1].0 == map_iter {
                self.frames.set(n - 1, (map_iter, PageSlot::LazyAlloc));
            } else {
                self.frames.push((map_iter, PageSlot::LazyAlloc));
            }
            map_iter = map_iter + 1;
            proof {
                assert(self.frames@ =~= grown(first, end0, map_iter));
                assert forall|a: int, b: int| 0 <= a < b < self.frames@.len() implies self.frames@[a].0 < self.frames@[b].0 by {
                    if b < first.len() - 1 || (b == first.len() - 1 && !(first.last().0 == end0)) {
                        assert(first[a].0 < first[b].0);
                    } else if a < first.len() {
                        assert(first[a].0 <= end0);
                        if first.len() > 0 && first.last().0 == end0 && a == first.len() - 1 {
                        } else if first.len() > 0 && first.last().0 == end0 {
                            assert(first[a].0 < first[first.len() - 1].0);
                        }
                    }
                }
            }
            while ceil.0 >= map_iter
                invariant
                    ceil.0 == page_ceil(tgt.0),
                    ceil.0 < usize::MAX,
                    end0 < map_iter <= ceil.0 + 1,
                    self.frames@ == grown(first, end0, map_iter),
                    ordered(self.frames@),
                    forall|k: int| 0 <= k < self.frames@.len() ==> (#[trigger] self.frames@[k]).0 < map_iter,
                    self.start == old(self).start,
                    self.byte_len == old(self).byte_len,
                    self.end == old(self).end,
                    self.flag == old(self).flag,
                    self.status == old(self).status,
                    tgt.0 == old(self).start * 4096 + old(self).byte_len + increment,
                    old(self).start * 4096 + old(self).byte_len + increment + 4096 <= usize::MAX,
                decreases ceil.0 + 1 - map_iter,
            {
                self.frames.push((map_iter, PageSlot::LazyAlloc));
                proof {
                    assert(self.frames@ =~= grown(first, end0, (map_iter + 1) as usize));
                }
                map_iter = map_iter + 1;
            }
        }
        self.byte_len = self.byte_len + increment;
        self.end = map_iter;
        VirtAddr(self.start * 4096 + self.byte_len)
    }

    /// The slot of page `vpn`, if it is one of the segment's.
    pub fn slot(&self, vpn: usize) -> (r: Option<PageSlot>)
        ensures
            match position(self.frames@, vpn) {
                None => r is None,
                Some(_) => r is Some && (exists|i: int| 0 <= i < self.frames@.len() && self.frames@[i].0 == vpn
                    && r == Some(self.frames@[i].1)),
            },
    {
        match find(&self.frames, vpn) {
            Some(i) => Some(self.frames[i].1),
            None => None,
        }
    }
}

/// A segment that maps a file: each page gets the file's page at its first
/// fault, and pages are shared copy-on-write with children.
pub struct VMASegment {
    pub frames: Vec<(usize, PageSlot)>,
    pub flag: usize,
    pub status: SegmentStatus,
    pub start_vpn: usize,
}

/// The pages from `start` up to `end`, page `start + i` waiting for the page
/// of `file` at byte `offset + i * 4096`.
pub open spec fn file_run(start: usize, end: usize, file: usize, offset: usize) -> Seq<(usize, PageSlot)> {
    Seq::new((end - start) as nat, |i: int| ((start + i) as usize, PageSlot::LazyVMA(file, (offset + i * 4096) as usize)))
}

impl VMASegment {
    /// Its slots are ordered by page.
    pub open spec fn wf(&self) -> bool {
        ordered(self.frames@)
    }

    /// A segment at page `start_vpn` of the `length` bytes of `file` from
    /// byte `file_offset` on: one page for each page those bytes reach,
    /// counted as `to_vpn_ceil` counts (an address of 0 counts as page 1).
    pub fn new_at(start_vpn: usize, file: usize, flag: usize, file_offset: usize, length: usize) -> (r: VMASegment)
        requires
            start_vpn * 4096 + length <= usize::MAX,
            file_offset + (page_ceil((start_vpn * 4096 + length) as usize) - start_vpn) * 4096 <= usize::MAX,
        ensures
            r.wf(),
            r.start_vpn == start_vpn && r.flag == flag && r.status == SegmentStatus::Initialized,
            r.frames@ == file_run(
                start_vpn,
                if page_ceil((start_vpn * 4096 + length) as usize) > start_vpn {
                    page_ceil((start_vpn * 4096 + length) as usize) as usize
                } else {
                    start_vpn
                },
                file,
                file_offset,
            ),
    {
        let end = VirtAddr(start_vpn * 4096 + length).to_vpn_ceil().0;
        let ghost stop: usize = if end > start_vpn { end } else { start_vpn };
        let mut frames: Vec<(usize, PageSlot)> = Vec::new();
        let mut v = start_vpn;
        while v < end
            invariant
                start_vpn <= v,
                v <= stop,
                stop == if end > start_vpn { end } else { start_vpn },
                end == page_ceil((start_vpn * 4096 + length) as usize),
                file_offset + (end - start_vpn) * 4096 <= usize::MAX,
                frames@ == file_run(start_vpn, v, file, file_offset),
            decreases end - v,
        {
            frames.push((v, PageSlot::LazyVMA(file, file_offset + (v - start_vpn) * 4096)));
            proof {
                assert(frames@ =~= file_run(start_vpn, (v + 1) as usize, file, file_offset));
            }
            v = v + 1;
        }
        VMASegment { frames, flag, status: SegmentStatus::Initialized, start_vpn }
    }

    /// Whether `vpn` is one of its pages.
    pub fn contains(&self, vpn: usize) -> (r: bool)
        ensures
            r == (position(self.frames@, vpn) is Some),
    {
        find(&self.frames, vpn).is_some()
    }

    /// Maps the segment: the pages it shares copy-on-write are mapped
    /// read-only; `EMMAPED` when it is mapped or unmapped already.
    pub fn do_map(&mut self) -> (r: Result<Vec<PtOp>, ErrorNum>)
        ensures
            old(self).status != SegmentStatus::Initialized ==> r == Err::<Vec<PtOp>, ErrorNum>(ErrorNum::EMMAPED)
                && *final(self) == *old(self),
            old(self).status == SegmentStatus::Initialized ==> (r matches Ok(ops) && ops@ == cow_maps(
                old(self).frames@,
                old(self).flag,
            )) && final(self).status == SegmentStatus::Mapped && final(self).frames@ == old(self).frames@
                && final(self).flag == old(self).flag && final(self).start_vpn == old(self).start_vpn,
    {
        if self.status != SegmentStatus::Initialized {
            return Err(ErrorNum::EMMAPED);
        }
        let ops = cow_map_ops(&self.frames, self.flag);
        self.status = SegmentStatus::Mapped;
        Ok(ops)
    }

    /// Unmaps the segment: each of its pages is unmapped and its slots are
    /// dropped; `ENOSEG` when it is not mapped.
    pub fn do_unmap(&mut self) -> (r: Result<Vec<PtOp>, ErrorNum>)
        ensures
            old(self).status != SegmentStatus::Mapped ==> r == Err::<Vec<PtOp>, ErrorNum>(ErrorNum::ENOSEG)
                && *final(self) == *old(self),
            old(self).status == SegmentStatus::Mapped ==> (r matches Ok(ops) && ops@ == unmaps(keys(old(self).frames@)))
                && final(self).frames@.len() == 0 && final(self).status == SegmentStatus::Zombie
                && final(self).flag == old(self).flag && final(self).start_vpn == old(self).start_vpn,
    {
        if self.status != SegmentStatus::Mapped {
            return Err(ErrorNum::ENOSEG);
        }
        let mut ops: Vec<PtOp> = Vec::new();
        let mut i: usize = 0;
        while i < self.frames.len()
            invariant
                i <= self.frames@.len(),
                ops@ == unmaps(keys(self.frames@).take(i as int)),
            decreases self.frames@.len() - i,
        {
            ops.push(PtOp::UnmapPage(self.frames[i].0));
            proof {
                assert(ops@ =~= unmaps(keys(self.frames@).take(i + 1)));
            }
            i = i + 1;
        }
        proof {
            assert(keys(self.frames@).take(self.frames@.len() as int) =~= keys(self.frames@));
        }
        self.frames = Vec::new();
        self.status = SegmentStatus::Zombie;
        Ok(ops)
    }

    /// Copies the segment for a child process: every page of its own becomes
    /// shared copy-on-write, here and in the copy, and is remapped read-only
    /// here; the copy is not mapped yet.  No slot may be unmapped.
    pub fn clone_seg(&mut self) -> (r: (VMASegment, Vec<PtOp>))
        requires
            forall|i: int| 0 <= i < old(self).frames@.len() ==> !(#[trigger] old(self).frames@[i].1 is Unmapped),
        ensures
            final(self).frames@ == shared_frames(old(self).frames@),
            r.1@ == populated_remaps(old(self).frames@, read_only(old(self).flag)),
            r.0.frames@ == shared_frames(old(self).frames@),
            r.0.flag == old(self).flag && r.0.start_vpn == old(self).start_vpn,
            r.0.status == SegmentStatus::Initialized,
            final(self).status == old(self).status,
            final(self).flag == old(self).flag && final(self).start_vpn == old(self).start_vpn,
            old(self).wf() ==> final(self).wf() && r.0.wf(),
    {
        let (frames, ops) = share_frames(&self.frames, read_only_flag(self.flag));
        let child = VMASegment {
            frames: copy_frames(&frames),
            flag: self.flag,
            status: SegmentStatus::Initialized,
            start_vpn: self.start_vpn,
        };
        self.frames = frames;
        (child, ops)
    }

    /// Handles a fault on page `vpn`: a page not backed yet gets a new page
    /// from `alloc`; a file page gets `file_page`, what the file gives for it
    /// (its error is passed on); a shared page, when the segment is
    /// writable, becomes its own (kept when this segment is its
    /// `only_holder`, else copied into a new page); an unmapped page or a
    /// page of its own faults for real (`EPERM`), and so does a shared page
    /// of a read-only segment; `EOOR` for a page that is not the segment's.
    pub fn do_lazy(
        &mut self,
        vpn: usize,
        alloc: &mut BitMapPageAllocator,
        only_holder: bool,
        file_page: Result<PhysPageNum, ErrorNum>,
    ) -> (r: Result<Vec<PtOp>, ErrorNum>)
        requires
            old(self).wf(),
            old(alloc).wf(),
            position(old(self).frames@, vpn) matches Some(i) ==> ({
                let s = old(self).frames@[i].1;
                needs_page(s, only_holder) && fault_refusal(s, old(self).flag) is None ==> exists|k: int|
                    0 <= k < old(alloc)@.fs.len() && !old(alloc)@.fs[k]
            }),
        ensures
            final(self).wf(),
            final(alloc).wf(),
            final(self).flag == old(self).flag && final(self).start_vpn == old(self).start_vpn,
            final(self).status == old(self).status,
            position(old(self).frames@, vpn) is None ==> r == Err::<Vec<PtOp>, ErrorNum>(ErrorNum::EOOR)
                && final(self).frames@ == old(self).frames@ && final(alloc)@ == old(alloc)@,
            position(old(self).frames@, vpn) matches Some(i) ==> ({
                let s = old(self).frames@[i].1;
                match fault_refusal(s, old(self).flag) {
                    Some(e) => r == Err::<Vec<PtOp>, ErrorNum>(e) && final(self).frames@ == old(self).frames@
                        && final(alloc)@ == old(alloc)@,
                    None => if s is LazyVMA && file_page is Err {
                        r == Err::<Vec<PtOp>, ErrorNum>(file_page->Err_0) && final(self).frames@ == old(self).frames@
                            && final(alloc)@ == old(alloc)@
                    } else if needs_page(s, only_holder) {
                        final(self).frames@[i].1 is Populated && {
                            let q = final(self).frames@[i].1->Populated_0;
                            let k = q.0 - old(alloc).base_of().0;
                            &&& 0 <= k < old(alloc)@.fs.len() && !old(alloc)@.fs[k]
                            &&& final(alloc)@.fs == old(alloc)@.fs.update(k, true)
                            &&& r matches Ok(ops) && (final(self).frames@[i].1, ops@) == fault_result(
                                vpn,
                                s,
                                old(self).flag,
                                only_holder,
                                q,
                                q,
                            )
                            &&& final(self).frames@ == with_slot(old(self).frames@, i, final(self).frames@[i].1)
                        }
                    } else {
                        final(alloc)@ == old(alloc)@ && (r matches Ok(ops) && (final(self).frames@[i].1, ops@)
                            == fault_result(
                            vpn,
                            s,
                            old(self).flag,
                            only_holder,
                            PhysPageNum(0),
                            match file_page {
                                Ok(p) => p,
                                Err(_) => PhysPageNum(0),
                            },
                        )) && final(self).frames@ == with_slot(old(self).frames@, i, final(self).frames@[i].1)
                    },
                }
            }),
    {
        let i = match find(&self.frames, vpn) {
            Some(i) => i,
            None => {
                return Err(ErrorNum::EOOR);
            },
        };
        let slot = self.frames[i].1;
        let fp = match slot {
            PageSlot::LazyVMA(_, _) => match file_page {
                Ok(p) => p,
                Err(e) => {
                    return Err(e);
                },
            },
            _ => PhysPageNum(0),
        };
        let flag = self.flag;
        match fault_slot(vpn, slot, flag, only_holder, alloc, fp) {
            Err(e) => Err(e),
            Ok((s, ops)) => {
                self.frames.set(i, (vpn, s));
                proof {
                    assert forall|a: int, b: int| 0 <= a < b < self.frames@.len() implies self.frames@[a].0 < self.frames@[b].0 by {
                        assert(old(self).frames@[a].0 < old(self).frames@[b].0);
                    }
                }
                Ok(ops)
            },
        }
    }

    /// The slot of page `vpn`, if it is one of the segment's.
    pub fn slot(&self, vpn: usize) -> (r: Option<PageSlot>)
        ensures
            r is Some <==> position(self.frames@, vpn) is Some,
            r matches Some(s) ==> exists|i: int| 0 <= i < self.frames@.len() && self.frames@[i].0 == vpn && s == self.frames@[i].1,
    {
        match find(&self.frames, vpn) {
            Some(i) => Some(self.frames[i].1),
            None => None,
        }
    }
}

/// The first page of a process's user stack.
pub open spec fn ustack_start() -> usize {
    (PROC_U_STACK_ADDR / 4096) as usize
}

/// The page just past a process's user stack.
pub open spec fn ustack_end() -> usize {
    ((PROC_U_STACK_ADDR + PROC_U_STACK_SIZE) / 4096) as usize
}

/// What a fault on a slot of the user stack does, when it is not refused:
/// the slot it leaves and the operations it asks for, `new_page` being the
/// page taken when one is needed.
pub open spec fn ustack_fault(vpn: usize, slot: PageSlot, only_holder: bool, new_page: PhysPageNum) -> (PageSlot, Seq<PtOp>) {
    match slot {
        PageSlot::LazyAlloc => (PageSlot::Populated(new_page), seq![PtOp::MapPage(vpn, new_page, SEG_R | SEG_W | SEG_U)]),
        PageSlot::CopyOnWrite(p) => if only_holder {
            (PageSlot::Populated(p), seq![PtOp::ForceMapPage(vpn, p, SEG_R | SEG_W | SEG_U)])
        } else {
            (
                PageSlot::Populated(new_page),
                seq![PtOp::CopyPage(p, new_page), PtOp::ForceMapPage(vpn, new_page, SEG_R | SEG_W | SEG_U)],
            )
        },
        _ => (slot, seq![]),
    }
}

/// The user stack of a process: its pages, from `ustack_start` up to
/// `ustack_end`, get a page at their first fault and are shared
/// copy-on-write with children.
pub struct ProcUStackSegment {
    pub frames: Vec<(usize, PageSlot)>,
    pub status: SegmentStatus,
}

impl ProcUStackSegment {
    /// Its slots are ordered by page.
    pub open spec fn wf(&self) -> bool {
        ordered(self.frames@)
    }

    /// A user stack none of whose pages is backed yet.
    pub fn new() -> (r: ProcUStackSegment)
        ensures
            r.wf(),
            r.frames@ == lazy_run(ustack_start(), ustack_end()),
            r.status == SegmentStatus::Initialized,
    {
        let m = ManagedSegment::new(PROC_U_STACK_ADDR / 4096, (PROC_U_STACK_ADDR + PROC_U_STACK_SIZE) / 4096, 0, 0);
        ProcUStackSegment { frames: m.frames, status: SegmentStatus::Initialized }
    }

    /// Whether `vpn` is a page of the stack.
    pub fn contains(&self, vpn: usize) -> (r: bool)
        ensures
            r == (ustack_start() <= vpn < ustack_end()),
    {
        PROC_U_STACK_ADDR / 4096 <= vpn && vpn < (PROC_U_STACK_ADDR + PROC_U_STACK_SIZE) / 4096
    }

    /// Maps the stack: the pages it shares copy-on-write are mapped
    /// readable from user mode; `EMMAPED` when it is mapped or unmapped already.
    pub fn do_map(&mut self) -> (r: Result<Vec<PtOp>, ErrorNum>)
        ensures
            old(self).status != SegmentStatus::Initialized ==> r == Err::<Vec<PtOp>, ErrorNum>(ErrorNum::EMMAPED)
                && *final(self) == *old(self),
            old(self).status == SegmentStatus::Initialized ==> (r matches Ok(ops) && ops@ == cow_maps(
                old(self).frames@,
                SEG_R | SEG_U,
            )) && final(self).status == SegmentStatus::Mapped && final(self).frames@ == old(self).frames@,
    {
        if self.status != SegmentStatus::Initialized {
            return Err(ErrorNum::EMMAPED);
        }
        let ops = cow_map_ops(&self.frames, SEG_R | SEG_U);
        self.status = SegmentStatus::Mapped;
        Ok(ops)
    }

    /// Unmaps every page of the stack; its slots become unmapped and the
    /// stack is done.
    pub fn do_unmap(&mut self) -> (r: Vec<PtOp>)
        ensures
            r@ == unmaps(Seq::new((ustack_end() - ustack_start()) as nat, |i: int| (ustack_start() + i) as usize)),
            final(self).status == SegmentStatus::Zombie,
            final(self).frames@ == Seq::new(old(self).frames@.len(), |i: int| (old(self).frames@[i].0, PageSlot::Unmapped)),
            old(self).wf() ==> final(self).wf(),
    {
        let mut m = ManagedSegment {
            start: PROC_U_STACK_ADDR / 4096,
            end: (PROC_U_STACK_ADDR + PROC_U_STACK_SIZE) / 4096,
            byte_len: 0,
            frames: Vec::new(),
            flag: 0,
            status: SegmentStatus::Mapped,
        };
        let ops = m.do_unmap();
        let mut out: Vec<(usize, PageSlot)> = Vec::new();
        let mut i: usize = 0;
        while i < self.frames.len()
            invariant
                i <= self.frames@.len(),
                out@ == Seq::new(i as nat, |k: int| (self.frames@[k].0, PageSlot::Unmapped)),
            decreases self.frames@.len() - i,
        {
            out.push((self.frames[i].0, PageSlot::Unmapped));
            proof {
                assert(out@ =~= Seq::new((i + 1) as nat, |k: int| (self.frames@[k].0, PageSlot::Unmapped)));
            }
            i = i + 1;
        }
        proof {
            if ordered(self.frames@) {
                assert forall|a: int, b: int| 0 <= a < b < out@.len() implies out@[a].0 < out@[b].0 by {
                    assert(self.frames@[a].0 < self.frames@[b].0);
                }
            }
        }
        self.frames = out;
        self.status = SegmentStatus::Zombie;
        ops
    }

    /// Copies the stack for a child: every page of its own becomes shared
    /// copy-on-write, here and in the copy, and is remapped read-only here.
    /// No slot may be unmapped or wait for a file.
    pub fn clone_seg(&mut self) -> (r: (ProcUStackSegment, Vec<PtOp>))
        requires
            forall|i: int| 0 <= i < old(self).frames@.len() ==> !(#[trigger] old(self).frames@[i].1 is Unmapped)
                && !(old(self).frames@[i].1 is LazyVMA),
        ensures
            final(self).frames@ == shared_frames(old(self).frames@),
            r.1@ == populated_remaps(old(self).frames@, SEG_R | SEG_U),
            r.0.frames@ == shared_frames(old(self).frames@),
            r.0.status == SegmentStatus::Initialized,
            final(self).status == old(self).status,
            old(self).wf() ==> final(self).wf() && r.0.wf(),
    {
        let (frames, ops) = share_frames(&self.frames, SEG_R | SEG_U);
        let child = ProcUStackSegment { frames: copy_frames(&frames), status: SegmentStatus::Initialized };
        self.frames = frames;
        (child, ops)
    }

    /// Handles a fault on page `vpn`: a page not backed yet gets a new page;
    /// a shared page becomes its own (kept when this stack is its
    /// `only_holder`, else copied into a new page) and is mapped writable
    /// over what the table held; a page of its own faults for real
    /// (`EPERM`); `EOOR` for a page that is not the stack's.  New pages come
    /// from `alloc`, which must have one free when one is needed.  No slot
    /// of the stack is unmapped or waits for a file.
    pub fn do_lazy(&mut self, vpn: usize, alloc: &mut BitMapPageAllocator, only_holder: bool) -> (r: Result<Vec<PtOp>, ErrorNum>)
        requires
            old(self).wf(),
            old(alloc).wf(),
            position(old(self).frames@, vpn) matches Some(i) ==> ({
                let s = old(self).frames@[i].1;
                &&& !(s is Unmapped) && !(s is LazyVMA)
                &&& needs_page(s, only_holder) ==> exists|k: int| 0 <= k < old(alloc)@.fs.len() && !old(alloc)@.fs[k]
            }),
        ensures
            final(self).wf(),
            final(alloc).wf(),
            final(self).status == old(self).status,
            position(old(self).frames@, vpn) is None ==> r == Err::<Vec<PtOp>, ErrorNum>(ErrorNum::EOOR)
                && final(self).frames@ == old(self).frames@ && final(alloc)@ == old(alloc)@,
            position(old(self).frames@, vpn) matches Some(i) ==> ({
                let s = old(self).frames@[i].1;
                if s is Populated {
                    r == Err::<Vec<PtOp>, ErrorNum>(ErrorNum::EPERM) && final(self).frames@ == old(self).frames@
                        && final(alloc)@ == old(alloc)@
                } else if needs_page(s, only_holder) {
                    final(self).frames@[i].1 is Populated && {
                        let q = final(self).frames@[i].1->Populated_0;
                        let k = q.0 - old(alloc).base_of().0;
                        &&& 0 <= k < old(alloc)@.fs.len() && !old(alloc)@.fs[k]
                        &&& final(alloc)@.fs == old(alloc)@.fs.update(k, true)
                        &&& r matches Ok(ops) && (final(self).frames@[i].1, ops@) == ustack_fault(vpn, s, only_holder, q)
                        &&& final(self).frames@ == with_slot(old(self).frames@, i, final(self).frames@[i].1)
                    }
                } else {
                    final(alloc)@ == old(alloc)@ && (r matches Ok(ops) && (final(self).frames@[i].1, ops@)
                        == ustack_fault(vpn, s, only_holder, PhysPageNum(0)))
                        && final(self).frames@ == with_slot(old(self).frames@, i, final(self).frames@[i].1)
                }
            }),
    {
        let i = match find(&self.frames, vpn) {
            Some(i) => i,
            None => {
                return Err(ErrorNum::EOOR);
            },
        };
        let slot = self.frames[i].1;
        let (s, ops) = match slot {
            PageSlot::LazyAlloc => {
                let q = take_page(alloc);
                (PageSlot::Populated(q), vec![PtOp::MapPage(vpn, q, SEG_R | SEG_W | SEG_U)])
            },
            PageSlot::Populated(_) => {
                return Err(ErrorNum::EPERM);
            },
            PageSlot::CopyOnWrite(p) => {
                if only_holder {
                    (PageSlot::Populated(p), vec![PtOp::ForceMapPage(vpn, p, SEG_R | SEG_W | SEG_U)])
                } else {
                    let q = take_page(alloc);
                    (PageSlot::Populated(q), vec![PtOp::CopyPage(p, q), PtOp::ForceMapPage(vpn, q, SEG_R | SEG_W | SEG_U)])
                }
            },
            _ => {
                proof {
                    assert(false);
                }
                return Err(ErrorNum::EPERM);
            },
        };
        self.frames.set(i, (vpn, s));
        proof {
            assert forall|a: int, b: int| 0 <= a < b < self.frames@.len() implies self.frames@[a].0 < self.frames@[b].0 by {
                assert(old(self).frames@[a].0 < old(self).frames@[b].0);
            }
        }
        Ok(ops)
    }
}

/// The segment of the trampoline, at the last page, mapped to the page of
/// the trampoline code, readable and executable.
pub struct TrampolineSegment {
    pub status: SegmentStatus,
}

/// The segment of the user-mode trampoline, below the trampoline, mapped
/// to the page of its code, readable and executable from user mode.
pub struct UTrampolineSegment {
    pub status: SegmentStatus,
}

impl TrampolineSegment {
    /// Not mapped yet.
    pub fn new() -> (r: Self)
        ensures
            r.status == SegmentStatus::Initialized,
    {
        TrampolineSegment { status: SegmentStatus::Initialized }
    }

    /// Maps the trampoline page to `code`, the page of the trampoline code;
    /// `EMMAPED` when it is mapped already.
    pub fn do_map(&mut self, code: PhysPageNum) -> (r: Result<PtOp, ErrorNum>)
        ensures
            old(self).status != SegmentStatus::Initialized ==> r == Err::<PtOp, ErrorNum>(ErrorNum::EMMAPED)
                && final(self).status == old(self).status,
            old(self).status == SegmentStatus::Initialized ==> r == Ok::<PtOp, ErrorNum>(
                PtOp::MapPage((TRAMPOLINE_ADDR / 4096) as usize, code, SEG_R | SEG_X),
            ) && final(self).status == SegmentStatus::Mapped,
    {
        if self.status != SegmentStatus::Initialized {
            return Err(ErrorNum::EMMAPED);
        }
        self.status = SegmentStatus::Mapped;
        Ok(PtOp::MapPage(TRAMPOLINE_ADDR / 4096, code, SEG_R | SEG_X))
    }

    /// Whether `vpn` is the trampoline page.
    pub fn contains(&self, vpn: usize) -> (r: bool)
        ensures
            r == (vpn == TRAMPOLINE_ADDR / 4096),
    {
        vpn == TRAMPOLINE_ADDR / 4096
    }

    /// A fault on the trampoline page is a real one (`EPERM`); `EOOR` for any other page.
    pub fn do_lazy(&self, vpn: usize) -> (r: Result<(), ErrorNum>)
        ensures
            vpn == TRAMPOLINE_ADDR / 4096 ==> r == Err::<(), ErrorNum>(ErrorNum::EPERM),
            vpn != TRAMPOLINE_ADDR / 4096 ==> r == Err::<(), ErrorNum>(ErrorNum::EOOR),
    {
        if vpn == TRAMPOLINE_ADDR / 4096 {
            Err(ErrorNum::EPERM)
        } else {
            Err(ErrorNum::EOOR)
        }
    }
}

impl UTrampolineSegment {
    /// Not mapped yet.
    pub fn new() -> (r: Self)
        ensures
            r.status == SegmentStatus::Initialized,
    {
        UTrampolineSegment { status: SegmentStatus::Initialized }
    }

    /// Maps the user-mode trampoline page to `code`, the page of its code;
    /// `EMMAPED` when it is mapped already.
    pub fn do_map(&mut self, code: PhysPageNum) -> (r: Result<PtOp, ErrorNum>)
        ensures
            old(self).status != SegmentStatus::Initialized ==> r == Err::<PtOp, ErrorNum>(ErrorNum::EMMAPED)
                && final(self).status == old(self).status,
            old(self).status == SegmentStatus::Initialized ==> r == Ok::<PtOp, ErrorNum>(
                PtOp::MapPage((U_TRAMPOLINE_ADDR / 4096) as usize, code, SEG_R | SEG_X | SEG_U),
            ) && final(self).status == SegmentStatus::Mapped,
    {
        if self.status != SegmentStatus::Initialized {
            return Err(ErrorNum::EMMAPED);
        }
        self.status = SegmentStatus::Mapped;
        Ok(PtOp::MapPage(U_TRAMPOLINE_ADDR / 4096, code, SEG_R | SEG_X | SEG_U))
    }

    /// Whether `vpn` is the user-mode trampoline page.
    pub fn contains(&self, vpn: usize) -> (r: bool)
        ensures
            r == (vpn == U_TRAMPOLINE_ADDR / 4096),
    {
        vpn == U_TRAMPOLINE_ADDR / 4096
    }

    /// A fault on the user-mode trampoline page is a real one (`EPERM`);
    /// `EOOR` for any other page.
    pub fn do_lazy(&self, vpn: usize) -> (r: Result<(), ErrorNum>)
        ensures
            vpn == U_TRAMPOLINE_ADDR / 4096 ==> r == Err::<(), ErrorNum>(ErrorNum::EPERM),
            vpn != U_TRAMPOLINE_ADDR / 4096 ==> r == Err::<(), ErrorNum>(ErrorNum::EOOR),
    {
        if vpn == U_TRAMPOLINE_ADDR / 4096 {
            Err(ErrorNum::EPERM)
        } else {
            Err(ErrorNum::EOOR)
        }
    }
}

/// A copy of the slots.
fn copy_frames(frames: &Vec<(usize, PageSlot)>) -> (r: Vec<(usize, PageSlot)>)
    ensures
        r@ == frames@,
{
    let mut out: Vec<(usize, PageSlot)> = Vec::new();
    let mut i: usize = 0;
    while i < frames.len()
        invariant
            i <= frames@.len(),
            out@ == frames@.take(i as int),
        decreases frames@.len() - i,
    {
        out.push(frames[i]);
        proof {
            assert(out@ =~= frames@.take(i + 1));
        }
        i = i + 1;
    }
    proof {
        assert(frames@.take(frames@.len() as int) =~= frames@);
    }
    out
}

/// The flags without the write permission.
fn read_only_flag(flag: usize) -> (r: usize)
    ensures
        r == read_only(flag),
{
    flag & !SEG_W
}

/// The maps of `cow_maps`.
fn cow_map_ops(frames: &Vec<(usize, PageSlot)>, flag: usize) -> (r: Vec<PtOp>)
    ensures
        r@ == cow_maps(frames@, flag),
{
    let ro = read_only_flag(flag);
    let mut ops: Vec<PtOp> = Vec::new();
    let mut i: usize = 0;
    while i < frames.len()
        invariant
            i <= frames@.len(),
            ro == read_only(flag),
            ops@ == cow_maps(frames@.take(i as int), flag),
        decreases frames@.len() - i,
    {
        proof {
            assert(frames@.take(i + 1).drop_last() =~= frames@.take(i as int));
        }
        if let PageSlot::CopyOnWrite(p) = frames[i].1 {
            ops.push(PtOp::MapPage(frames[i].0, p, ro));
        }
        i = i + 1;
    }
    proof {
        assert(frames@.take(frames@.len() as int) =~= frames@);
    }
    ops
}

/// The remaps of `populated_remaps`.
fn populated_remap_ops(frames: &Vec<(usize, PageSlot)>, flag: usize) -> (r: Vec<PtOp>)
    ensures
        r@ == populated_remaps(frames@, flag),
{
    let mut ops: Vec<PtOp> = Vec::new();
    let mut i: usize = 0;
    while i < frames.len()
        invariant
            i <= frames@.len(),
            ops@ == populated_remaps(frames@.take(i as int), flag),
        decreases frames@.len() - i,
    {
        proof {
            assert(frames@.take(i + 1).drop_last() =~= frames@.take(i as int));
        }
        if let PageSlot::Populated(p) = frames[i].1 {
            ops.push(PtOp::RemapPage(frames[i].0, p, flag));
        }
        i = i + 1;
    }
    proof {
        assert(frames@.take(frames@.len() as int) =~= frames@);
    }
    ops
}

/// The slots after copying, and the remaps that copying asks for.
fn share_frames(frames: &Vec<(usize, PageSlot)>, flag: usize) -> (r: (Vec<(usize, PageSlot)>, Vec<PtOp>))
    ensures
        r.0@ == shared_frames(frames@),
        r.1@ == populated_remaps(frames@, flag),
        ordered(frames@) ==> ordered(r.0@),
{
    let mut out: Vec<(usize, PageSlot)> = Vec::new();
    let mut i: usize = 0;
    while i < frames.len()
        invariant
            i <= frames@.len(),
            out@ == shared_frames(frames@.take(i as int)),
        decreases frames@.len() - i,
    {
        let (v, s) = frames[i];
        let t = match s {
            PageSlot::Populated(p) => PageSlot::CopyOnWrite(p),
            _ => s,
        };
        out.push((v, t));
        proof {
            assert(out@ =~= shared_frames(frames@.take(i + 1)));
        }
        i = i + 1;
    }
    proof {
        assert(frames@.take(frames@.len() as int) =~= frames@);
    }
    let ops = populated_remap_ops(frames, flag);
    (out, ops)
}

/// A fault on `slot` of page `vpn` in a segment with flags `flag`: the
/// slot it leaves and the operations it asks for; `EPERM` when refused.
/// `file_page` is the page the file gives, for a file page.
fn fault_slot(
    vpn: usize,
    slot: PageSlot,
    flag: usize,
    only_holder: bool,
    alloc: &mut BitMapPageAllocator,
    file_page: PhysPageNum,
) -> (r: Result<(PageSlot, Vec<PtOp>), ErrorNum>)
    requires
        old(alloc).wf(),
        needs_page(slot, only_holder) && fault_refusal(slot, flag) is None ==> exists|k: int|
            0 <= k < old(alloc)@.fs.len() && !old(alloc)@.fs[k],
    ensures
        final(alloc).wf(),
        final(alloc).base_of() == old(alloc).base_of(),
        match fault_refusal(slot, flag) {
            Some(e) => r == Err::<(PageSlot, Vec<PtOp>), ErrorNum>(e) && final(alloc)@ == old(alloc)@,
            None => if needs_page(slot, only_holder) {
                r matches Ok((s, ops)) && s is Populated && {
                    let q = s->Populated_0;
                    let k = q.0 - old(alloc).base_of().0;
                    &&& 0 <= k < old(alloc)@.fs.len() && !old(alloc)@.fs[k]
                    &&& final(alloc)@.fs == old(alloc)@.fs.update(k, true)
                    &&& (s, ops@) == fault_result(vpn, slot, flag, only_holder, q, file_page)
                }
            } else {
                final(alloc)@ == old(alloc)@ && (r matches Ok((s, ops)) && (s, ops@) == fault_result(
                    vpn,
                    slot,
                    flag,
                    only_holder,
                    PhysPageNum(0),
                    file_page,
                ))
            },
        },
{
    match slot {
        PageSlot::Unmapped => Err(ErrorNum::EPERM),
        PageSlot::Populated(_) => Err(ErrorNum::EPERM),
        PageSlot::LazyVMA(_, _) => Ok((PageSlot::Populated(file_page), vec![PtOp::MapPage(vpn, file_page, flag)])),
        PageSlot::LazyAlloc => {
            let q = take_page(alloc);
            Ok((PageSlot::Populated(q), vec![PtOp::MapPage(vpn, q, flag)]))
        },
        PageSlot::CopyOnWrite(p) => {
            if flag & SEG_W == 0 {
                return Err(ErrorNum::EPERM);
            }
            if only_holder {
                Ok((PageSlot::Populated(p), vec![PtOp::RemapPage(vpn, p, flag)]))
            } else {
                let q = take_page(alloc);
                Ok((PageSlot::Populated(q), vec![PtOp::CopyPage(p, q), PtOp::RemapPage(vpn, q, flag)]))
            }
        },
    }
}

/// A page for a process, from `alloc`, which must have a free one.
fn take_page(alloc: &mut BitMapPageAllocator) -> (q: PhysPageNum)
    requires
        old(alloc).wf(),
        exists|k: int| 0 <= k < old(alloc)@.fs.len() && !old(alloc)@.fs[k],
    ensures
        final(alloc).wf(),
        final(alloc).base_of() == old(alloc).base_of(),
        ({
            let k = q.0 - old(alloc).base_of().0;
            &&& 0 <= k < old(alloc)@.fs.len() && !old(alloc)@.fs[k]
            &&& final(alloc)@.fs == old(alloc)@.fs.update(k, true)
        }),
{
    match alloc.alloc_page(true) {
        Some(q) => q,
        None => {
            proof {
                assert(false);
            }
            PhysPageNum(0)
        },
    }
}

} // verus!
