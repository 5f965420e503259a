use parch_kernel::mem::layout::{kernel_layout, KernelBounds};
use parch_kernel::error::ErrorNum;
use parch_kernel::mem::page_allocator::BitMapPageAllocator;
use parch_kernel::mem::phys_bitmap::BitMap;
use parch_kernel::mem::segment::{
    IdenticalMappingSegment, ManagedSegment, PageSlot, ProcUStackSegment, PtOp, SegmentStatus, TrampolineSegment,
    UTrampolineSegment, VMASegment, SEG_R, SEG_U, SEG_W, SEG_X,
};
use parch_kernel::mem::types::{PhysAddr, PhysPageNum, VirtAddr, VirtPageNum};
use parch_kernel::mem::pagetable::{PageMem, PageTable};
use parch_kernel::mem::pte::PTEFlags;
use parch_kernel::fs::vfs::OpenMode;
use parch_kernel::process::FileDescriptor;
use parch_kernel::syscall::{sys_mmap_anon, sys_mmap_file, sys_mmap_fixed_check, MMAPProt};

const BASE: usize = 0x80000;

fn allocator() -> BitMapPageAllocator {
    let mm = BitMap::new(PhysAddr(0), 64, vec![0u64]);
    let fs = BitMap::new(PhysAddr(0), 64, vec![0u64]);
    BitMapPageAllocator::new(PhysPageNum(BASE), PhysAddr((BASE + 63) * 4096), PhysAddr(BASE * 4096), 64 * 4096, mm, fs)
}

#[test]
fn managed_segment_lazy_alloc_and_cow() {
    let mut alloc = allocator();
    let rw = SEG_R | SEG_W | SEG_U;
    let mut seg = ManagedSegment::new(10, 13, rw, 3 * 4096);
    assert_eq!(seg.frames, vec![(10, PageSlot::LazyAlloc), (11, PageSlot::LazyAlloc), (12, PageSlot::LazyAlloc)]);
    // nothing is shared yet, so mapping asks for nothing
    assert_eq!(seg.do_map(), Ok(vec![]));
    assert_eq!(seg.status, SegmentStatus::Mapped);
    assert_eq!(seg.do_map(), Err(ErrorNum::EMMAPED));
    // first fault: a new page
    assert_eq!(seg.do_lazy(11, &mut alloc, false), Ok(vec![PtOp::MapPage(11, PhysPageNum(BASE), rw)]));
    assert_eq!(seg.frames[1], (11, PageSlot::Populated(PhysPageNum(BASE))));
    // second fault on the same page is a real fault
    assert_eq!(seg.do_lazy(11, &mut alloc, false), Err(ErrorNum::EPERM));
    assert_eq!(seg.do_lazy(13, &mut alloc, false), Err(ErrorNum::EOOR));
    // copy for a child: the page becomes shared and read-only
    let (mut child, ops) = seg.clone_seg();
    assert_eq!(ops, vec![PtOp::RemapPage(11, PhysPageNum(BASE), SEG_R | SEG_U)]);
    assert_eq!(seg.frames[1].1, PageSlot::CopyOnWrite(PhysPageNum(BASE)));
    assert_eq!(child.frames, seg.frames);
    assert_eq!(child.status, SegmentStatus::Initialized);
    assert_eq!(child.do_map(), Ok(vec![PtOp::MapPage(11, PhysPageNum(BASE), SEG_R | SEG_U)]));
    // the child writes: the page is copied into a new one
    assert_eq!(
        child.do_lazy(11, &mut alloc, false),
        Ok(vec![PtOp::CopyPage(PhysPageNum(BASE), PhysPageNum(BASE + 1)), PtOp::RemapPage(11, PhysPageNum(BASE + 1), rw)])
    );
    // the parent is then the only holder: it keeps the page
    assert_eq!(seg.do_lazy(11, &mut alloc, true), Ok(vec![PtOp::RemapPage(11, PhysPageNum(BASE), rw)]));
    assert_eq!(seg.frames[1].1, PageSlot::Populated(PhysPageNum(BASE)));
    assert_eq!(alloc.stat(), (2, 2));
}

#[test]
fn managed_segment_read_only_cow_faults() {
    let mut alloc = allocator();
    let mut seg = ManagedSegment::new(0, 1, SEG_R, 10);
    seg.frames[0].1 = PageSlot::CopyOnWrite(PhysPageNum(7));
    assert_eq!(seg.do_lazy(0, &mut alloc, true), Err(ErrorNum::EPERM));
}

#[test]
fn managed_segment_unmap_alter_grow() {
    let mut alloc = allocator();
    let mut seg = ManagedSegment::new(4, 6, SEG_R | SEG_W, 2 * 4096);
    seg.do_map().unwrap();
    seg.do_lazy(4, &mut alloc, false).unwrap();
    let (old, ops) = seg.alter_permission(SEG_R | SEG_X);
    assert_eq!(old, SEG_R | SEG_W);
    assert_eq!(ops, vec![PtOp::RemapPage(4, PhysPageNum(BASE), SEG_R | SEG_X)]);
    assert_eq!(seg.get_end_va().0, 4 * 4096 + 2 * 4096);
    // growing by one byte: the page after the new last byte is put in too
    let end = seg.grow(1);
    assert_eq!(end.0, 6 * 4096 + 1);
    assert_eq!(seg.end, 8);
    assert_eq!(seg.frames.len(), 4);
    assert_eq!(seg.frames[3], (7, PageSlot::LazyAlloc));
    assert_eq!(seg.do_unmap(), (4..8).map(PtOp::UnmapPage).collect::<Vec<_>>());
    assert_eq!(seg.status, SegmentStatus::Zombie);
}

#[test]
fn vma_segment_file_pages() {
    let mut alloc = allocator();
    let mut seg = VMASegment::new_at(100, 3, SEG_R | SEG_W, 0x2000, 5000);
    assert_eq!(seg.frames, vec![(100, PageSlot::LazyVMA(3, 0x2000)), (101, PageSlot::LazyVMA(3, 0x3000))]);
    assert!(seg.contains(101));
    assert!(!seg.contains(102));
    assert_eq!(seg.do_unmap(), Err(ErrorNum::ENOSEG));
    seg.do_map().unwrap();
    assert_eq!(seg.do_lazy(100, &mut alloc, false, Err(ErrorNum::EEMPTY)), Err(ErrorNum::EEMPTY));
    assert_eq!(seg.do_lazy(100, &mut alloc, false, Ok(PhysPageNum(0x555))), Ok(vec![PtOp::MapPage(100, PhysPageNum(0x555), SEG_R | SEG_W)]));
    assert_eq!(seg.do_lazy(200, &mut alloc, false, Ok(PhysPageNum(1))), Err(ErrorNum::EOOR));
    assert_eq!(seg.slot(100), Some(PageSlot::Populated(PhysPageNum(0x555))));
    let (child, ops) = seg.clone_seg();
    assert_eq!(ops, vec![PtOp::RemapPage(100, PhysPageNum(0x555), SEG_R)]);
    assert_eq!(child.frames[1].1, PageSlot::LazyVMA(3, 0x3000));
    assert_eq!(seg.do_unmap(), Ok(vec![PtOp::UnmapPage(100), PtOp::UnmapPage(101)]));
    assert!(seg.frames.is_empty());
    assert_eq!(alloc.stat(), (0, 0));
}

#[test]
fn identical_segment() {
    let mut seg = IdenticalMappingSegment::new(5, 7, SEG_R);
    assert_eq!(seg.do_map(), Ok(vec![PtOp::MapPage(5, PhysPageNum(5), SEG_R), PtOp::MapPage(6, PhysPageNum(6), SEG_R)]));
    assert_eq!(seg.do_map(), Err(ErrorNum::EMMAPED));
    assert_eq!(seg.do_lazy(6), Ok(PtOp::MapPage(6, PhysPageNum(6), SEG_R)));
    assert_eq!(seg.do_lazy(7), Err(ErrorNum::EOOR));
    let c = seg.clone_seg();
    assert_eq!((c.start, c.end, c.status), (5, 7, SegmentStatus::Initialized));
    assert!(IdenticalMappingSegment::new(3, 3, SEG_R).do_unmap().is_ok());
}

#[test]
fn mmap_segments() {
    let prot = MMAPProt { bits: MMAPProt::READ | MMAPProt::WRITE };
    assert!(matches!(sys_mmap_anon(VirtAddr(0x5000), 0x1800, &prot, FileDescriptor(3)), Err(ErrorNum::EINVAL)));
    let seg = sys_mmap_anon(VirtAddr(0x5000), 0x1800, &prot, FileDescriptor(usize::MAX)).unwrap();
    assert_eq!((seg.start, seg.end, seg.flag, seg.byte_len), (5, 7, SEG_R | SEG_W, 0x1800));
    let ro = OpenMode { bits: OpenMode::READ };
    assert!(matches!(sys_mmap_file(VirtAddr(0x5000), 100, &prot, 9, 50, ro, 0), Err(ErrorNum::EOOR)));
    assert!(matches!(sys_mmap_file(VirtAddr(0x5000), 10, &prot, 9, 50, ro, 0), Err(ErrorNum::EPERM)));
    let rd = MMAPProt { bits: MMAPProt::READ };
    let v = sys_mmap_file(VirtAddr(0x5123), 10, &rd, 9, 50, ro, 0).unwrap();
    assert_eq!(v.start_vpn, 5);
    assert_eq!(v.frames, vec![(5, PageSlot::LazyVMA(9, 0))]);
    assert_eq!(v.flag, SEG_R);
}

#[test]
fn mmap_fixed_place_must_be_free() {
    let mut alloc = allocator();
    let mut frames = Vec::new();
    for _ in 0..64 {
        frames.push(vec![0u64; 512]);
    }
    let mut mem = PageMem { base: BASE, frames };
    let mut pt = PageTable::new_empty(&mut mem, &mut alloc);
    assert_eq!(sys_mmap_fixed_check(&pt, &mem, 10, 20), Ok(()));
    pt.map(&mut mem, &mut alloc, VirtPageNum(15), PhysPageNum(0x99), PTEFlags::empty());
    assert_eq!(sys_mmap_fixed_check(&pt, &mem, 10, 20), Err(ErrorNum::EADDRINUSE));
    // a page whose tables are there counts as taken, mapped or not
    assert_eq!(sys_mmap_fixed_check(&pt, &mem, 100, 101), Err(ErrorNum::EADDRINUSE));
    assert_eq!(sys_mmap_fixed_check(&pt, &mem, 1000, 1001), Ok(()));
    assert_eq!(sys_mmap_fixed_check(&pt, &mem, 1 << 18, (1 << 18) + 3), Ok(()));
}

#[test]
fn user_stack_faults_and_copies() {
    let mut alloc = allocator();
    let mut st = ProcUStackSegment::new();
    assert_eq!(st.frames.len(), 256);
    let top = st.frames[255].0;
    assert_eq!(top + 1, (usize::MAX - 4095 - 4 * 4096 - 0x10_0000) / 4096);
    assert!(st.contains(top));
    assert!(!st.contains(top + 1));
    assert_eq!(st.do_map(), Ok(vec![]));
    assert_eq!(st.do_lazy(top, &mut alloc, false), Ok(vec![PtOp::MapPage(top, PhysPageNum(BASE), SEG_R | SEG_W | SEG_U)]));
    assert_eq!(st.do_lazy(top, &mut alloc, false), Err(ErrorNum::EPERM));
    assert_eq!(st.do_lazy(top + 1, &mut alloc, false), Err(ErrorNum::EOOR));
    let (mut child, ops) = st.clone_seg();
    assert_eq!(ops, vec![PtOp::RemapPage(top, PhysPageNum(BASE), SEG_R | SEG_U)]);
    assert_eq!(child.do_map(), Ok(vec![PtOp::MapPage(top, PhysPageNum(BASE), SEG_R | SEG_U)]));
    assert_eq!(
        child.do_lazy(top, &mut alloc, false),
        Ok(vec![PtOp::CopyPage(PhysPageNum(BASE), PhysPageNum(BASE + 1)), PtOp::ForceMapPage(top, PhysPageNum(BASE + 1), SEG_R | SEG_W | SEG_U)])
    );
    let ops = st.do_unmap();
    assert_eq!(ops.len(), 256);
    assert_eq!(ops[255], PtOp::UnmapPage(top));
    assert!(st.frames.iter().all(|(_, s)| *s == PageSlot::Unmapped));
    assert_eq!(st.status, SegmentStatus::Zombie);
}

#[test]
fn trampolines() {
    let last = usize::MAX / 4096;
    let mut t = TrampolineSegment::new();
    assert_eq!(t.do_map(PhysPageNum(0x80200)), Ok(PtOp::MapPage(last, PhysPageNum(0x80200), SEG_R | SEG_X)));
    assert_eq!(t.do_map(PhysPageNum(0x80200)), Err(ErrorNum::EMMAPED));
    assert!(t.contains(last));
    assert_eq!(t.do_lazy(last), Err(ErrorNum::EPERM));
    assert_eq!(t.do_lazy(3), Err(ErrorNum::EOOR));
    let mut u = UTrampolineSegment::new();
    assert_eq!(u.do_map(PhysPageNum(7)), Ok(PtOp::MapPage(last - 1, PhysPageNum(7), SEG_R | SEG_X | SEG_U)));
    assert_eq!(u.do_lazy(last - 1), Err(ErrorNum::EPERM));
}

#[test]
fn kernel_layout_regions() {
    use_layout();
}

fn use_layout() {
    let b = KernelBounds {
        stext: 0x8020_0000,
        etext: 0x8020_3010,
        srodata: 0x8020_4000,
        erodata: 0x8020_5000,
        sdata: 0x8020_5000,
        edata: 0x8020_6000,
        sbss: 0x8020_6000,
        ebss: 0x8030_0000,
        ekernel: 0x8030_0000,
    };
    let l = kernel_layout(&b);
    let r: Vec<(usize, usize, usize)> = l.identical.iter().map(|s| (s.start, s.end, s.flag)).collect();
    assert_eq!(r, vec![
        (0x80200, 0x80204, 2 | 8),
        (0x80204, 0x80205, 2),
        (0x80205, 0x80206, 2),
        (0x80206, 0x80300, 2 | 4),
        (0x80300, 0x100000, 2 | 4),
        (0x2000, 0x2010, 2 | 4),
        (0xC000, 0x10000, 2 | 4),
        (0x10000, 0x10001, 2 | 4),
    ]);
}
