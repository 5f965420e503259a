use parch_kernel::config::PROC_K_STACK_ADDR;
use parch_kernel::process::FileDescriptor;
use parch_kernel::syscall::{get_space, sys_mmap, MMAPFlag, MMAPProt, MmapSegment};
use parch_kernel::mem::page_allocator::BitMapPageAllocator;
use parch_kernel::mem::phys_bitmap::BitMap;
use parch_kernel::mem::pte::{PTEFlags, PageTableEntry};
use parch_kernel::mem::types::{PhysAddr, PhysPageNum, VirtAddr, VirtPageNum};
use parch_kernel::mem::pagetable::{PageMem, PageTable};
use parch_kernel::error::ErrorNum;

const BASE: usize = 0x80000;

fn allocator() -> BitMapPageAllocator {
    let mm = BitMap::new(PhysAddr(0), 64, vec![0u64]);
    let fs = BitMap::new(PhysAddr(0), 64, vec![0b1u64]);
    BitMapPageAllocator::new(PhysPageNum(BASE), PhysAddr((BASE + 63) * 4096), PhysAddr(BASE * 4096), 64 * 4096, mm, fs)
}

#[test]
fn alloc_takes_the_lowest_free_page_and_free_gives_it_back() {
    let mut a = allocator();
    let p = a.alloc_page(false).unwrap();
    assert_eq!(p.0, BASE + 1);
    let q = a.alloc_page(true).unwrap();
    assert_eq!(q.0, BASE + 2);
    assert_eq!(a.stat(), (3, 1));
    a.free(p, false);
    assert_eq!(a.stat(), (2, 1));
    assert_eq!(a.alloc_page(false).unwrap().0, BASE + 1);
}

#[test]
fn alloc_fails_when_full() {
    let mm = BitMap::new(PhysAddr(0), 4096, vec![0u64; 64]);
    let fs = BitMap::new(PhysAddr(0), 4096, vec![u64::MAX; 64]);
    let mut a = BitMapPageAllocator::new(PhysPageNum(BASE), PhysAddr((BASE + 4095) * 4096), PhysAddr(BASE * 4096), 4096 * 4096, mm, fs);
    assert!(a.alloc_page(false).is_none());
    assert_eq!(a.stat(), (4096, 0));
}

#[test]
fn page_table_entry_fields() {
    let flags = PTEFlags::from_bits_truncate(PTEFlags::V | PTEFlags::R | PTEFlags::W);
    let mut e = PageTableEntry::new(PhysPageNum(0x12345), flags);
    assert_eq!(e.ppn().0, 0x12345);
    assert!(e.valid() && e.read() && e.write());
    assert!(!e.exec() && !e.user());
    e.set_flags(PTEFlags::from_bits_truncate(PTEFlags::X | PTEFlags::U));
    assert!(e.exec() && e.user() && !e.valid());
    assert_eq!(e.ppn().0, 0x12345);
    e.set_ppn(PhysPageNum(7));
    assert_eq!(e.ppn().0, 7);
    assert!(e.exec());
    assert!(!PageTableEntry::empty().valid());
    assert_eq!(PTEFlags::from_bits_truncate(u64::MAX).bits(), 0b11_1111_1111);
}

#[test]
fn address_pages() {
    assert_eq!(VirtAddr(4096).to_vpn_ceil().0, 1);
    assert_eq!(VirtAddr(4097).to_vpn_ceil().0, 2);
    // the address 0 rounds up to page 1
    assert_eq!(VirtAddr(0).to_vpn_ceil().0, 1);
    assert_eq!(PhysAddr(8191).to_ppn_ceil().0, 2);
}

#[test]
fn bitmap_counts_and_fills() {
    let mut b = BitMap::new(PhysAddr(0), 4096, vec![0u64; 64]);
    for i in 0..4096 {
        assert_eq!(b.first_empty(), Some(i));
        b.set(i);
    }
    assert_eq!(b.first_empty(), None);
    assert_eq!(b.count(), 4096);
    b.clear_all();
    assert_eq!(b.count(), 0);
}

fn page_mem() -> (PageMem, BitMapPageAllocator) {
    let mm = BitMap::new(PhysAddr(0), 64, vec![0u64]);
    let fs = BitMap::new(PhysAddr(0), 64, vec![0u64]);
    let alloc = BitMapPageAllocator::new(PhysPageNum(BASE), PhysAddr((BASE + 63) * 4096), PhysAddr(BASE * 4096), 64 * 4096, mm, fs);
    let mut frames = Vec::new();
    for _ in 0..64 {
        frames.push(vec![0u64; 512]);
    }
    (PageMem { base: BASE, frames }, alloc)
}

#[test]
fn page_table_map_translate_unmap() {
    let (mut mem, mut alloc) = page_mem();
    let mut pt = PageTable::new_empty(&mut mem, &mut alloc);
    assert_eq!(pt.root_ppn, PhysPageNum(BASE));
    let vpn = VirtPageNum((3 << 18) | (5 << 9) | 7);
    assert_eq!(pt.translate(&mem, vpn), Err(ErrorNum::EADDRNOTAVAIL));
    assert!(pt.walk_find(&mem, vpn).is_none());
    pt.map(&mut mem, &mut alloc, vpn, PhysPageNum(0x1234), PTEFlags { bits: PTEFlags::R | PTEFlags::W });
    assert_eq!(pt.translate(&mem, vpn), Ok(PhysPageNum(0x1234)));
    // two new tables were taken on the way
    assert_eq!(pt.pages.len(), 3);
    assert_eq!(alloc.stat(), (3, 3));
    let (leaf, i) = pt.walk_find(&mem, vpn).unwrap();
    assert_eq!(i, 7);
    assert_eq!(mem.read(leaf, i).bits, (0x1234u64 << 10) | PTEFlags::R | PTEFlags::W | PTEFlags::V);
    // the root points at the first new table, which points at the leaf table
    assert_eq!(mem.read(pt.root_ppn, 3).ppn(), PhysPageNum(BASE + 1));
    assert_eq!(mem.read(PhysPageNum(BASE + 1), 5).ppn(), PhysPageNum(BASE + 2));
    // a neighbour shares the tables and is not mapped
    let near = VirtPageNum((3 << 18) | (5 << 9) | 8);
    assert_eq!(pt.translate(&mem, near), Err(ErrorNum::EADDRNOTAVAIL));
    pt.remap(&mut mem, vpn, PhysPageNum(0x99), PTEFlags { bits: PTEFlags::X });
    assert_eq!(pt.translate(&mem, vpn), Ok(PhysPageNum(0x99)));
    pt.do_map(&mut mem, &mut alloc, near, PhysPageNum(0x42), PTEFlags::empty());
    assert_eq!(pt.translate(&mem, near), Ok(PhysPageNum(0x42)));
    assert_eq!(pt.pages.len(), 3);
    pt.unmap(&mut mem, vpn);
    assert_eq!(pt.translate(&mem, vpn), Err(ErrorNum::EADDRNOTAVAIL));
    assert_eq!(pt.translate(&mem, near), Ok(PhysPageNum(0x42)));
}

#[test]
fn page_table_satp() {
    let pt = PageTable::load(PhysPageNum(0x80123));
    assert_eq!(pt.satp(None), (8u64 << 60) | 0x80123);
    assert_eq!(pt.satp(Some(5)), (8u64 << 60) | (5u64 << 44) | 0x80123);
    assert_eq!(pt.pages, vec![PhysPageNum(0x80123)]);
}

#[test]
fn mmap_fixed_and_free_places() {
    let (mut mem, mut alloc) = page_mem();
    let mut pt = PageTable::new_empty(&mut mem, &mut alloc);
    let vpn = VirtPageNum((3 << 18) | (5 << 9) | 7);
    pt.map(&mut mem, &mut alloc, vpn, PhysPageNum(0x1234), PTEFlags { bits: PTEFlags::R });
    let prot = MMAPProt { bits: 0b11 };
    let anon = FileDescriptor(usize::MAX);
    // a fixed place over a taken page is refused
    let fixed = MMAPFlag { bits: MMAPFlag::FIXED | MMAPFlag::ANONYMOUS };
    assert!(matches!(
        sys_mmap(&pt, &mem, VirtAddr(vpn.0 * 4096), 100, &prot, &fixed, anon, None, 0),
        Err(ErrorNum::EADDRINUSE)
    ));
    // it is checked before the descriptor
    assert!(matches!(
        sys_mmap(&pt, &mem, VirtAddr(vpn.0 * 4096), 100, &prot, &fixed, FileDescriptor(3), None, 0),
        Err(ErrorNum::EADDRINUSE)
    ));
    // a fixed place whose pages have no tables is taken as it is
    let free_at = VirtAddr(0x4000_0000);
    match sys_mmap(&pt, &mem, free_at, 100, &prot, &fixed, anon, None, 0) {
        Ok((a, MmapSegment::Anonymous(seg))) => {
            assert_eq!(a, free_at);
            assert_eq!((seg.start, seg.end), (0x4_0000, 0x4_0001));
        }
        _ => panic!("fixed mapping refused"),
    }
    // without FIXED the place is found from the top down, with guard pages
    let top = (PROC_K_STACK_ADDR - 4096) / 4096;
    assert_eq!(get_space(&pt, &mem, 8192), Ok(VirtPageNum(top - 4 + 1)));
    let float = MMAPFlag { bits: MMAPFlag::ANONYMOUS };
    match sys_mmap(&pt, &mem, VirtAddr(0), 8192, &prot, &float, anon, None, 0) {
        Ok((a, _)) => assert_eq!(a.0, (top - 3) * 4096),
        _ => panic!("no free place found"),
    }
    assert!(matches!(sys_mmap(&pt, &mem, VirtAddr(0), 8192, &prot, &float, FileDescriptor(2), None, 0), Err(ErrorNum::EINVAL)));
}
