//! The kernel's own address space: which regions are mapped to themselves,
//! with which permissions, beside the trampoline pages.  Where the kernel's
//! sections lie is read from the linker's symbols by the caller.
use vstd::prelude::*;
use crate::config::PHYS_END_ADDR;
use super::types::{VirtAddr, page_ceil};
use super::segment::{IdenticalMappingSegment, SegmentStatus, TrampolineSegment, UTrampolineSegment};

verus! {

/// Where the kernel image's sections start and end, as the linker placed
/// them: text, read-only data, data, the bss with the boot stack, and the
/// image's end.
pub struct KernelBounds {
    pub stext: usize,
    pub etext: usize,
    pub srodata: usize,
    pub erodata: usize,
    pub sdata: usize,
    pub edata: usize,
    pub sbss: usize,
    pub ebss: usize,
    pub ekernel: usize,
}

/// The segment flag for reading.
pub const SEG_R: usize = 2;
/// The segment flag for writing.
pub const SEG_W: usize = 4;
/// The segment flag for executing.
pub const SEG_X: usize = 8;

/// The device regions mapped to themselves: the CLINT, the PLIC and the UART.
pub open spec fn mmio_ranges() -> Seq<(usize, usize)> {
    seq![(0x0200_0000usize, 0x0201_0000usize), (0x0C00_0000usize, 0x1000_0000usize), (0x1000_0000usize, 0x1000_1000usize)]
}

/// A region from address `s` up to address `e` mapped to itself with `flag`:
/// from the page holding `s` up to the page after `e`'s last byte.
pub open spec fn ident(s: usize, e: usize, flag: usize) -> (usize, usize, usize) {
    ((s / 4096) as usize, page_ceil(e) as usize, flag)
}

/// The regions of the kernel's address space mapped to themselves, in
/// order: text (read, execute), read-only data (read), data (read), bss
/// (read, write), the physical memory after the image (read, write), and
/// each device region (read, write).
pub open spec fn kernel_regions(b: KernelBounds) -> Seq<(usize, usize, usize)> {
    seq![
        ident(b.stext, b.etext, SEG_R | SEG_X),
        ident(b.srodata, b.erodata, SEG_R),
        ident(b.sdata, b.edata, SEG_R),
        ident(b.sbss, b.ebss, SEG_R | SEG_W),
        ident(b.ekernel, PHYS_END_ADDR as usize, SEG_R | SEG_W),
        ident(mmio_ranges()[0].0, mmio_ranges()[0].1, SEG_R | SEG_W),
        ident(mmio_ranges()[1].0, mmio_ranges()[1].1, SEG_R | SEG_W),
        ident(mmio_ranges()[2].0, mmio_ranges()[2].1, SEG_R | SEG_W),
    ]
}

/// The segments of the kernel's address space.
pub struct KernelLayout {
    pub trampoline: TrampolineSegment,
    pub u_trampoline: UTrampolineSegment,
    pub identical: Vec<IdenticalMappingSegment>,
}

/// A segment as the region it maps.
pub open spec fn region_of(s: IdenticalMappingSegment) -> (usize, usize, usize) {
    (s.start, s.end, s.flag)
}

fn region(s: usize, e: usize, flag: usize) -> (r: IdenticalMappingSegment)
    ensures
        region_of(r) == ident(s, e, flag),
        r.status == SegmentStatus::Initialized,
{
    IdenticalMappingSegment::new(s / 4096, VirtAddr(e).to_vpn_ceil().0, flag)
}

/// The kernel's address space for the sections at `b`: the trampoline and
/// the user trampoline, then the regions of `kernel_regions`, none mapped yet.
pub fn kernel_layout(b: &KernelBounds) -> (r: KernelLayout)
    ensures
        r.trampoline.status == SegmentStatus::Initialized,
        r.u_trampoline.status == SegmentStatus::Initialized,
        r.identical@.len() == 8,
        forall|i: int| 0 <= i < 8 ==> region_of(#[trigger] r.identical@[i]) == kernel_regions(*b)[i],
        forall|i: int| 0 <= i < 8 ==> (#[trigger] r.identical@[i]).status == SegmentStatus::Initialized,
{
    let mut v: Vec<IdenticalMappingSegment> = Vec::new();
    v.push(region(b.stext, b.etext, SEG_R | SEG_X));
    v.push(region(b.srodata, b.erodata, SEG_R));
    v.push(region(b.sdata, b.edata, SEG_R));
    v.push(region(b.sbss, b.ebss, SEG_R | SEG_W));
    v.push(region(b.ekernel, PHYS_END_ADDR as usize, SEG_R | SEG_W));
    v.push(region(0x0200_0000, 0x0201_0000, SEG_R | SEG_W));
    v.push(region(0x0C00_0000, 0x1000_0000, SEG_R | SEG_W));
    v.push(region(0x1000_0000, 0x1000_1000, SEG_R | SEG_W));
    KernelLayout { trampoline: TrampolineSegment::new(), u_trampoline: UTrampolineSegment::new(), identical: v }
}

} // verus!
