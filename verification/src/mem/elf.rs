//! Loading a program: which parts of an ELF file go where in the user's
//! address space, with which permissions.  Reading the ELF headers is left
//! to the `elf_rs` crate.
use vstd::prelude::*;
use crate::error::ErrorNum;
use crate::mem::types::VirtAddr;
use elf_rs::ElfFile;

verus! {

/// The error that `elf_rs` gives for bytes that are not an ELF file.
#[verifier::external_type_specification]
#[verifier::external_body]
pub struct ExElfError(elf_rs::Error);

/// A program header as the loader needs it: whether it is to be loaded,
/// its permission flags (execute 1, write 2, read 4), where its bytes are
/// in the file and how many, and where it goes in memory and how long it is.
#[derive(Clone, Copy, PartialEq, Eq, Structural, Debug)]
pub struct ProgramHeaderInfo {
    pub is_load: bool,
    pub flags: u32,
    pub offset: u64,
    pub filesz: u64,
    pub vaddr: u64,
    pub memsz: u64,
}

/// A program header as a tuple of plain values.
pub open spec fn header_tuple(h: ProgramHeaderInfo) -> (bool, u32, u64, u64, u64, u64) {
    (h.is_load, h.flags, h.offset, h.filesz, h.vaddr, h.memsz)
}

/// What the loader reads of an ELF file: its entry point and its program headers.
pub struct ElfHeaders {
    pub entry: u64,
    pub headers: Vec<ProgramHeaderInfo>,
}

impl View for ElfHeaders {
    type V = (u64, Seq<(bool, u32, u64, u64, u64, u64)>);

    open spec fn view(&self) -> Self::V {
        (self.entry, Seq::new(self.headers@.len(), |i: int| header_tuple(self.headers@[i])))
    }
}

/// Whether the program header table of the ELF file in `bytes` starts on a
/// boundary of its entries' alignment: 8 for a 64-bit file (class byte 2,
/// offset field at bytes 32 to 39), 4 for a 32-bit one (class byte 1,
/// offset field at bytes 28 to 31).  Both end bytes of the field are
/// tested, so that it holds in either byte order.
pub open spec fn ph_table_aligned(b: Seq<u8>) -> bool {
    &&& (b.len() >= 40 && b[4] == 2 ==> b[32] % 8 == 0 && b[39] % 8 == 0)
    &&& (b.len() >= 32 && b[4] == 1 ==> b[28] % 4 == 0 && b[31] % 4 == 0)
}

/// Whether `bytes` are too short for an ELF header or do not start with
/// the ELF magic number.
pub open spec fn not_elf(bytes: Seq<u8>) -> bool {
    bytes.len() < 52 || bytes.subrange(0, 4) != seq![0x7fu8, 0x45u8, 0x4cu8, 0x46u8]
}

/// Reads the entry point and program headers of the ELF file in `bytes`
/// with `elf_rs::Elf::from_bytes`, `program_header_iter` and `entry_point`.
/// `elf_rs` views the file header and the program header table in place as
/// structs that need 8-byte alignment, so the bytes are first copied into a
/// fresh heap buffer (the system allocator, `malloc`, places every block on
/// a boundary fit for any type) and the table's offset must be aligned
/// (`requires`).  Claimed: bytes shorter than an ELF header, or not
/// starting with the ELF magic number, are refused.  `elf_rs` reads the
/// multi-byte fields in the host's byte order, so what it reads otherwise
/// depends on the machine and is not stated; neither is the error it gives,
/// nor the alignment of buffers from a global allocator other than the
/// system's.
#[verifier::external_body]
fn read_elf_headers(bytes: &[u8]) -> (r: Result<ElfHeaders, elf_rs::Error>)
    requires
        ph_table_aligned(bytes@),
    ensures
        not_elf(bytes@) ==> r is Err,
{
    let buf: Vec<u8> = bytes.to_vec();
    let elf = elf_rs::Elf::from_bytes(&buf)?;
    let headers = elf.program_header_iter().map(|p| ProgramHeaderInfo {
        is_load: matches!(p.ph_type(), elf_rs::ProgramType::LOAD),
        flags: p.flags().bits(),
        offset: p.offset(),
        filesz: p.filesz(),
        vaddr: p.vaddr(),
        memsz: p.memsz(),
    }).collect();
    Ok(ElfHeaders { entry: elf.entry_point(), headers })
}

/// Where one loaded part goes: its pages (the end one past the last), its
/// permissions as segment flags (read 2, write 4, execute 8, user 16), and
/// the bytes of the file to copy to its start.
#[derive(Clone, Copy, PartialEq, Eq, Structural, Debug)]
pub struct LoadSegment {
    pub start_vpn: usize,
    pub end_vpn: usize,
    pub flags: usize,
    pub file_offset: u64,
    pub file_len: u64,
}

/// The segment flags of program header flags: user, and execute, read and
/// write as the header allows.
pub open spec fn segment_flags(f: u32) -> usize {
    16usize | (if f & 1 == 1 {
        8usize
    } else {
        0usize
    }) | (if f & 4 == 4 {
        2usize
    } else {
        0usize
    }) | (if f & 2 == 2 {
        4usize
    } else {
        0usize
    })
}

/// The first page boundary at or after `a`; the address 0 gives page 1.
pub open spec fn vpn_ceil(a: int) -> int {
    if a == 0 {
        1
    } else {
        (a - 1) / 4096 + 1
    }
}

/// Where the header `h` goes.
pub open spec fn segment_of(h: (bool, u32, u64, u64, u64, u64)) -> LoadSegment {
    LoadSegment {
        start_vpn: (h.4 / 4096) as usize,
        end_vpn: (vpn_ceil(h.4 + h.5) + 1) as usize,
        flags: segment_flags(h.1),
        file_offset: h.2,
        file_len: h.3,
    }
}

/// Where each header to be loaded goes, in order.
pub open spec fn load_segments(hs: Seq<(bool, u32, u64, u64, u64, u64)>) -> Seq<LoadSegment>
    decreases hs.len(),
{
    if hs.len() == 0 {
        seq![]
    } else if hs.last().0 {
        load_segments(hs.drop_last()).push(segment_of(hs.last()))
    } else {
        load_segments(hs.drop_last())
    }
}

/// Whether every header to be loaded starts on a page and ends in the
/// address space.
pub open spec fn loadable(hs: Seq<(bool, u32, u64, u64, u64, u64)>) -> bool {
    forall|i: int|
        0 <= i < hs.len() && (#[trigger] hs[i]).0 ==> hs[i].4 % 4096 == 0 && hs[i].4 + hs[i].5 + 4096 <= usize::MAX
}

/// Where the headers `h` say the program goes: its entry point and its
/// loaded parts.  Every part must start on a page.
pub fn load_plan(h: &ElfHeaders) -> (r: (VirtAddr, Vec<LoadSegment>))
    requires
        loadable(h@.1),
        h.entry <= usize::MAX,
    ensures
        r.0.0 == h.entry,
        r.1@ == load_segments(h@.1),
{
    let mut out: Vec<LoadSegment> = Vec::new();
    let mut i: usize = 0;
    let ghost hs = h@.1;
    proof {
        assert(hs.take(0) =~= Seq::<(bool, u32, u64, u64, u64, u64)>::empty());
    }
    while i < h.headers.len()
        invariant
            hs == h@.1,
            i <= hs.len(),
            loadable(hs),
            out@ == load_segments(hs.take(i as int)),
        decreases hs.len() - i,
    {
        let p = h.headers[i];
        proof {
            assert(hs.take(i + 1).drop_last() =~= hs.take(i as int));
            assert(hs.take(i + 1).last() == hs[i as int]);
            assert(hs[i as int] == header_tuple(p));
        }
        if p.is_load {
            let start = p.vaddr as usize;
            let end = start + p.memsz as usize;
            let end_vpn = if end == 0 {
                1
            } else {
                (end - 1) / 4096 + 1
            };
            let x: usize = if p.flags & 1 == 1 {
                8
            } else {
                0
            };
            let rd: usize = if p.flags & 4 == 4 {
                2
            } else {
                0
            };
            let wr: usize = if p.flags & 2 == 2 {
                4
            } else {
                0
            };
            let flags: usize = 16usize | x | rd | wr;
            let seg = LoadSegment {
                start_vpn: start / 4096,
                end_vpn: end_vpn + 1,
                flags,
                file_offset: p.offset,
                file_len: p.filesz,
            };
            out.push(seg);
        }
        i = i + 1;
    }
    proof {
        assert(hs.take(hs.len() as int) =~= hs);
    }
    (VirtAddr(h.entry as usize), out)
}

/// Where the program with the headers `h` goes: its entry point and its
/// loaded parts; `None` when a part does not start on a page or would end
/// past the address space, or the entry point does not fit an address (the
/// kernel stops there).
pub fn plan_from_headers(h: &ElfHeaders) -> (r: Option<(VirtAddr, Vec<LoadSegment>)>)
    ensures
        loadable(h@.1) && h.entry <= usize::MAX ==> (r matches Some((e, segs)) && e.0 == h.entry && segs@
            == load_segments(h@.1)),
        !(loadable(h@.1) && h.entry <= usize::MAX) ==> r is None,
{
    if h.entry > usize::MAX as u64 {
        return None;
    }
    let mut i: usize = 0;
    while i < h.headers.len()
        invariant
            i <= h.headers@.len(),
            h.entry <= usize::MAX,
            forall|j: int|
                0 <= j < i && (#[trigger] h@.1[j]).0 ==> h@.1[j].4 % 4096 == 0 && h@.1[j].4 + h@.1[j].5 + 4096
                    <= usize::MAX,
        decreases h.headers@.len() - i,
    {
        let p = h.headers[i];
        proof {
            assert(h@.1[i as int] == header_tuple(p));
        }
        if p.is_load && (p.vaddr % 4096 != 0 || p.vaddr > usize::MAX as u64 - 4096 || p.memsz > usize::MAX as u64 - 4096 - p.vaddr) {
            proof {
                assert(h@.1[i as int].0);
                assert(!loadable(h@.1));
            }
            return None;
        }
        i = i + 1;
    }
    Some(load_plan(h))
}

/// Where the program in the ELF file `bytes` goes: the plan of
/// `plan_from_headers` for the headers that `elf_rs` reads; `EINVAL` when
/// the program header table is not aligned, when the bytes are too short
/// for an ELF header or lack its magic number, or when `elf_rs` refuses
/// them otherwise.
pub fn map_elf(bytes: &[u8]) -> (r: Result<Option<(VirtAddr, Vec<LoadSegment>)>, ErrorNum>)
    ensures
        !ph_table_aligned(bytes@) ==> r == Err::<Option<(VirtAddr, Vec<LoadSegment>)>, ErrorNum>(ErrorNum::EINVAL),
        not_elf(bytes@) ==> r == Err::<Option<(VirtAddr, Vec<LoadSegment>)>, ErrorNum>(ErrorNum::EINVAL),
        r is Err ==> r == Err::<Option<(VirtAddr, Vec<LoadSegment>)>, ErrorNum>(ErrorNum::EINVAL),
{
    if bytes.len() >= 40 && bytes[4] == 2 && (bytes[32] % 8 != 0 || bytes[39] % 8 != 0) {
        return Err(ErrorNum::EINVAL);
    }
    if bytes.len() >= 32 && bytes[4] == 1 && (bytes[28] % 4 != 0 || bytes[31] % 4 != 0) {
        return Err(ErrorNum::EINVAL);
    }
    match read_elf_headers(bytes) {
        Ok(h) => Ok(plan_from_headers(&h)),
        Err(_) => Err(ErrorNum::EINVAL),
    }
}

} // verus!
