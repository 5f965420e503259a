//! Sv39 page-table entries and their flag bits.
//!
//! An entry looks like this:
//! ` 63        5453                                                   1098          `
//! ` | reserved ||                         PPN                         ||| DAGU XWRV`
use vstd::prelude::*;
use super::types::PhysPageNum;

verus! {

/// Low ten bits of an entry: the flags.
pub const FLAG_MASK: u64 = 0b11_1111_1111;

/// Bits 53..10 of an entry: the physical page number.
pub const PPN_MASK: u64 = 0x003F_FFFF_FFFF_FC00;

/// The 44 bits a physical page number takes in an entry.
pub const PPN_BITS_MASK: u64 = 0xFFF_FFFF_FFFF;

/// Page-table entry flags, indicating privileges.
#[derive(Clone, Copy, PartialEq, Eq, Structural, Debug)]
pub struct PTEFlags {
    pub bits: u64,
}

impl PTEFlags {
    /// Valid.
    pub const V: u64 = 1;
    /// Read enable.
    pub const R: u64 = 2;
    /// Write enable.
    pub const W: u64 = 4;
    /// Execute enable.
    pub const X: u64 = 8;
    /// User accessibility.
    pub const U: u64 = 16;
    /// Global mapping.
    pub const G: u64 = 32;
    /// Accessed.
    pub const A: u64 = 64;
    /// Dirty.
    pub const D: u64 = 128;
    /// Reserved 0, used for copy on write.
    pub const R0: u64 = 256;
    /// Reserved 1.
    pub const R1: u64 = 512;

    /// The flags among `bits` (the other bits dropped).
    pub fn from_bits_truncate(bits: u64) -> (r: Self)
        ensures
            r.bits == bits & FLAG_MASK,
    {
        Self { bits: bits & FLAG_MASK }
    }

    /// No flag.
    pub fn empty() -> (r: Self)
        ensures
            r.bits == 0,
    {
        Self { bits: 0 }
    }

    /// The raw bits.
    pub fn bits(&self) -> (r: u64)
        ensures
            r == self.bits,
    {
        self.bits
    }

    /// Every flag of `other` is in `self`.
    pub fn contains(&self, other: u64) -> (r: bool)
        ensures
            r == (self.bits & other == other),
    {
        self.bits & other == other
    }

    /// The flags of both.
    pub fn union(&self, other: u64) -> (r: Self)
        ensures
            r.bits == self.bits | other,
    {
        Self { bits: self.bits | other }
    }
}

/// The physical page number field of entry bits.
pub open spec fn ppn_field(bits: u64) -> u64 {
    (bits >> 10u64) & 0xFFF_FFFF_FFFFu64
}

/// A page-table entry.
#[derive(Clone, Copy)]
pub struct PageTableEntry {
    pub bits: u64,
}

/// A flag among the low ten bits is set in the flags of a word exactly
/// when it is set in the word.
proof fn lemma_flag_bit(b: u64, f: u64)
    requires
        f < 0x400u64,
    ensures
        ((b & 0b11_1111_1111u64) & f == f) == (b & f == f),
{
    assert(f < 0x400u64 ==> (((b & 0b11_1111_1111u64) & f == f) == (b & f == f))) by (bit_vector);
}

impl PageTableEntry {
    /// An entry pointing at `ppn` with `flags`.
    pub fn new(ppn: PhysPageNum, flags: PTEFlags) -> (r: Self)
        ensures
            r.bits == ((ppn.0 as u64) << 10u64) | flags.bits,
    {
        Self { bits: ((ppn.0 as u64) << 10u64) | flags.bits }
    }

    /// The entry of all zeros.
    pub fn empty() -> (r: Self)
        ensures
            r.bits == 0,
    {
        Self { bits: 0 }
    }

    /// Replaces the flag bits.
    pub fn set_flags(&mut self, flags: PTEFlags)
        ensures
            final(self).bits == (old(self).bits & !FLAG_MASK) | flags.bits,
    {
        self.bits = (self.bits & !FLAG_MASK) | flags.bits;
    }

    /// Replaces the physical page number.
    pub fn set_ppn(&mut self, ppn: PhysPageNum)
        ensures
            final(self).bits == (old(self).bits & !PPN_MASK) | ((ppn.0 as u64) << 10u64),
    {
        self.bits = (self.bits & !PPN_MASK) | ((ppn.0 as u64) << 10u64);
    }

    /// The physical page number the entry points at.
    pub fn ppn(&self) -> (r: PhysPageNum)
        ensures
            r.0 == ppn_field(self.bits) as usize,
    {
        PhysPageNum(((self.bits >> 10u64) & PPN_BITS_MASK) as usize)
    }

    /// The flag bits.
    pub fn flags(&self) -> (r: PTEFlags)
        ensures
            r.bits == self.bits & FLAG_MASK,
    {
        PTEFlags::from_bits_truncate(self.bits)
    }

    /// Valid flag.
    pub fn valid(&self) -> (r: bool)
        ensures
            r == (self.bits & PTEFlags::V == PTEFlags::V),
    {
        let r = self.flags().contains(PTEFlags::V);
        proof {
            let b = self.bits;
            lemma_flag_bit(b, 1u64);
        }
        r
    }

    /// Read flag.
    pub fn read(&self) -> (r: bool)
        ensures
            r == (self.bits & PTEFlags::R == PTEFlags::R),
    {
        let r = self.flags().contains(PTEFlags::R);
        proof {
            let b = self.bits;
            lemma_flag_bit(b, 2u64);
        }
        r
    }

    /// Write flag.
    pub fn write(&self) -> (r: bool)
        ensures
            r == (self.bits & PTEFlags::W == PTEFlags::W),
    {
        let r = self.flags().contains(PTEFlags::W);
        proof {
            let b = self.bits;
            lemma_flag_bit(b, 4u64);
        }
        r
    }

    /// Execute flag.
    pub fn exec(&self) -> (r: bool)
        ensures
            r == (self.bits & PTEFlags::X == PTEFlags::X),
    {
        let r = self.flags().contains(PTEFlags::X);
        proof {
            let b = self.bits;
            lemma_flag_bit(b, 8u64);
        }
        r
    }

    /// User flag.
    pub fn user(&self) -> (r: bool)
        ensures
            r == (self.bits & PTEFlags::U == PTEFlags::U),
    {
        let r = self.flags().contains(PTEFlags::U);
        proof {
            let b = self.bits;
            lemma_flag_bit(b, 16u64);
        }
        r
    }

    /// Global flag.
    pub fn global(&self) -> (r: bool)
        ensures
            r == (self.bits & PTEFlags::G == PTEFlags::G),
    {
        let r = self.flags().contains(PTEFlags::G);
        proof {
            let b = self.bits;
            lemma_flag_bit(b, 32u64);
        }
        r
    }

    /// Accessed flag.
    pub fn access(&self) -> (r: bool)
        ensures
            r == (self.bits & PTEFlags::A == PTEFlags::A),
    {
        let r = self.flags().contains(PTEFlags::A);
        proof {
            let b = self.bits;
            lemma_flag_bit(b, 64u64);
        }
        r
    }

    /// Dirty flag.
    pub fn dirty(&self) -> (r: bool)
        ensures
            r == (self.bits & PTEFlags::D == PTEFlags::D),
    {
        let r = self.flags().contains(PTEFlags::D);
        proof {
            let b = self.bits;
            lemma_flag_bit(b, 128u64);
        }
        r
    }

    /// Reserved flag 0.
    pub fn r0(&self) -> (r: bool)
        ensures
            r == (self.bits & PTEFlags::R0 == PTEFlags::R0),
    {
        let r = self.flags().contains(PTEFlags::R0);
        proof {
            let b = self.bits;
            lemma_flag_bit(b, 256u64);
        }
        r
    }

    /// Reserved flag 1.
    pub fn r1(&self) -> (r: bool)
        ensures
            r == (self.bits & PTEFlags::R1 == PTEFlags::R1),
    {
        let r = self.flags().contains(PTEFlags::R1);
        proof {
            let b = self.bits;
            lemma_flag_bit(b, 512u64);
        }
        r
    }
}

/// An entry made from a page number that fits in 44 bits and from flags
/// gives back that page number and those flags.
pub proof fn lemma_new_entry_fields(ppn: u64, flags: u64)
    requires
        ppn < 0x1000_0000_0000,
        flags < 0x400,
    ensures
        ppn_field((ppn << 10u64) | flags) == ppn,
        ((ppn << 10u64) | flags) & FLAG_MASK == flags,
{
    assert(ppn < 0x1000_0000_0000u64 && flags < 0x400u64 ==> ((((ppn << 10u64) | flags) >> 10u64)
        & 0xFFF_FFFF_FFFFu64) == ppn && ((ppn << 10u64) | flags) & 0b11_1111_1111u64 == flags)
        by (bit_vector);
}

/// Replacing the page number of an entry keeps its flags and gives back the new
/// page number; replacing its flags keeps its page number.
pub proof fn lemma_set_fields(bits: u64, ppn: u64, flags: u64)
    requires
        ppn < 0x1000_0000_0000,
        flags < 0x400,
    ensures
        ppn_field((bits & !PPN_MASK) | (ppn << 10u64)) == ppn,
        ((bits & !PPN_MASK) | (ppn << 10u64)) & FLAG_MASK == bits & FLAG_MASK,
        ppn_field((bits & !FLAG_MASK) | flags) == ppn_field(bits),
        ((bits & !FLAG_MASK) | flags) & FLAG_MASK == flags,
{
    assert(ppn < 0x1000_0000_0000u64 ==> ((((bits & !0x003F_FFFF_FFFF_FC00u64) | (ppn << 10u64))
        >> 10u64) & 0xFFF_FFFF_FFFFu64) == ppn && ((bits & !0x003F_FFFF_FFFF_FC00u64) | (ppn
        << 10u64)) & 0b11_1111_1111u64 == bits & 0b11_1111_1111u64) by (bit_vector);
    assert(flags < 0x400u64 ==> ((((bits & !0b11_1111_1111u64) | flags) >> 10u64)
        & 0xFFF_FFFF_FFFFu64) == ((bits >> 10u64) & 0xFFF_FFFF_FFFFu64) && ((bits
        & !0b11_1111_1111u64) | flags) & 0b11_1111_1111u64 == flags) by (bit_vector);
}

} // verus!
