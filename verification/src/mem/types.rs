//! Physical and virtual addresses and page numbers, and the arithmetic the
//! kernel does on them.
use vstd::prelude::*;
use vstd::std_specs::convert::FromSpecImpl;
use vstd::std_specs::ops::{AddSpecImpl, SubSpecImpl};

verus! {

/// A virtual address.
#[derive(Clone, Copy, PartialEq, Eq, Structural, PartialOrd, Ord, Debug)]
pub struct VirtAddr(pub usize);

/// A physical address.
#[derive(Clone, Copy, PartialEq, Eq, Structural, PartialOrd, Ord, Debug)]
pub struct PhysAddr(pub usize);

/// The representation of physical page number.
#[derive(Clone, Copy, PartialEq, Eq, Structural, PartialOrd, Ord, Debug)]
pub struct PhysPageNum(pub usize);

/// The representation of virtual page number.
#[derive(Clone, Copy, PartialEq, Eq, Structural, PartialOrd, Ord, Debug)]
pub struct VirtPageNum(pub usize);

/// The page that holds byte `x`.
pub open spec fn page_of(x: usize) -> int {
    x as int / 4096
}

/// The smallest page number whose page starts at or after `x`, except that the
/// address 0 gives page 1.
pub open spec fn page_ceil(x: usize) -> int {
    if x == 0 {
        1
    } else {
        (x - 1) / 4096 + 1
    }
}

/// The three 9-bit table indexes of a Sv39 virtual page number, top level first.
pub open spec fn vpn_index(vpn: usize, level: int) -> usize {
    if level == 0 {
        ((vpn / 0x40000) % 512) as usize
    } else if level == 1 {
        ((vpn / 512) % 512) as usize
    } else {
        (vpn % 512) as usize
    }
}

proof fn lemma_shift_page(x: usize)
    ensures
        x >> 12usize == x / 4096,
        (x >> 18usize) & 0b1_1111_1111usize == (x / 0x40000) % 512,
        (x >> 9usize) & 0b1_1111_1111usize == (x / 512) % 512,
        (x >> 0usize) & 0b1_1111_1111usize == x % 512,
{
    assert(x >> 12usize == x / 4096) by (bit_vector);
    assert((x >> 18usize) & 0b1_1111_1111usize == (x / 0x40000) % 512) by (bit_vector);
    assert((x >> 9usize) & 0b1_1111_1111usize == (x / 512) % 512) by (bit_vector);
    assert((x >> 0usize) & 0b1_1111_1111usize == x % 512) by (bit_vector);
}

/// The Sv39 indexes of a page number are its three 9-bit digits, top level
/// first: bits 26..18, 17..9 and 8..0, each below 512, and together they
/// give back the low 27 bits of the page number.
pub proof fn lemma_sv39_indexes(vpn: usize)
    ensures
        vpn_index(vpn, 0) == (vpn >> 18usize) & 0x1ffusize,
        vpn_index(vpn, 1) == (vpn >> 9usize) & 0x1ffusize,
        vpn_index(vpn, 2) == vpn & 0x1ffusize,
        vpn_index(vpn, 0) < 512 && vpn_index(vpn, 1) < 512 && vpn_index(vpn, 2) < 512,
        vpn_index(vpn, 0) * 0x40000 + vpn_index(vpn, 1) * 512 + vpn_index(vpn, 2) == vpn % 0x800_0000,
{
    lemma_shift_page(vpn);
    let x = vpn;
    assert((x >> 0usize) & 0x1ffusize == x & 0x1ffusize) by (bit_vector);
    assert(((x >> 18usize) & 0x1ffusize) * 0x40000 + ((x >> 9usize) & 0x1ffusize) * 512 + (x & 0x1ffusize)
        == x & 0x7ff_ffffusize) by (bit_vector);
    assert(x & 0x7ff_ffffusize == x % 0x800_0000) by (bit_vector);
    assert((x >> 18usize) & 0x1ffusize < 512 && (x >> 9usize) & 0x1ffusize < 512 && x & 0x1ffusize < 512) by (bit_vector);
}

/// Two different page numbers of the Sv39 space (below 2^27) never share
/// all three table indexes, so no two pages share a leaf entry.
pub proof fn lemma_sv39_indexes_distinct(a: usize, b: usize)
    requires
        a < 0x800_0000,
        b < 0x800_0000,
        a != b,
    ensures
        vpn_index(a, 0) != vpn_index(b, 0) || vpn_index(a, 1) != vpn_index(b, 1) || vpn_index(a, 2) != vpn_index(b, 2),
{
    lemma_sv39_indexes(a);
    lemma_sv39_indexes(b);
}

/// The page after the last byte below address `x` (the first page at or
/// after `x`): a nonzero `x` lies in the page before it, so the pages below
/// it hold exactly the bytes below `x` rounded up to a page.
pub proof fn lemma_page_ceil(x: usize)
    ensures
        x > 0 ==> (page_ceil(x) - 1) * 4096 < x && x <= page_ceil(x) * 4096,
        x == 0 ==> page_ceil(x) == 1,
{
    if x > 0 {
        vstd::arithmetic::div_mod::lemma_fundamental_div_mod((x - 1) as int, 4096);
        let q = (x - 1) / 4096;
        let r = (x - 1) % 4096;
        assert(q * 4096 < x && x <= (q + 1) * 4096) by (nonlinear_arith)
            requires
                x - 1 == 4096 * q + r,
                0 <= r < 4096,
        ;
    }
}

proof fn lemma_shift_addr(x: usize)
    ensures
        x * 4096 <= usize::MAX ==> x << 12usize == x * 4096,
{
    assert(((x * 4096) as usize) == x * 4096 ==> x << 12usize == x * 4096) by (bit_vector);
}

// ---------------------------------------------------------------- VirtAddr
impl From<usize> for VirtAddr {
    fn from(num: usize) -> (r: Self) {
        Self(num)
    }
}

impl FromSpecImpl<usize> for VirtAddr {
    open spec fn obeys_from_spec() -> bool {
        true
    }

    open spec fn from_spec(num: usize) -> Self {
        VirtAddr(num)
    }
}

impl core::ops::Add<usize> for VirtAddr {
    type Output = VirtAddr;

    fn add(self, rhs: usize) -> (r: VirtAddr) {
        VirtAddr(self.0 + rhs)
    }
}

impl AddSpecImpl<usize> for VirtAddr {
    open spec fn obeys_add_spec() -> bool {
        true
    }

    open spec fn add_req(self, rhs: usize) -> bool {
        self.0 + rhs <= usize::MAX
    }

    open spec fn add_spec(self, rhs: usize) -> VirtAddr {
        VirtAddr((self.0 + rhs) as usize)
    }
}

impl core::ops::Sub<usize> for VirtAddr {
    type Output = VirtAddr;

    fn sub(self, rhs: usize) -> (r: VirtAddr) {
        VirtAddr(self.0 - rhs)
    }
}

impl SubSpecImpl<usize> for VirtAddr {
    open spec fn obeys_sub_spec() -> bool {
        true
    }

    open spec fn sub_req(self, rhs: usize) -> bool {
        self.0 >= rhs
    }

    open spec fn sub_spec(self, rhs: usize) -> VirtAddr {
        VirtAddr((self.0 - rhs) as usize)
    }
}

impl core::ops::Sub<VirtAddr> for VirtAddr {
    type Output = usize;

    fn sub(self, rhs: VirtAddr) -> (r: usize) {
        self.0 - rhs.0
    }
}

impl SubSpecImpl<VirtAddr> for VirtAddr {
    open spec fn obeys_sub_spec() -> bool {
        true
    }

    open spec fn sub_req(self, rhs: VirtAddr) -> bool {
        self.0 >= rhs.0
    }

    open spec fn sub_spec(self, rhs: VirtAddr) -> usize {
        (self.0 - rhs.0) as usize
    }
}

impl VirtAddr {
    /// `self += rhs`.
    pub fn add_assign(&mut self, rhs: usize)
        requires
            old(self).0 + rhs <= usize::MAX,
        ensures
            final(self).0 == old(self).0 + rhs,
    {
        self.0 = self.0 + rhs;
    }

    /// `self -= rhs`.
    pub fn sub_assign(&mut self, rhs: usize)
        requires
            old(self).0 >= rhs,
        ensures
            final(self).0 == old(self).0 - rhs,
    {
        self.0 = self.0 - rhs;
    }

    /// Moves to the next byte.
    pub fn step_up(&mut self)
        requires
            old(self).0 < usize::MAX,
        ensures
            final(self).0 == old(self).0 + 1,
    {
        self.0 = self.0 + 1;
    }

    /// Moves to the previous byte.
    pub fn step_down(&mut self)
        requires
            old(self).0 > 0,
        ensures
            final(self).0 == old(self).0 - 1,
    {
        self.0 = self.0 - 1;
    }

    /// The page number of the first page boundary at or after this address
    /// (the address 0 gives page 1).
    pub fn to_vpn_ceil(&self) -> (r: VirtPageNum)
        ensures
            r.0 == page_ceil(self.0),
    {
        if self.0 == 0 {
            VirtPageNum(1)
        } else {
            proof {
                lemma_shift_page((self.0 - 1) as usize);
            }
            VirtPageNum(((self.0 - 1) >> 12usize) + 1)
        }
    }
}

// ---------------------------------------------------------------- PhysAddr
impl From<usize> for PhysAddr {
    fn from(num: usize) -> (r: Self) {
        Self(num)
    }
}

impl FromSpecImpl<usize> for PhysAddr {
    open spec fn obeys_from_spec() -> bool {
        true
    }

    open spec fn from_spec(num: usize) -> Self {
        PhysAddr(num)
    }
}

impl core::ops::Add<usize> for PhysAddr {
    type Output = PhysAddr;

    fn add(self, rhs: usize) -> (r: PhysAddr) {
        PhysAddr(self.0 + rhs)
    }
}

impl AddSpecImpl<usize> for PhysAddr {
    open spec fn obeys_add_spec() -> bool {
        true
    }

    open spec fn add_req(self, rhs: usize) -> bool {
        self.0 + rhs <= usize::MAX
    }

    open spec fn add_spec(self, rhs: usize) -> PhysAddr {
        PhysAddr((self.0 + rhs) as usize)
    }
}

impl core::ops::Sub<usize> for PhysAddr {
    type Output = PhysAddr;

    fn sub(self, rhs: usize) -> (r: PhysAddr) {
        PhysAddr(self.0 - rhs)
    }
}

impl SubSpecImpl<usize> for PhysAddr {
    open spec fn obeys_sub_spec() -> bool {
        true
    }

    open spec fn sub_req(self, rhs: usize) -> bool {
        self.0 >= rhs
    }

    open spec fn sub_spec(self, rhs: usize) -> PhysAddr {
        PhysAddr((self.0 - rhs) as usize)
    }
}

impl core::ops::Sub<PhysAddr> for PhysAddr {
    type Output = usize;

    fn sub(self, rhs: PhysAddr) -> (r: usize) {
        self.0 - rhs.0
    }
}

impl SubSpecImpl<PhysAddr> for PhysAddr {
    open spec fn obeys_sub_spec() -> bool {
        true
    }

    open spec fn sub_req(self, rhs: PhysAddr) -> bool {
        self.0 >= rhs.0
    }

    open spec fn sub_spec(self, rhs: PhysAddr) -> usize {
        (self.0 - rhs.0) as usize
    }
}

impl PhysAddr {
    /// `self += rhs`.
    pub fn add_assign(&mut self, rhs: usize)
        requires
            old(self).0 + rhs <= usize::MAX,
        ensures
            final(self).0 == old(self).0 + rhs,
    {
        self.0 = self.0 + rhs;
    }

    /// `self -= rhs`.
    pub fn sub_assign(&mut self, rhs: usize)
        requires
            old(self).0 >= rhs,
        ensures
            final(self).0 == old(self).0 - rhs,
    {
        self.0 = self.0 - rhs;
    }

    /// Moves to the next byte.
    pub fn step_up(&mut self)
        requires
            old(self).0 < usize::MAX,
        ensures
            final(self).0 == old(self).0 + 1,
    {
        self.0 = self.0 + 1;
    }

    /// Moves to the previous byte.
    pub fn step_down(&mut self)
        requires
            old(self).0 > 0,
        ensures
            final(self).0 == old(self).0 - 1,
    {
        self.0 = self.0 - 1;
    }

    /// The page number of the first page boundary at or after this address
    /// (the address 0 gives page 1).
    pub fn to_ppn_ceil(&self) -> (r: PhysPageNum)
        ensures
            r.0 == page_ceil(self.0),
    {
        if self.0 == 0 {
            PhysPageNum(1)
        } else {
            proof {
                lemma_shift_page((self.0 - 1) as usize);
            }
            PhysPageNum(((self.0 - 1) >> 12usize) + 1)
        }
    }
}

// ---------------------------------------------------------------- page numbers and addresses
impl From<PhysAddr> for PhysPageNum {
    fn from(pa: PhysAddr) -> (r: Self) {
        proof {
            lemma_shift_page(pa.0);
        }
        Self(pa.0 >> 12usize)
    }
}

impl FromSpecImpl<PhysAddr> for PhysPageNum {
    open spec fn obeys_from_spec() -> bool {
        true
    }

    open spec fn from_spec(pa: PhysAddr) -> Self {
        PhysPageNum((pa.0 / 4096) as usize)
    }
}

impl From<PhysPageNum> for PhysAddr {
    fn from(ppn: PhysPageNum) -> (r: Self) {
        Self(ppn.0 << 12usize)
    }
}

impl FromSpecImpl<PhysPageNum> for PhysAddr {
    open spec fn obeys_from_spec() -> bool {
        true
    }

    open spec fn from_spec(ppn: PhysPageNum) -> Self {
        PhysAddr(ppn.0 << 12usize)
    }
}

impl From<VirtAddr> for VirtPageNum {
    fn from(va: VirtAddr) -> (r: Self) {
        proof {
            lemma_shift_page(va.0);
        }
        Self(va.0 >> 12usize)
    }
}

impl FromSpecImpl<VirtAddr> for VirtPageNum {
    open spec fn obeys_from_spec() -> bool {
        true
    }

    open spec fn from_spec(va: VirtAddr) -> Self {
        VirtPageNum((va.0 / 4096) as usize)
    }
}

impl From<VirtPageNum> for VirtAddr {
    fn from(vpn: VirtPageNum) -> (r: Self) {
        Self(vpn.0 << 12usize)
    }
}

impl FromSpecImpl<VirtPageNum> for VirtAddr {
    open spec fn obeys_from_spec() -> bool {
        true
    }

    open spec fn from_spec(vpn: VirtPageNum) -> Self {
        VirtAddr(vpn.0 << 12usize)
    }
}

/// The start of a page whose start fits in an address is the page number times the page size.
pub proof fn lemma_page_start(n: usize)
    ensures
        n * 4096 <= usize::MAX ==> n << 12usize == n * 4096,
{
    lemma_shift_addr(n);
}

// ---------------------------------------------------------------- VirtPageNum
impl From<usize> for VirtPageNum {
    fn from(num: usize) -> (r: Self) {
        Self(num)
    }
}

impl FromSpecImpl<usize> for VirtPageNum {
    open spec fn obeys_from_spec() -> bool {
        true
    }

    open spec fn from_spec(num: usize) -> Self {
        VirtPageNum(num)
    }
}

impl core::ops::Add<usize> for VirtPageNum {
    type Output = VirtPageNum;

    fn add(self, rhs: usize) -> (r: VirtPageNum) {
        VirtPageNum(self.0 + rhs)
    }
}

impl AddSpecImpl<usize> for VirtPageNum {
    open spec fn obeys_add_spec() -> bool {
        true
    }

    open spec fn add_req(self, rhs: usize) -> bool {
        self.0 + rhs <= usize::MAX
    }

    open spec fn add_spec(self, rhs: usize) -> VirtPageNum {
        VirtPageNum((self.0 + rhs) as usize)
    }
}

impl core::ops::Add<VirtPageNum> for usize {
    type Output = VirtPageNum;

    fn add(self, rhs: VirtPageNum) -> (r: VirtPageNum) {
        VirtPageNum(rhs.0 + self)
    }
}

impl AddSpecImpl<VirtPageNum> for usize {
    open spec fn obeys_add_spec() -> bool {
        true
    }

    open spec fn add_req(self, rhs: VirtPageNum) -> bool {
        self + rhs.0 <= usize::MAX
    }

    open spec fn add_spec(self, rhs: VirtPageNum) -> VirtPageNum {
        VirtPageNum((self + rhs.0) as usize)
    }
}

impl core::ops::Sub<usize> for VirtPageNum {
    type Output = VirtPageNum;

    fn sub(self, rhs: usize) -> (r: VirtPageNum) {
        VirtPageNum(self.0 - rhs)
    }
}

impl SubSpecImpl<usize> for VirtPageNum {
    open spec fn obeys_sub_spec() -> bool {
        true
    }

    open spec fn sub_req(self, rhs: usize) -> bool {
        self.0 >= rhs
    }

    open spec fn sub_spec(self, rhs: usize) -> VirtPageNum {
        VirtPageNum((self.0 - rhs) as usize)
    }
}

impl core::ops::Sub<VirtPageNum> for VirtPageNum {
    type Output = usize;

    fn sub(self, rhs: VirtPageNum) -> (r: usize) {
        self.0 - rhs.0
    }
}

impl SubSpecImpl<VirtPageNum> for VirtPageNum {
    open spec fn obeys_sub_spec() -> bool {
        true
    }

    open spec fn sub_req(self, rhs: VirtPageNum) -> bool {
        self.0 >= rhs.0
    }

    open spec fn sub_spec(self, rhs: VirtPageNum) -> usize {
        (self.0 - rhs.0) as usize
    }
}

impl VirtPageNum {
    /// `self += rhs`.
    pub fn add_assign(&mut self, rhs: usize)
        requires
            old(self).0 + rhs <= usize::MAX,
        ensures
            final(self).0 == old(self).0 + rhs,
    {
        self.0 = self.0 + rhs;
    }

    /// `self -= rhs`.
    pub fn sub_assign(&mut self, rhs: usize)
        requires
            old(self).0 >= rhs,
        ensures
            final(self).0 == old(self).0 - rhs,
    {
        self.0 = self.0 - rhs;
    }

    /// Moves to the next page.
    pub fn step_up(&mut self)
        requires
            old(self).0 < usize::MAX,
        ensures
            final(self).0 == old(self).0 + 1,
    {
        self.0 = self.0 + 1;
    }

    /// Moves to the previous page.
    pub fn step_down(&mut self)
        requires
            old(self).0 > 0,
        ensures
            final(self).0 == old(self).0 - 1,
    {
        self.0 = self.0 - 1;
    }

    /// The L2, L1 and L0 indexes of the page number in a Sv39 page table:
    /// bits 26..18, 17..9 and 8..0.
    pub fn indexes(&self) -> (r: [usize; 3])
        ensures
            r@.len() == 3,
            r@[0] == vpn_index(self.0, 0),
            r@[1] == vpn_index(self.0, 1),
            r@[2] == vpn_index(self.0, 2),
            forall|i: int| 0 <= i < 3 ==> r@[i] < 512,
    {
        proof {
            lemma_shift_page(self.0);
        }
        [
            (self.0 >> 18usize) & 0b1_1111_1111usize,
            (self.0 >> 9usize) & 0b1_1111_1111usize,
            (self.0 >> 0usize) & 0b1_1111_1111usize,
        ]
    }
}

// ---------------------------------------------------------------- PhysPageNum
impl From<usize> for PhysPageNum {
    fn from(num: usize) -> (r: Self) {
        Self(num)
    }
}

impl FromSpecImpl<usize> for PhysPageNum {
    open spec fn obeys_from_spec() -> bool {
        true
    }

    open spec fn from_spec(num: usize) -> Self {
        PhysPageNum(num)
    }
}

impl core::ops::Add<usize> for PhysPageNum {
    type Output = PhysPageNum;

    fn add(self, rhs: usize) -> (r: PhysPageNum) {
        PhysPageNum(self.0 + rhs)
    }
}

impl AddSpecImpl<usize> for PhysPageNum {
    open spec fn obeys_add_spec() -> bool {
        true
    }

    open spec fn add_req(self, rhs: usize) -> bool {
        self.0 + rhs <= usize::MAX
    }

    open spec fn add_spec(self, rhs: usize) -> PhysPageNum {
        PhysPageNum((self.0 + rhs) as usize)
    }
}

impl core::ops::Add<PhysPageNum> for usize {
    type Output = PhysPageNum;

    fn add(self, rhs: PhysPageNum) -> (r: PhysPageNum) {
        PhysPageNum(rhs.0 + self)
    }
}

impl AddSpecImpl<PhysPageNum> for usize {
    open spec fn obeys_add_spec() -> bool {
        true
    }

    open spec fn add_req(self, rhs: PhysPageNum) -> bool {
        self + rhs.0 <= usize::MAX
    }

    open spec fn add_spec(self, rhs: PhysPageNum) -> PhysPageNum {
        PhysPageNum((self + rhs.0) as usize)
    }
}

impl core::ops::Sub<usize> for PhysPageNum {
    type Output = PhysPageNum;

    fn sub(self, rhs: usize) -> (r: PhysPageNum) {
        PhysPageNum(self.0 - rhs)
    }
}

impl SubSpecImpl<usize> for PhysPageNum {
    open spec fn obeys_sub_spec() -> bool {
        true
    }

    open spec fn sub_req(self, rhs: usize) -> bool {
        self.0 >= rhs
    }

    open spec fn sub_spec(self, rhs: usize) -> PhysPageNum {
        PhysPageNum((self.0 - rhs) as usize)
    }
}

impl core::ops::Sub<PhysPageNum> for PhysPageNum {
    type Output = usize;

    fn sub(self, rhs: PhysPageNum) -> (r: usize) {
        self.0 - rhs.0
    }
}

impl SubSpecImpl<PhysPageNum> for PhysPageNum {
    open spec fn obeys_sub_spec() -> bool {
        true
    }

    open spec fn sub_req(self, rhs: PhysPageNum) -> bool {
        self.0 >= rhs.0
    }

    open spec fn sub_spec(self, rhs: PhysPageNum) -> usize {
        (self.0 - rhs.0) as usize
    }
}

impl PhysPageNum {
    /// `self += rhs`.
    pub fn add_assign(&mut self, rhs: usize)
        requires
            old(self).0 + rhs <= usize::MAX,
        ensures
            final(self).0 == old(self).0 + rhs,
    {
        self.0 = self.0 + rhs;
    }

    /// `self -= rhs`.
    pub fn sub_assign(&mut self, rhs: usize)
        requires
            old(self).0 >= rhs,
        ensures
            final(self).0 == old(self).0 - rhs,
    {
        self.0 = self.0 - rhs;
    }

    /// Moves to the next page.
    pub fn step_up(&mut self)
        requires
            old(self).0 < usize::MAX,
        ensures
            final(self).0 == old(self).0 + 1,
    {
        self.0 = self.0 + 1;
    }

    /// Moves to the previous page.
    pub fn step_down(&mut self)
        requires
            old(self).0 > 0,
        ensures
            final(self).0 == old(self).0 - 1,
    {
        self.0 = self.0 - 1;
    }
}

} // verus!
