//! A bitmap over a region of 64-bit words, with a hierarchical index that
//! records which words are completely set so that a clear bit is found fast.
use vstd::prelude::*;
use vstd::arithmetic::div_mod::{lemma_fundamental_div_mod, lemma_fundamental_div_mod_converse};
use crate::bits::{bit_at, low_mask, lemma_all_low_bits, lemma_low_mask_bit, lemma_low_mask_step, lemma_subset_le, lemma_test_bit, lemma_set_bit, lemma_clear_bit, lemma_mask_kept, lemma_bits_above, lemma_obtain_bit};
use super::types::PhysAddr;

verus! {

/// `64` to the power `p`.
pub open spec fn pow64(p: int) -> int
    decreases p,
{
    if p <= 0 {
        1
    } else {
        64 * pow64(p - 1)
    }
}

/// How many words an index node of `level` covers.
pub open spec fn index_capacity(level: int) -> int {
    pow64(level + 1)
}

/// Length of child `i` of a node of length `length` whose children cover `sc` words each.
pub open spec fn child_len(length: int, sc: int, i: int) -> int {
    if length - i * sc < sc {
        length - i * sc
    } else {
        sc
    }
}

pub proof fn lemma_pow64_pos(p: int)
    ensures
        pow64(p) >= 1,
    decreases p,
{
    if p > 0 {
        lemma_pow64_pos(p - 1);
    }
}

proof fn lemma_pow64_mono(a: int, b: int)
    requires
        a <= b,
    ensures
        pow64(a) <= pow64(b),
    decreases b - a,
{
    if a < b {
        lemma_pow64_mono(a, b - 1);
        lemma_pow64_pos(b - 1);
        if b - 1 >= 0 {
            assert(pow64(b) == 64 * pow64(b - 1));
        } else {
            assert(pow64(b) == 1);
            assert(pow64(a) == 1);
        }
    }
}

proof fn lemma_pow64_strict(a: int, b: int)
    requires
        0 <= a < b,
    ensures
        pow64(a) < pow64(b),
{
    lemma_pow64_mono(a, b - 1);
    lemma_pow64_pos(b - 1);
    assert(pow64(b) == 64 * pow64(b - 1));
}

proof fn lemma_pow64_values()
    ensures
        pow64(1) == 64,
        pow64(10) == 0x1000_0000_0000_0000,
{
    reveal_with_fuel(pow64, 11);
}

/// `pos` lies in child `pos / sc` of a node of `k` children, at offset `pos % sc`.
proof fn lemma_split(pos: int, sc: int, length: int, k: int)
    requires
        0 <= pos < length,
        length <= k * sc,
        sc > 0,
    ensures
        0 <= pos / sc < k,
        0 <= pos % sc < sc,
        pos == (pos / sc) * sc + pos % sc,
        pos % sc < child_len(length, sc, pos / sc),
{
    lemma_fundamental_div_mod(pos, sc);
    let q = pos / sc;
    let r = pos % sc;
    assert(0 <= r < sc) by {
        vstd::arithmetic::div_mod::lemma_mod_pos_bound(pos, sc);
    }
    assert(q >= 0) by {
        vstd::arithmetic::div_mod::lemma_div_pos_is_pos(pos, sc);
    }
    assert(q < k) by (nonlinear_arith)
        requires
            pos == sc * q + r,
            0 <= r,
            pos < length,
            length <= k * sc,
            sc > 0,
    ;
    assert(q * sc == sc * q) by (nonlinear_arith);
}

/// The position at offset `off` of child `i` divides back into `i` and `off`.
proof fn lemma_join(i: int, off: int, sc: int)
    requires
        0 <= off < sc,
        0 <= i,
    ensures
        (i * sc + off) / sc == i,
        (i * sc + off) % sc == off,
{
    lemma_fundamental_div_mod_converse(i * sc + off, sc, i, off);
}

/// One node of the index over a region of `length` words.  A node of level 0
/// holds one bit per word; a higher node holds one bit per child, set exactly
/// when that child is full.
pub struct BitMapIndex {
    bits: u64,
    level: usize,
    length: usize,
    sub_entries: Vec<BitMapIndex>,
    sub_mask: u64,
}

impl View for BitMapIndex {
    type V = Seq<bool>;

    /// Whether each word of the region is recorded as set.
    open spec fn view(&self) -> Seq<bool> {
        Seq::new(self.len(), |p: int| self.slot(p))
    }
}

impl BitMapIndex {
    /// Number of words the index covers.
    pub closed spec fn len(self) -> nat {
        self.length as nat
    }

    /// The level of the node: 0 for a node over words.
    pub closed spec fn level_of(self) -> nat {
        self.level as nat
    }

    /// Words covered by each child of this node.
    pub closed spec fn sub_cap(self) -> int {
        index_capacity(self.level - 1)
    }

    /// Whether the node's mask is all set: at level 0 one bit for each word
    /// it covers, above it one bit for each child.  Of a well-formed index
    /// this holds exactly when every word it covers is recorded as set
    /// (`lemma_full_iff`).
    pub closed spec fn full(self) -> bool {
        self.bits >= self.sub_mask
    }

    /// The value the node records for word `pos`, also past its length, up to
    /// the capacity of its level.
    pub closed spec fn slot(self, pos: int) -> bool {
        self.slot_rec(pos)
    }

    spec fn slot_rec(self, pos: int) -> bool
        decreases self.level,
    {
        if self.level == 0 {
            0 <= pos < 64 && bit_at(self.bits, pos as u64)
        } else {
            let sc = index_capacity(self.level - 1);
            let i = pos / sc;
            if 0 <= pos && 0 <= i < self.sub_entries@.len() && self.sub_entries@[i].level
                < self.level {
                self.sub_entries@[i].slot_rec(pos % sc)
            } else {
                false
            }
        }
    }

    /// Whether a query of word `pos` is answered without going out of range.
    pub closed spec fn readable(self, pos: int) -> bool {
        self.readable_rec(pos)
    }

    spec fn readable_rec(self, pos: int) -> bool
        decreases self.level,
    {
        if self.full() {
            true
        } else if self.level == 0 {
            0 <= pos < 64
        } else {
            let sc = index_capacity(self.level - 1);
            let i = pos / sc;
            0 <= pos && 0 <= i < self.sub_entries@.len() && self.sub_entries@[i].level < self.level
                && self.sub_entries@[i].readable_rec(pos % sc)
        }
    }

    /// The answer a query of word `pos` gives: set when the node is full, else
    /// what the node records for it.
    pub closed spec fn lookup(self, pos: int) -> bool {
        self.lookup_rec(pos)
    }

    spec fn lookup_rec(self, pos: int) -> bool
        decreases self.level,
    {
        if self.full() {
            true
        } else if self.level == 0 {
            0 <= pos < 64 && bit_at(self.bits, pos as u64)
        } else {
            let sc = index_capacity(self.level - 1);
            let i = pos / sc;
            if 0 <= pos && 0 <= i < self.sub_entries@.len() && self.sub_entries@[i].level
                < self.level {
                self.sub_entries@[i].lookup_rec(pos % sc)
            } else {
                false
            }
        }
    }

    /// The well-formedness of the index.
    pub closed spec fn wf(self) -> bool {
        self.wf_rec()
    }

    spec fn wf_rec(self) -> bool
        decreases self.level,
    {
        &&& self.level <= 9
        &&& self.length <= index_capacity(self.level as int)
        &&& index_capacity(self.level as int) <= usize::MAX
        &&& if self.level == 0 {
            &&& self.sub_entries@.len() == 0
            &&& self.sub_mask == low_mask(self.length as u64)
            &&& self.bits & !self.sub_mask == 0
        } else {
            let sc = index_capacity(self.level - 1);
            let k = self.sub_entries@.len();
            &&& sc < self.length
            &&& 1 <= k <= 64
            &&& (k - 1) * sc < self.length <= k * sc
            &&& self.sub_mask == low_mask(k as u64)
            &&& self.bits & !self.sub_mask == 0
            &&& forall|i: int|
                #![trigger self.sub_entries@[i]]
                0 <= i < k ==> {
                    let c = self.sub_entries@[i];
                    &&& c.level < self.level
                    &&& c.length == child_len(self.length as int, sc, i)
                    &&& c.wf_rec()
                    &&& (bit_at(self.bits, i as u64) <==> c.full())
                }
        }
    }

    proof fn lemma_sub_cap(self)
        requires
            self.wf(),
            self.level > 0,
        ensures
            self.sub_cap() >= 1,
            index_capacity(self.level as int) == 64 * self.sub_cap(),
            self.sub_cap() < self.length,
    {
        lemma_pow64_pos(self.level as int);
        assert(index_capacity(self.level as int) == pow64(self.level + 1));
    }

    /// An index is full exactly when every word it covers is recorded as set.
    pub proof fn lemma_full_iff(self)
        requires
            self.wf(),
        ensures
            self.full() <==> forall|p: int| 0 <= p < self.len() ==> #[trigger] self@[p],
    {
        if self.full() {
            self.lemma_full_slots();
        } else if forall|p: int| 0 <= p < self.len() ==> #[trigger] self@[p] {
            assert forall|p: int| 0 <= p < self.len() implies #[trigger] self.slot(p) by {
                assert(self@[p]);
            }
            self.lemma_all_set_full();
        }
    }

    proof fn lemma_full_slots(self)
        requires
            self.wf(),
            self.full(),
        ensures
            forall|p: int| 0 <= p < self.len() ==> #[trigger] self.slot(p),
        decreases self.level,
    {
        if self.level == 0 {
            lemma_pow64_values();
            lemma_subset_le(self.bits, self.sub_mask);
            assert(self.bits == self.sub_mask);
            assert forall|p: int| 0 <= p < self.len() implies #[trigger] self.slot(p) by {
                lemma_low_mask_bit(self.length as u64, p as u64);
            }
        } else {
            self.lemma_sub_cap();
            let sc = self.sub_cap();
            let k = self.sub_entries@.len();
            lemma_subset_le(self.bits, self.sub_mask);
            assert(self.bits == self.sub_mask);
            assert forall|p: int| 0 <= p < self.len() implies #[trigger] self.slot(p) by {
                lemma_split(p, sc, self.length as int, k as int);
                let i = p / sc;
                let c = self.sub_entries@[i];
                lemma_low_mask_bit(k as u64, i as u64);
                assert(bit_at(self.bits, i as u64));
                assert(c.full());
                assert(c.wf_rec());
                c.lemma_full_slots();
                assert(c.slot(p % sc));
                assert(self.slot_rec(p) == c.slot_rec(p % sc));
            }
        }
    }

    /// A node with every word it covers recorded as set is full.
    proof fn lemma_all_set_full(self)
        requires
            self.wf(),
            forall|p: int| 0 <= p < self.len() ==> #[trigger] self.slot(p),
        ensures
            self.full(),
        decreases self.level,
    {
        if self.level == 0 {
            lemma_pow64_values();
            assert forall|i: u64| i < self.length implies #[trigger] bit_at(self.bits, i) by {
                assert(self.slot(i as int));
            }
            lemma_all_low_bits(self.bits, self.length as u64);
        } else {
            self.lemma_sub_cap();
            let sc = self.sub_cap();
            let k = self.sub_entries@.len();
            assert forall|i: u64| i < k implies #[trigger] bit_at(self.bits, i) by {
                let c = self.sub_entries@[i as int];
                assert(c.wf_rec());
                assert(c.length <= self.length - i * sc);
                assert forall|q: int| 0 <= q < c.len() implies #[trigger] c.slot(q) by {
                    lemma_join(i as int, q, sc);
                    assert(i * sc >= 0) by (nonlinear_arith)
                        requires
                            sc >= 1,
                    ;
                    assert(self.slot(i * sc + q));
                }
                c.lemma_all_set_full();
            }
            lemma_all_low_bits(self.bits, k as u64);
        }
    }

    /// Every word the node covers can be queried.
    proof fn lemma_readable(self, pos: int)
        requires
            self.wf(),
            0 <= pos < self.len(),
        ensures
            self.readable(pos),
        decreases self.level,
    {
        lemma_pow64_values();
        if !self.full() && self.level > 0 {
            self.lemma_sub_cap();
            let sc = self.sub_cap();
            lemma_split(pos, sc, self.length as int, self.sub_entries@.len() as int);
            self.sub_entries@[pos / sc].lemma_readable(pos % sc);
        }
    }

    /// `64` to the power `p`.
    fn powof64(p: usize) -> (r: u64)
        requires
            p <= 10,
        ensures
            r == pow64(p as int),
    {
        proof {
            reveal_with_fuel(pow64, 11);
        }
        match p {
            0 => 1,
            1 => 64,
            2 => 4096,
            3 => 262144,
            4 => 16777216,
            5 => 1073741824,
            6 => 68719476736,
            7 => 4398046511104,
            8 => 281474976710656,
            9 => 18014398509481984,
            _ => 1152921504606846976,
        }
    }

    /// Words covered by a node of `level`.
    fn capacity(level: usize) -> (r: u64)
        requires
            level <= 9,
        ensures
            r == index_capacity(level as int),
    {
        Self::powof64(level + 1)
    }

    /// Words covered by each child of this node.
    fn subentry_capacity(&self) -> (r: usize)
        requires
            self.wf(),
            self.level > 0,
        ensures
            r == self.sub_cap(),
    {
        proof {
            self.lemma_sub_cap();
        }
        Self::capacity(self.level - 1) as usize
    }

    /// An index over `length` words, none of them set.
    pub fn new(length: usize) -> (r: Self)
        requires
            length <= 0x1000_0000_0000_0000,
            usize::MAX >= 0x1000_0000_0000_0000,
        ensures
            r.wf(),
            r.len() == length,
            forall|p: int| !#[trigger] r.slot(p),
            length > 0 ==> !r.full(),
            index_capacity(r.level_of() as int) >= length,
            r.level_of() == 0 || index_capacity(r.level_of() - 1) < length,
        decreases length,
    {
        proof {
            lemma_pow64_values();
        }
        let mut level: usize = 0;
        let mut found = false;
        while level < 10
            invariant_except_break
                level <= 10,
                !found,
                forall|j: int| 0 <= j < level ==> index_capacity(j) < length,
            ensures
                found ==> level <= 9 && index_capacity(level as int) >= length && (level == 0
                    || index_capacity(level - 1) < length),
                !found ==> forall|j: int| 0 <= j < 10 ==> index_capacity(j) < length,
            decreases 10 - level,
        {
            if Self::capacity(level) >= length as u64 {
                found = true;
                break;
            }
            level = level + 1;
        }
        if !found {
            assert(index_capacity(9) < length);
        }
        let mut sub_entries: Vec<BitMapIndex> = Vec::new();
        let mut sub_mask: u64 = 0;
        if level != 0 {
            let sc = Self::capacity(level - 1) as usize;
            proof {
                lemma_pow64_pos(level as int);
                assert(index_capacity(level as int) == 64 * sc);
                lemma_pow64_mono(level as int, 10);
                lemma_pow64_mono(level + 1, 10);
                assert(sub_mask == low_mask(0)) by {
                    assert(((1u64 << 0u64) - 1u64) as u64 == 0) by (bit_vector);
                }
            }
            let mut len = length;
            proof {
                assert(sub_entries@.len() == 0);
                assert(sub_entries@.len() * sc == 0) by (nonlinear_arith)
                    requires
                        sub_entries@.len() == 0,
                ;
            }
            while len > 0
                invariant
                    sc == index_capacity(level - 1),
                    1 <= sc < length,
                    sc <= index_capacity(9),
                    index_capacity(9) <= usize::MAX,
                    usize::MAX >= 0x1000_0000_0000_0000,
                    index_capacity(level as int) <= usize::MAX,
                    length <= 64 * sc,
                    1 <= level <= 9,
                    len <= length,
                    len > 0 ==> sub_entries@.len() * sc == length - len,
                    len == 0 ==> sub_entries@.len() >= 1 && (sub_entries@.len() - 1) * sc < length
                        && length <= sub_entries@.len() * sc,
                    sub_mask == low_mask(sub_entries@.len() as u64),
                    sub_entries@.len() <= 64,
                    forall|i: int|
                        #![trigger sub_entries@[i]]
                        0 <= i < sub_entries@.len() ==> {
                            let c = sub_entries@[i];
                            &&& c.level < level
                            &&& c.length == child_len(length as int, sc as int, i)
                            &&& c.wf_rec()
                            &&& forall|p: int| !#[trigger] c.slot_rec(p)
                            &&& !c.full()
                        },
                decreases len,
            {
                let current_len: usize = if sc < len {
                    sc
                } else {
                    len
                };
                let ghost j = sub_entries@.len();
                let ghost old_len = len;
                proof {
                    assert(j < 64) by (nonlinear_arith)
                        requires
                            j * sc == length - len,
                            len > 0,
                            length <= 64 * sc,
                    ;
                    lemma_low_mask_step(j as u64);
                }
                sub_mask = sub_mask + (1u64 << (sub_entries.len() as u64));
                let child = Self::new(current_len);
                proof {
                    assert(child.level < level) by {
                        if child.level >= level {
                            lemma_pow64_mono(level as int, child.level as int);
                        }
                    }
                }
                sub_entries.push(child);
                len = len - current_len;
                proof {
                    assert(child.length == child_len(length as int, sc as int, j as int));
                    if len > 0 {
                        assert(sub_entries@.len() * sc == length - len) by (nonlinear_arith)
                            requires
                                sub_entries@.len() == j + 1,
                                j * sc == length - old_len,
                                len == old_len - sc,
                        ;
                    } else {
                        assert((sub_entries@.len() - 1) * sc < length
                            && length <= sub_entries@.len() * sc) by (nonlinear_arith)
                            requires
                                sub_entries@.len() == j + 1,
                                j * sc == length - old_len,
                                old_len <= sc,
                                old_len > 0,
                        ;
                    }
                    assert forall|i: int|
                        #![trigger sub_entries@[i]]
                        0 <= i < sub_entries@.len() implies {
                            let c = sub_entries@[i];
                            &&& c.level < level
                            &&& c.length == child_len(length as int, sc as int, i)
                            &&& c.wf_rec()
                            &&& forall|p: int| !#[trigger] c.slot_rec(p)
                            &&& !c.full()
                        } by {
                        if i == j {
                            assert forall|p: int| !#[trigger] child.slot_rec(p) by {
                                assert(!child.slot(p));
                            }
                        }
                    }
                }
            }
            let ghost k = sub_entries@.len();
            let r = Self { bits: 0, level, length, sub_entries, sub_mask };
            proof {
                assert(0u64 & !sub_mask == 0) by (bit_vector);
                assert forall|i: int| 0 <= i < k implies (bit_at(r.bits, i as u64)
                    <==> r.sub_entries@[i].full()) by {
                    let iu = i as u64;
                    assert((0u64 >> iu) & 1u64 != 1u64) by (bit_vector);
                }
                assert forall|p: int| !#[trigger] r.slot(p) by {
                    let i = p / (sc as int);
                    if 0 <= p && 0 <= i < k {
                        assert(!r.sub_entries@[i].slot_rec(p % (sc as int)));
                    }
                }
                lemma_low_mask_bit(k as u64, 0);
                assert(sub_mask != 0) by {
                    assert(bit_at(sub_mask, 0));
                    assert((0u64 >> 0u64) & 1u64 != 1u64) by (bit_vector);
                }
            }
            r
        } else {
            proof {
                lemma_pow64_values();
            }
            let mask: u64 = if length == 64 {
                0xFFFF_FFFF_FFFF_FFFF
            } else {
                let l = length as u64;
                assert(1u64 << l >= 1u64) by (bit_vector)
                    requires
                        l < 64,
                ;
                (1u64 << l) - 1
            };
            let r = Self { bits: 0, level, length, sub_entries, sub_mask: mask };
            proof {
                lemma_pow64_mono(1, 10);
                assert forall|i: u64| !#[trigger] bit_at(0, i) by {
                    assert((0u64 >> i) & 1u64 != 1u64) by (bit_vector);
                }
                assert(0u64 & !mask == 0) by (bit_vector);
                if length > 0 {
                    lemma_low_mask_bit(length as u64, 0);
                }
            }
            r
        }
    }

    fn set_bit(&mut self, pos: usize)
        requires
            pos < 64,
        ensures
            final(self).bits == old(self).bits | (1u64 << pos as u64),
            final(self).level == old(self).level,
            final(self).length == old(self).length,
            final(self).sub_entries == old(self).sub_entries,
            final(self).sub_mask == old(self).sub_mask,
    {
        self.bits = self.bits | (1u64 << pos as u64);
    }

    fn clear_bit(&mut self, pos: usize)
        requires
            pos < 64,
        ensures
            final(self).bits == old(self).bits & !(1u64 << pos as u64),
            final(self).level == old(self).level,
            final(self).length == old(self).length,
            final(self).sub_entries == old(self).sub_entries,
            final(self).sub_mask == old(self).sub_mask,
    {
        self.bits = self.bits & !(1u64 << pos as u64);
    }

    fn get_bit(&self, pos: usize) -> (r: bool)
        requires
            pos < 64,
        ensures
            r == bit_at(self.bits, pos as u64),
    {
        proof {
            lemma_test_bit(self.bits, pos as u64);
        }
        self.bits & (1u64 << pos as u64) != 0
    }

    /// Whether every word the index covers is recorded as set.
    pub fn is_full(&self) -> (r: bool)
        ensures
            r == self.full(),
            self.wf() ==> (r <==> forall|p: int| 0 <= p < self.len() ==> #[trigger] self@[p]),
    {
        proof {
            if self.wf() {
                self.lemma_full_iff();
            }
        }
        self.bits >= self.sub_mask
    }
    /// A query inside the region answers what the index records for the word.
    proof fn lemma_lookup(self, pos: int)
        requires
            self.wf(),
            0 <= pos < self.len(),
        ensures
            self.lookup(pos) == self.slot(pos),
        decreases self.level,
    {
        if self.full() {
            self.lemma_full_slots();
        } else if self.level > 0 {
            self.lemma_sub_cap();
            let sc = self.sub_cap();
            lemma_split(pos, sc, self.length as int, self.sub_entries@.len() as int);
            let c = self.sub_entries@[pos / sc];
            c.lemma_lookup(pos % sc);
        }
    }

    /// Whether word `pos` is recorded as set.  Past the region's end only
    /// the positions that the query answers without going out of range are
    /// accepted.
    pub fn get(&self, pos: usize) -> (r: bool)
        requires
            self.wf(),
            pos < self.len() || self.readable(pos as int),
        ensures
            r == self.lookup(pos as int),
            pos < self.len() ==> r == self@[pos as int],
        decreases self.level_of(),
    {
        proof {
            if pos < self.len() {
                self.lemma_readable(pos as int);
                self.lemma_lookup(pos as int);
            }
        }
        if self.is_full() {
            true
        } else if self.level != 0 {
            let sc = self.subentry_capacity();
            let entry_index = pos / sc;
            let entry_offset = pos % sc;
            proof {
                assert(self.sub_entries@[entry_index as int].wf_rec());
            }
            self.sub_entries[entry_index].get(entry_offset)
        } else {
            self.get_bit(pos)
        }
    }

    /// Records word `pos` as set; answers whether the index is now full.
    pub fn set(&mut self, pos: usize) -> (r: bool)
        requires
            old(self).wf(),
            pos < old(self).len(),
        ensures
            final(self).wf(),
            final(self).len() == old(self).len(),
            final(self).level_of() == old(self).level_of(),
            forall|p: int| #[trigger] final(self).slot(p) == (p == pos || old(self).slot(p)),
            final(self)@ == old(self)@.update(pos as int, true),
            r == final(self).full(),
            r == forall|p: int| 0 <= p < final(self).len() ==> #[trigger] final(self)@[p],
            old(self).full() ==> r,
        decreases old(self).level_of(),
    {
        let ghost old_self = *self;
        if self.is_full() {
            proof {
                self.lemma_full_slots();
                assert(self@ =~= old_self@.update(pos as int, true));
                self.lemma_full_iff();
            }
            true
        } else if self.level == 0 {
            proof {
                assert(pos < 64) by {
                    lemma_pow64_values();
                }
            }
            self.set_bit(pos);
            proof {
                lemma_mask_kept(old_self.bits, self.length as u64, pos as u64);
                assert forall|p: int| #[trigger] self.slot(p) == (p == pos || old_self.slot(p)) by {
                    if 0 <= p < 64 {
                        lemma_set_bit(old_self.bits, pos as u64, p as u64);
                    }
                }
                assert(self@ =~= old_self@.update(pos as int, true));
                self.lemma_full_iff();
            }
            self.is_full()
        } else {
            let sc = self.subentry_capacity();
            let entry_index = pos / sc;
            let entry_offset = pos % sc;
            let ghost k = self.sub_entries@.len();
            proof {
                lemma_split(pos as int, sc as int, self.length as int, k as int);
                assert(self.sub_entries@[entry_index as int].wf_rec());
            }
            let child_full = self.sub_entries[entry_index].set(entry_offset);
            if child_full {
                self.set_bit(entry_index);
            }
            proof {
                let i = entry_index as int;
                lemma_mask_kept(old_self.bits, k as u64, entry_index as u64);
                assert forall|j: int|
                    #![trigger self.sub_entries@[j]]
                    0 <= j < k implies {
                        let c = self.sub_entries@[j];
                        &&& c.level < self.level
                        &&& c.length == child_len(self.length as int, sc as int, j)
                        &&& c.wf_rec()
                        &&& (bit_at(self.bits, j as u64) <==> c.full())
                    } by {
                    assert(old_self.sub_entries@[j].wf_rec());
                    if child_full {
                        lemma_set_bit(old_self.bits, entry_index as u64, j as u64);
                    }
                }
                assert(self.wf_rec());
                assert forall|p: int| #[trigger] self.slot(p) == (p == pos || old_self.slot(p)) by {
                    let q = p / (sc as int);
                    if 0 <= p && 0 <= q < k {
                        if q == i {
                            lemma_fundamental_div_mod(p, sc as int);
                            lemma_fundamental_div_mod(pos as int, sc as int);
                            assert(self.sub_entries@[q].slot(p % (sc as int)) == (p % (sc as int)
                                == entry_offset || old_self.sub_entries@[q].slot(p % (sc as int))));
                        }
                    }
                }
                assert(self@ =~= old_self@.update(pos as int, true));
                if old_self.full() {
                    assert(false);
                }
                self.lemma_full_iff();
            }
            self.is_full()
        }
    }

    /// Records word `pos` as clear.
    pub fn clear(&mut self, pos: usize)
        requires
            old(self).wf(),
            pos < old(self).len(),
        ensures
            final(self).wf(),
            final(self).len() == old(self).len(),
            final(self).level_of() == old(self).level_of(),
            forall|p: int| #[trigger] final(self).slot(p) == (p != pos && old(self).slot(p)),
            final(self)@ == old(self)@.update(pos as int, false),
            !final(self).full(),
        decreases old(self).level_of(),
    {
        let ghost old_self = *self;
        if self.level == 0 {
            proof {
                assert(pos < 64) by {
                    lemma_pow64_values();
                }
            }
            self.clear_bit(pos);
            proof {
                lemma_pow64_values();
                lemma_mask_kept(old_self.bits, self.length as u64, pos as u64);
                assert forall|p: int| #[trigger] self.slot(p) == (p != pos && old_self.slot(p)) by {
                    if 0 <= p < 64 {
                        lemma_clear_bit(old_self.bits, pos as u64, p as u64);
                    }
                }
                assert(self@ =~= old_self@.update(pos as int, false));
                self.lemma_full_iff();
                assert(!self@[pos as int]);
            }
        } else {
            let sc = self.subentry_capacity();
            let entry_index = pos / sc;
            let entry_offset = pos % sc;
            let ghost k = self.sub_entries@.len();
            proof {
                lemma_split(pos as int, sc as int, self.length as int, k as int);
                assert(self.sub_entries@[entry_index as int].wf_rec());
            }
            self.sub_entries[entry_index].clear(entry_offset);
            self.clear_bit(entry_index);
            proof {
                let i = entry_index as int;
                lemma_mask_kept(old_self.bits, k as u64, entry_index as u64);
                let c = self.sub_entries@[i];
                if c.full() {
                    c.lemma_full_slots();
                    assert(c.slot(entry_offset as int));
                }
                assert forall|j: int|
                    #![trigger self.sub_entries@[j]]
                    0 <= j < k implies {
                        let c = self.sub_entries@[j];
                        &&& c.level < self.level
                        &&& c.length == child_len(self.length as int, sc as int, j)
                        &&& c.wf_rec()
                        &&& (bit_at(self.bits, j as u64) <==> c.full())
                    } by {
                    assert(old_self.sub_entries@[j].wf_rec());
                    lemma_clear_bit(old_self.bits, entry_index as u64, j as u64);
                }
                assert(self.wf_rec());
                assert forall|p: int| #[trigger] self.slot(p) == (p != pos && old_self.slot(p)) by {
                    let q = p / (sc as int);
                    if 0 <= p && 0 <= q < k {
                        if q == i {
                            lemma_fundamental_div_mod(p, sc as int);
                            lemma_fundamental_div_mod(pos as int, sc as int);
                            assert(self.sub_entries@[q].slot(p % (sc as int)) == (p % (sc as int)
                                != entry_offset && old_self.sub_entries@[q].slot(
                                p % (sc as int),
                            )));
                        }
                    }
                }
                assert(self@ =~= old_self@.update(pos as int, false));
                self.lemma_full_iff();
                assert(!self@[pos as int]);
            }
        }
    }

    /// Records word `pos` as `val`.
    pub fn set_val(&mut self, pos: usize, val: bool)
        requires
            old(self).wf(),
            pos < old(self).len() || old(self).readable(pos as int),
            val != old(self).lookup(pos as int) ==> pos < old(self).len(),
        ensures
            final(self).wf(),
            final(self).len() == old(self).len(),
            final(self).level_of() == old(self).level_of(),
            pos < old(self).len() ==> final(self)@ == old(self)@.update(pos as int, val),
            pos >= old(self).len() ==> *final(self) == *old(self),
            forall|p: int|
                #![trigger final(self).slot(p)]
                p != pos ==> final(self).slot(p) == old(self).slot(p),
    {
        proof {
            if pos < self.len() {
                self.lemma_readable(pos as int);
                self.lemma_lookup(pos as int);
            }
        }
        if val && !self.get(pos) {
            self.set(pos);
        } else if !val && self.get(pos) {
            self.clear(pos);
        } else {
            proof {
                if pos < self.len() {
                    assert(self@ =~= self@.update(pos as int, val));
                }
            }
        }
    }

    /// The first word recorded as clear; `None` when every word is set.
    pub fn first_empty(&self) -> (r: Option<usize>)
        requires
            self.wf(),
        ensures
            r is None <==> self.full(),
            r is None <==> forall|p: int| 0 <= p < self.len() ==> #[trigger] self@[p],
            r matches Some(p) ==> p < self.len() && !self.slot(p as int) && forall|q: int|
                0 <= q < p ==> #[trigger] self.slot(q),
            r matches Some(p) ==> !self@[p as int] && forall|q: int| 0 <= q < p ==> #[trigger] self@[q],
        decreases self.level_of(),
    {
        proof {
            self.lemma_full_iff();
        }
        if self.is_full() {
            None
        } else {
            if self.level == 0 {
                let mut i: usize = 0;
                while i < 64
                    invariant
                        self.wf(),
                        self.level == 0,
                        !self.full(),
                        i <= 64,
                        forall|q: u64| q < i ==> #[trigger] bit_at(self.bits, q),
                    decreases 64 - i,
                {
                    if !self.get_bit(i) {
                        proof {
                            lemma_pow64_values();
                            assert forall|q: int| 0 <= q < i implies #[trigger] self.slot(q) by {
                                assert(bit_at(self.bits, q as u64));
                            }
                            if i >= self.length {
                                lemma_all_low_bits(self.bits, self.length as u64);
                            }
                            self.lemma_full_iff();
                        }
                        return Some(i);
                    }
                    i = i + 1;
                }
                proof {
                    lemma_pow64_values();
                    lemma_all_low_bits(self.bits, self.length as u64);
                }
                None
            } else {
                let sc = self.subentry_capacity();
                let ghost k = self.sub_entries@.len();
                let mut i: usize = 0;
                while i < self.sub_entries.len()
                    invariant
                        self.wf(),
                        self.level > 0,
                        !self.full(),
                        sc == self.sub_cap(),
                        k == self.sub_entries@.len(),
                        i <= k,
                        forall|q: u64| q < i ==> #[trigger] bit_at(self.bits, q),
                    decreases k - i,
                {
                    if !self.get_bit(i) {
                        let ghost c = self.sub_entries@[i as int];
                        proof {
                            self.lemma_sub_cap();
                            assert(c.wf_rec());
                        }
                        let sub = self.sub_entries[i].first_empty();
                        let off = match sub {
                            Some(o) => o,
                            None => 0,
                        };
                        proof {
                            assert(sub is Some);
                            if c.level + 1 < self.level {
                                lemma_pow64_mono(c.level + 1, self.level as int);
                            }
                            assert(off < sc);
                            assert(c.length == child_len(self.length as int, sc as int, i as int));
                            assert(off < self.length - i * sc);
                            assert(sc * i + off < 64 * sc) by (nonlinear_arith)
                                requires
                                    off < sc,
                                    i < 64,
                            ;
                            lemma_join(i as int, off as int, sc as int);
                            assert((i * sc) == sc * i) by (nonlinear_arith);
                            assert forall|q: int| 0 <= q < sc * i + off implies #[trigger] self.slot(q) by {
                                lemma_fundamental_div_mod(q, sc as int);
                                let qi = q / (sc as int);
                                let qo = q % (sc as int);
                                vstd::arithmetic::div_mod::lemma_mod_pos_bound(q, sc as int);
                                assert(0 <= qi <= i) by (nonlinear_arith)
                                    requires
                                        q == sc * qi + qo,
                                        0 <= qo < sc,
                                        0 <= q < sc * i + off,
                                        off < sc,
                                ;
                                if qi < i {
                                    let d = self.sub_entries@[qi];
                                    assert(bit_at(self.bits, qi as u64));
                                    assert(d.wf_rec());
                                    d.lemma_full_slots();
                                    assert(child_len(self.length as int, sc as int, qi) == sc) by (nonlinear_arith)
                                        requires
                                            (k - 1) * sc < self.length,
                                            qi < i,
                                            i < k,
                                            sc >= 1,
                                    ;
                                    assert(d.slot(qo));
                                } else {
                                    assert(qo < off) by (nonlinear_arith)
                                        requires
                                            q == sc * qi + qo,
                                            qi == i,
                                            q < sc * i + off,
                                    ;
                                    assert(c.slot(qo));
                                }
                            }
                            self.lemma_full_iff();
                        }
                        return Some(sc * i + off);
                    }
                    i = i + 1;
                }
                proof {
                    lemma_all_low_bits(self.bits, k as u64);
                }
                None
            }
        }
    }

}


/// Number of set bits among the lowest `n` bits of `w`.
pub open spec fn ones(w: u64, n: nat) -> nat
    decreases n,
{
    if n == 0 {
        0
    } else {
        ones(w, (n - 1) as nat) + if bit_at(w, (n - 1) as u64) {
            1nat
        } else {
            0nat
        }
    }
}

/// Number of set bits in a sequence of words.
pub open spec fn total_ones(ws: Seq<u64>) -> nat
    decreases ws.len(),
{
    if ws.len() == 0 {
        0
    } else {
        total_ones(ws.drop_last()) + ones(ws.last(), 64)
    }
}

/// The bits of a sequence of words, word after word, lowest bit first.
pub open spec fn word_bits(ws: Seq<u64>) -> Seq<bool> {
    Seq::new(ws.len() * 64, |p: int| bit_at(ws[p / 64], (p % 64) as u64))
}

/// The number of set entries of `s`.
pub open spec fn set_count(s: Seq<bool>) -> nat
    decreases s.len(),
{
    if s.len() == 0 {
        0
    } else {
        set_count(s.drop_last()) + if s.last() {
            1nat
        } else {
            0nat
        }
    }
}

proof fn lemma_set_count_add(a: Seq<bool>, b: Seq<bool>)
    ensures
        set_count(a + b) == set_count(a) + set_count(b),
    decreases b.len(),
{
    if b.len() == 0 {
        assert(a + b =~= a);
    } else {
        lemma_set_count_add(a, b.drop_last());
        assert((a + b).drop_last() =~= a + b.drop_last());
        assert((a + b).last() == b.last());
    }
}

/// The lowest `n` bits of `w`, lowest first.
pub open spec fn low_bits(w: u64, n: nat) -> Seq<bool> {
    Seq::new(n, |i: int| bit_at(w, i as u64))
}

proof fn lemma_ones_count(w: u64, n: nat)
    ensures
        ones(w, n) == set_count(low_bits(w, n)),
    decreases n,
{
    if n > 0 {
        lemma_ones_count(w, (n - 1) as nat);
        assert(low_bits(w, n).drop_last() =~= low_bits(w, (n - 1) as nat));
    }
}

proof fn lemma_word_bits_step(ws: Seq<u64>)
    requires
        ws.len() > 0,
    ensures
        word_bits(ws) == word_bits(ws.drop_last()) + low_bits(ws.last(), 64),
{
    let k = ws.len() - 1;
    let lhs = word_bits(ws);
    let rhs = word_bits(ws.drop_last()) + low_bits(ws.last(), 64);
    assert forall|p: int| 0 <= p < lhs.len() implies #[trigger] lhs[p] == rhs[p] by {
        lemma_fundamental_div_mod(p, 64);
        if p < k * 64 {
            assert(p / 64 < k) by (nonlinear_arith)
                requires
                    p == 64 * (p / 64) + p % 64,
                    0 <= p % 64,
                    p < k * 64,
            ;
            assert(0 <= p / 64) by {
                vstd::arithmetic::div_mod::lemma_div_pos_is_pos(p, 64);
            }
        } else {
            lemma_fundamental_div_mod_converse(p, 64, k, p - k * 64);
        }
    }
    assert(lhs =~= rhs);
}

/// The number of set bits of the words `ws` is the number of set entries
/// of their bits.
pub proof fn lemma_total_ones_counts_bits(ws: Seq<u64>)
    ensures
        total_ones(ws) == set_count(word_bits(ws)),
    decreases ws.len(),
{
    if ws.len() == 0 {
        assert(word_bits(ws) =~= Seq::<bool>::empty());
    } else {
        lemma_total_ones_counts_bits(ws.drop_last());
        lemma_word_bits_step(ws);
        lemma_set_count_add(word_bits(ws.drop_last()), low_bits(ws.last(), 64));
        lemma_ones_count(ws.last(), 64);
    }
}

/// A bitmap stored in a region of 64-bit words, starting at `start_addr`.
pub struct BitMap {
    length: usize,
    start_addr: PhysAddr,
    words: Vec<u64>,
    root_index: BitMapIndex,
}

impl View for BitMap {
    type V = Seq<bool>;

    /// The bits of the region.
    closed spec fn view(&self) -> Seq<bool> {
        word_bits(self.words@)
    }
}

impl BitMap {
    /// The words of the region.
    pub closed spec fn words_of(self) -> Seq<u64> {
        self.words@
    }

    /// The length in bits the bitmap was made with.
    pub closed spec fn length_of(self) -> nat {
        self.length as nat
    }

    /// Where the region starts.
    pub closed spec fn start_of(self) -> PhysAddr {
        self.start_addr
    }

    /// The bitmap has 64 bits for each of its words.
    pub proof fn lemma_len(self)
        ensures
            self@.len() == self.words_of().len() * 64,
    {
    }

    /// The well-formedness of the bitmap: the index records exactly the words
    /// whose bits are all set.
    pub closed spec fn wf(self) -> bool {
        &&& self.root_index.wf()
        &&& self.root_index.len() == self.words@.len()
        &&& self.words@.len() == self.length / 64
        &&& forall|w: int|
            0 <= w < self.words@.len() ==> #[trigger] self.root_index.slot(w) == (self.words@[w]
                == 0xFFFF_FFFF_FFFF_FFFFu64)
    }

    proof fn lemma_word_bit(self, pos: int)
        requires
            self.wf(),
            0 <= pos < self@.len(),
        ensures
            0 <= pos / 64 < self.words@.len(),
            self@[pos] == bit_at(self.words@[pos / 64], (pos % 64) as u64),
            self.words@[pos / 64] == 0xFFFF_FFFF_FFFF_FFFFu64 ==> self@[pos],
    {
        let w = self.words@[pos / 64];
        lemma_low_mask_bit(64, (pos % 64) as u64);
    }

    /// A bitmap over `length` bits held in `words` (`length / 64` of them), at `start_addr`.
    pub fn new(start_addr: PhysAddr, length: usize, words: Vec<u64>) -> (r: Self)
        requires
            words@.len() == length / 64,
            usize::MAX >= 0x1000_0000_0000_0000,
        ensures
            r.wf(),
            r@ == word_bits(words@),
            r.words_of() == words@,
            r.length_of() == length,
            r.start_of() == start_addr,
    {
        let n = length / 64;
        proof {
            lemma_pow64_values();
            assert(n <= index_capacity(9));
        }
        let mut bi = BitMapIndex::new(n);
        let mut i: usize = 0;
        while i < n
            invariant
                bi.wf(),
                bi.len() == n,
                n == words@.len(),
                i <= n,
                forall|w: int| 0 <= w < i ==> #[trigger] bi.slot(w) == (words@[w] == 0xFFFF_FFFF_FFFF_FFFFu64),
                forall|w: int| i <= w ==> !#[trigger] bi.slot(w),
            decreases n - i,
        {
            proof {
                bi.lemma_readable(i as int);
                bi.lemma_lookup(i as int);
            }
            bi.set_val(i, words[i] == 0xFFFF_FFFF_FFFF_FFFF);
            proof {
                assert(bi@[i as int] == bi.slot(i as int));
            }
            i = i + 1;
        }
        Self { length, start_addr, words, root_index: bi }
    }

    fn raw_get_bits(&self, arr_index: usize) -> (r: u64)
        requires
            arr_index < self.words@.len(),
        ensures
            r == self.words@[arr_index as int],
    {
        self.words[arr_index]
    }

    fn raw_get(&self, pos: usize) -> (r: bool)
        requires
            self.wf(),
            pos < self@.len(),
        ensures
            r == self@[pos as int],
    {
        let arr_index = pos / 64;
        let arr_offset = pos % 64;
        proof {
            self.lemma_word_bit(pos as int);
            lemma_test_bit(self.words@[arr_index as int], arr_offset as u64);
        }
        self.raw_get_bits(arr_index) & (1u64 << arr_offset as u64) != 0
    }

    fn raw_set(&mut self, pos: usize)
        requires
            old(self).wf(),
            pos < old(self)@.len(),
        ensures
            final(self).words@ == old(self).words@.update(
                pos as int / 64,
                old(self).words@[pos as int / 64] | (1u64 << (pos % 64) as u64),
            ),
            final(self).root_index == old(self).root_index,
            final(self).length == old(self).length,
            final(self).start_addr == old(self).start_addr,
    {
        let arr_index = pos / 64;
        let arr_offset = pos % 64;
        let bits_before = self.raw_get_bits(arr_index);
        self.words.set(arr_index, bits_before | (1u64 << arr_offset as u64));
    }

    fn raw_clear(&mut self, pos: usize)
        requires
            old(self).wf(),
            pos < old(self)@.len(),
        ensures
            final(self).words@ == old(self).words@.update(
                pos as int / 64,
                old(self).words@[pos as int / 64] & !(1u64 << (pos % 64) as u64),
            ),
            final(self).root_index == old(self).root_index,
            final(self).length == old(self).length,
            final(self).start_addr == old(self).start_addr,
    {
        let arr_index = pos / 64;
        let arr_offset = pos % 64;
        let bits_before = self.raw_get_bits(arr_index);
        self.words.set(arr_index, bits_before & !(1u64 << arr_offset as u64));
    }

    /// Bit `pos`.
    pub fn get(&self, pos: usize) -> (r: bool)
        requires
            self.wf(),
            pos < self@.len(),
        ensures
            r == self@[pos as int],
    {
        proof {
            self.lemma_word_bit(pos as int);
            self.root_index.lemma_readable(pos as int / 64);
            self.root_index.lemma_lookup(pos as int / 64);
        }
        if self.root_index.get(pos / 64) {
            true
        } else {
            self.raw_get(pos)
        }
    }

    proof fn lemma_update_word(self, old_self: Self, pos: int, w: u64, set: bool)
        requires
            old_self.wf(),
            0 <= pos < old_self@.len(),
            self.words@ == old_self.words@.update(pos / 64, w),
            forall|i: u64| i < 64 ==> #[trigger] bit_at(w, i) == (if i == (pos % 64) as u64 {
                set
            } else {
                bit_at(old_self.words@[pos / 64], i)
            }),
        ensures
            self@ == old_self@.update(pos, set),
    {
        assert forall|q: int| 0 <= q < self@.len() implies #[trigger] self@[q] == old_self@.update(pos, set)[q] by {
            if q / 64 == pos / 64 {
                assert(q % 64 == pos % 64 <==> q == pos) by {
                    lemma_fundamental_div_mod(q, 64);
                    lemma_fundamental_div_mod(pos, 64);
                }
            }
        }
        assert(self@ =~= old_self@.update(pos, set));
    }

    /// Sets bit `pos`.
    pub fn set(&mut self, pos: usize)
        requires
            old(self).wf(),
            pos < old(self)@.len(),
        ensures
            final(self).wf(),
            final(self)@ == old(self)@.update(pos as int, true),
            final(self).length_of() == old(self).length_of(),
            final(self).start_of() == old(self).start_of(),
    {
        let ghost old_self = *self;
        proof {
            old_self.lemma_word_bit(pos as int);
        }
        self.raw_set(pos);
        let w = pos / 64;
        proof {
            assert forall|i: u64| i < 64 implies #[trigger] bit_at(self.words@[w as int], i) == (
            if i == (pos % 64) as u64 {
                true
            } else {
                bit_at(old_self.words@[w as int], i)
            }) by {
                lemma_set_bit(old_self.words@[w as int], (pos % 64) as u64, i);
            }
            self.lemma_update_word(old_self, pos as int, self.words@[w as int], true);
        }
        if self.raw_get_bits(w) == 0xFFFF_FFFF_FFFF_FFFF {
            self.root_index.set(w);
        } else {
            proof {
                if old_self.root_index.slot(w as int) {
                    let ow = old_self.words@[w as int];
                    assert(ow | (1u64 << (pos % 64) as u64) == 0xFFFF_FFFF_FFFF_FFFFu64) by (bit_vector)
                        requires
                            ow == 0xFFFF_FFFF_FFFF_FFFFu64,
                    ;
                }
            }
        }
    }

    /// Clears bit `pos`.
    pub fn clear(&mut self, pos: usize)
        requires
            old(self).wf(),
            pos < old(self)@.len(),
        ensures
            final(self).wf(),
            final(self)@ == old(self)@.update(pos as int, false),
            final(self).length_of() == old(self).length_of(),
            final(self).start_of() == old(self).start_of(),
    {
        let ghost old_self = *self;
        proof {
            old_self.lemma_word_bit(pos as int);
        }
        self.raw_clear(pos);
        let w = pos / 64;
        proof {
            assert forall|i: u64| i < 64 implies #[trigger] bit_at(self.words@[w as int], i) == (
            if i == (pos % 64) as u64 {
                false
            } else {
                bit_at(old_self.words@[w as int], i)
            }) by {
                lemma_clear_bit(old_self.words@[w as int], (pos % 64) as u64, i);
            }
            self.lemma_update_word(old_self, pos as int, self.words@[w as int], false);
            let nw = self.words@[w as int];
            lemma_low_mask_bit(64, (pos % 64) as u64);
            assert(nw != 0xFFFF_FFFF_FFFF_FFFFu64);
        }
        self.root_index.clear(w);
    }

    /// Sets bit `pos` to `val`.
    pub fn set_val(&mut self, pos: usize, val: bool)
        requires
            old(self).wf(),
            pos < old(self)@.len(),
        ensures
            final(self).wf(),
            final(self)@ == old(self)@.update(pos as int, val),
            final(self).length_of() == old(self).length_of(),
            final(self).start_of() == old(self).start_of(),
    {
        if val {
            self.set(pos);
        } else {
            self.clear(pos);
        }
    }

    /// The lowest clear bit, or `None` when every bit is set.
    pub fn first_empty(&self) -> (r: Option<usize>)
        requires
            self.wf(),
        ensures
            r is None <==> forall|p: int| 0 <= p < self@.len() ==> #[trigger] self@[p],
            r matches Some(p) ==> p < self@.len() && !self@[p as int] && forall|q: int|
                0 <= q < p ==> #[trigger] self@[q],
    {
        let n = self.words.len();
        match self.root_index.first_empty() {
            None => {
                proof {
                    self.root_index.lemma_full_slots();
                    assert forall|p: int| 0 <= p < self@.len() implies #[trigger] self@[p] by {
                        self.lemma_word_bit(p);
                        assert(self.root_index.slot(p / 64));
                    }
                }
                None
            },
            Some(arr_index) => {
                proof {
                    assert(!self.root_index.slot(arr_index as int));
                    assert(self.words@[arr_index as int] != 0xFFFF_FFFF_FFFF_FFFFu64);
                }
                let word = self.raw_get_bits(arr_index);
                let mut i: usize = 0;
                while i < 64
                    invariant
                        self.wf(),
                        arr_index < n,
                        n == self.words@.len(),
                        word == self.words@[arr_index as int],
                        word != 0xFFFF_FFFF_FFFF_FFFFu64,
                        forall|q: int| 0 <= q < arr_index ==> #[trigger] self.root_index.slot(q),
                        i <= 64,
                        forall|q: u64| q < i ==> #[trigger] bit_at(word, q),
                    decreases 64 - i,
                {
                    let pos = arr_index * 64 + i;
                    proof {
                        lemma_join(arr_index as int, i as int, 64);
                    }
                    if !self.raw_get(pos) {
                        proof {
                            assert forall|q: int| 0 <= q < pos implies #[trigger] self@[q] by {
                                self.lemma_word_bit(q);
                                lemma_fundamental_div_mod(q, 64);
                                if q / 64 < arr_index {
                                    assert(0 <= q / 64);
                                    assert(self.root_index.slot(q / 64));
                                    lemma_low_mask_bit(64, (q % 64) as u64);
                                } else {
                                    assert(bit_at(word, (q % 64) as u64));
                                }
                            }
                        }
                        return Some(pos);
                    }
                    i = i + 1;
                }
                proof {
                    let b = word;
                    assert(b & !0xFFFF_FFFF_FFFF_FFFFu64 == 0) by (bit_vector);
                    lemma_all_low_bits(word, 64);
                }
                None
            },
        }
    }

    /// Clears every bit.
    pub fn clear_all(&mut self)
        requires
            old(self).wf(),
            old(self).length_of() % 64 == 0,
        ensures
            final(self).wf(),
            final(self)@.len() == old(self)@.len(),
            forall|p: int| 0 <= p < final(self)@.len() ==> !#[trigger] final(self)@[p],
            final(self).length_of() == old(self).length_of(),
            final(self).start_of() == old(self).start_of(),
    {
        let ghost len0 = self@.len();
        let ghost start0 = self.start_addr;
        let mut i: usize = 0;
        while i < self.length
            invariant
                self.wf(),
                self.start_addr == start0,
                self@.len() == len0,
                len0 == self.length,
                i <= self.length,
                forall|p: int| 0 <= p < i ==> !#[trigger] self@[p],
            decreases self.length - i,
        {
            self.clear(i);
            i = i + 1;
        }
    }

    /// Number of set bits (for profiling).
    pub fn count(&self) -> (r: usize)
        requires
            self.wf(),
        ensures
            r == total_ones(self.words_of()),
            r == set_count(self@),
    {
        let n = self.length / 64;
        let mut res: usize = 0;
        let mut i: usize = 0;
        while i < n
            invariant
                self.wf(),
                n == self.words@.len(),
                n * 64 <= self.length,
                i <= n,
                res == total_ones(self.words@.subrange(0, i as int)),
                res <= i * 64,
            decreases n - i,
        {
            let c = count_ones(self.raw_get_bits(i));
            proof {
                let s = self.words@.subrange(0, i as int + 1);
                assert(s.drop_last() =~= self.words@.subrange(0, i as int));
                assert(res + c <= (i + 1) * 64) by (nonlinear_arith)
                    requires
                        res <= i * 64,
                        c <= 64,
                ;
                assert((i + 1) * 64 <= n * 64) by (nonlinear_arith)
                    requires
                        i < n,
                ;
            }
            res = res + c;
            i = i + 1;
        }
        proof {
            assert(self.words@.subrange(0, n as int) =~= self.words@);
            lemma_total_ones_counts_bits(self.words@);
        }
        res
    }
}

proof fn lemma_ones_bound(w: u64, n: nat)
    ensures
        ones(w, n) <= n,
    decreases n,
{
    if n > 0 {
        lemma_ones_bound(w, (n - 1) as nat);
    }
}

/// Number of set bits of `w`.
fn count_ones(w: u64) -> (r: usize)
    ensures
        r == ones(w, 64),
        r <= 64,
{
    let mut c: usize = 0;
    let mut j: u64 = 0;
    while j < 64
        invariant
            j <= 64,
            c == ones(w, j as nat),
            c <= j,
        decreases 64 - j,
    {
        proof {
            lemma_ones_bound(w, j as nat);
        }
        if (w >> j) & 1u64 == 1u64 {
            c = c + 1;
        }
        j = j + 1;
    }
    c
}

} // verus!
