//! Sv39 page tables: three levels of 512 entries, each level a page of
//! physical memory.  The pages that hold tables are kept here as frames of
//! entries; new ones come from the page allocator.
use vstd::prelude::*;
use crate::error::ErrorNum;
use super::types::{PhysPageNum, VirtPageNum, vpn_index};
use super::pte::{PTEFlags, PageTableEntry, ppn_field, FLAG_MASK, lemma_set_fields, lemma_new_entry_fields};
use super::page_allocator::BitMapPageAllocator;

verus! {

/// The pages that may hold page tables: frame `k` holds the 512 entries of
/// the page `base + k`.
pub struct PageMem {
    pub base: usize,
    pub frames: Vec<Vec<u64>>,
}

/// What the pages hold: the first page and the entries of each.
pub struct MemModel {
    pub base: int,
    pub frames: Seq<Seq<u64>>,
}

impl View for PageMem {
    type V = MemModel;

    open spec fn view(&self) -> MemModel {
        MemModel { base: self.base as int, frames: Seq::new(self.frames@.len(), |i: int| self.frames@[i]@) }
    }
}

/// Every frame holds 512 entries, and the page numbers fit an entry.
pub open spec fn mem_wf(m: MemModel) -> bool {
    &&& 0 <= m.base
    &&& m.base + m.frames.len() <= 0x1000_0000_0000
    &&& m.base + m.frames.len() <= usize::MAX
    &&& forall|k: int| 0 <= k < m.frames.len() ==> (#[trigger] m.frames[k]).len() == 512
}

/// The page `p` is one of the frames.
pub open spec fn has(m: MemModel, p: int) -> bool {
    m.base <= p < m.base + m.frames.len()
}

/// Entry `i` of the page `p`.
pub open spec fn ent(m: MemModel, p: int, i: int) -> u64 {
    m.frames[p - m.base][i]
}

/// An entry is valid.
pub open spec fn valid(e: u64) -> bool {
    e & 1u64 == 1u64
}

/// The page an entry points at.
pub open spec fn next(e: u64) -> int {
    ppn_field(e) as int
}

/// The index of `vpn` at `level`, the root's level being 0.
pub open spec fn idx(vpn: usize, level: int) -> int {
    vpn_index(vpn, level) as int
}

/// Where the entry of `vpn` lies under the root page `root`: its page and
/// index; `None` when an upper entry on the way is not valid.
pub open spec fn walk_spec(m: MemModel, root: int, vpn: usize) -> Option<(int, int)> {
    let e0 = ent(m, root, idx(vpn, 0));
    if !valid(e0) {
        None
    } else {
        let e1 = ent(m, next(e0), idx(vpn, 1));
        if !valid(e1) {
            None
        } else {
            Some((next(e1), idx(vpn, 2)))
        }
    }
}

/// The page that `vpn` is mapped to under the root page `root`;
/// `EADDRNOTAVAIL` when it is not mapped.
pub open spec fn translate_spec(m: MemModel, root: int, vpn: usize) -> Result<usize, ErrorNum> {
    match walk_spec(m, root, vpn) {
        None => Err(ErrorNum::EADDRNOTAVAIL),
        Some((p, i)) => if valid(ent(m, p, i)) {
            Ok(next(ent(m, p, i)) as usize)
        } else {
            Err(ErrorNum::EADDRNOTAVAIL)
        },
    }
}

/// The tables under `root` are frames, and no table points back at a table
/// above it on its way: the root's valid entries point at frames other than
/// the root, and their valid entries at frames other than the root and
/// themselves; and no table of the last level is one of the middle level.
pub open spec fn tables_ok(m: MemModel, root: int) -> bool {
    &&& mem_wf(m)
    &&& has(m, root)
    &&& forall|i: int|
        0 <= i < 512 && valid(#[trigger] ent(m, root, i)) ==> has(m, next(ent(m, root, i))) && next(
            ent(m, root, i),
        ) != root
    &&& forall|i: int, j: int|
        0 <= i < 512 && 0 <= j < 512 && valid(ent(m, root, i)) && valid(#[trigger] ent(m, next(ent(m, root, i)), j))
            ==> has(m, next(ent(m, next(ent(m, root, i)), j))) && next(ent(m, next(ent(m, root, i)), j)) != root
            && next(ent(m, next(ent(m, root, i)), j)) != next(ent(m, root, i))
    &&& forall|i: int, j: int, k: int|
        0 <= i < 512 && 0 <= j < 512 && 0 <= k < 512 && valid(ent(m, root, i)) && valid(
            #[trigger] ent(m, next(ent(m, root, i)), j),
        ) && valid(#[trigger] ent(m, root, k)) ==> next(ent(m, next(ent(m, root, i)), j)) != next(ent(m, root, k))
}

/// Every table under `root` is a page that the allocator's bitmap `fs`
/// (indexed from the first frame) has as taken.
pub open spec fn owned(m: MemModel, root: int, fs: Seq<bool>) -> bool {
    &&& fs.len() == m.frames.len()
    &&& fs[root - m.base]
    &&& forall|i: int| 0 <= i < 512 && valid(#[trigger] ent(m, root, i)) ==> fs[next(ent(m, root, i)) - m.base]
    &&& forall|i: int, j: int|
        0 <= i < 512 && 0 <= j < 512 && valid(ent(m, root, i)) && valid(#[trigger] ent(m, next(ent(m, root, i)), j))
            ==> fs[next(ent(m, next(ent(m, root, i)), j)) - m.base]
}

/// A new table page `t`, free in `fs` and zeroed, hung at entry `i` of
/// `table` (the root or a table of the middle level), which was not valid,
/// changes no translation and keeps the tables in order, `t` now taken.
pub proof fn lemma_add_table(m: MemModel, m2: MemModel, root: int, fs: Seq<bool>, table: int, i: int, t: int)
    requires
        tables_ok(m, root),
        owned(m, root, fs),
        table == root || exists|k: int| 0 <= k < 512 && valid(#[trigger] ent(m, root, k)) && next(ent(m, root, k)) == table,
        0 <= i < 512,
        !valid(ent(m, table, i)),
        has(m, t),
        !fs[t - m.base],
        mem_wf(m2),
        m2.base == m.base,
        m2.frames.len() == m.frames.len(),
        valid(ent(m2, table, i)),
        next(ent(m2, table, i)) == t,
        forall|q: int, j: int| #![trigger ent(m2, q, j)]
            has(m, q) && 0 <= j < 512 && !(q == table && j == i) ==> ent(m2, q, j) == if q == t {
                0u64
            } else {
                ent(m, q, j)
            },
    ensures
        tables_ok(m2, root),
        owned(m2, root, fs.update(t - m.base, true)),
        forall|v: usize| #[trigger] translate_spec(m2, root, v) == translate_spec(m, root, v),
{
    lemma_zero_invalid();
    let fs2 = fs.update(t - m.base, true);
    assert(t != root);
    // the tables of the old paths are not `t`, and the root's entries other than `i` stay
    assert forall|k: int| 0 <= k < 512 && !(root == table && k == i) implies #[trigger] ent(m2, root, k) == ent(m, root, k) by {
    }
    assert forall|k: int| 0 <= k < 512 && valid(#[trigger] ent(m, root, k)) implies next(ent(m, root, k)) != t by {
        assert(fs[next(ent(m, root, k)) - m.base]);
    }
    // a table of the middle level keeps its entries but the one at `i` of `table`
    assert forall|k: int, j: int|
        0 <= k < 512 && 0 <= j < 512 && valid(ent(m, root, k)) && !(next(ent(m, root, k)) == table && j == i) implies
        #[trigger] ent(m2, next(ent(m, root, k)), j) == ent(m, next(ent(m, root, k)), j) by {
        assert(fs[next(ent(m, root, k)) - m.base]);
    }
    assert forall|k: int, j: int|
        0 <= k < 512 && 0 <= j < 512 && valid(ent(m, root, k)) && valid(#[trigger] ent(m, next(ent(m, root, k)), j))
        implies next(ent(m, next(ent(m, root, k)), j)) != t && next(ent(m, next(ent(m, root, k)), j)) != table by {
        assert(fs[next(ent(m, next(ent(m, root, k)), j)) - m.base]);
        if table != root {
            let k2 = choose|k2: int| 0 <= k2 < 512 && valid(#[trigger] ent(m, root, k2)) && next(ent(m, root, k2)) == table;
            assert(valid(ent(m, root, k2)));
        }
    }
    // every page on a path now
    assert forall|k: int| 0 <= k < 512 && valid(#[trigger] ent(m2, root, k)) implies has(m2, next(ent(m2, root, k)))
        && next(ent(m2, root, k)) != root && fs2[next(ent(m2, root, k)) - m2.base] by {
        if !(root == table && k == i) {
            assert(ent(m2, root, k) == ent(m, root, k));
        }
    }
    assert forall|k: int, j: int|
        0 <= k < 512 && 0 <= j < 512 && valid(ent(m2, root, k)) && valid(#[trigger] ent(m2, next(ent(m2, root, k)), j))
        implies has(m2, next(ent(m2, next(ent(m2, root, k)), j))) && next(ent(m2, next(ent(m2, root, k)), j)) != root
        && next(ent(m2, next(ent(m2, root, k)), j)) != next(ent(m2, root, k))
        && fs2[next(ent(m2, next(ent(m2, root, k)), j)) - m2.base] by {
        if root == table && k == i {
            assert(ent(m2, t, j) == 0u64);
        } else {
            assert(ent(m2, root, k) == ent(m, root, k));
            let p = next(ent(m, root, k));
            if p == table && j == i {
            } else {
                assert(ent(m2, p, j) == ent(m, p, j));
            }
        }
    }
    assert forall|k: int, j: int, l: int|
        0 <= k < 512 && 0 <= j < 512 && 0 <= l < 512 && valid(ent(m2, root, k)) && valid(
            #[trigger] ent(m2, next(ent(m2, root, k)), j),
        ) && valid(#[trigger] ent(m2, root, l)) implies next(ent(m2, next(ent(m2, root, k)), j)) != next(ent(m2, root, l)) by {
        if root == table && k == i {
            assert(ent(m2, t, j) == 0u64);
        } else {
            assert(ent(m2, root, k) == ent(m, root, k));
            let p = next(ent(m, root, k));
            if root == table && l == i {
                if p == table && j == i {
                } else {
                    assert(ent(m2, p, j) == ent(m, p, j));
                }
            } else {
                assert(ent(m2, root, l) == ent(m, root, l));
                if p == table && j == i {
                    assert(next(ent(m, root, l)) != t);
                } else {
                    assert(ent(m2, p, j) == ent(m, p, j));
                }
            }
        }
    }
    // translations
    assert forall|v: usize| #[trigger] translate_spec(m2, root, v) == translate_spec(m, root, v) by {
        let a = idx(v, 0);
        let b = idx(v, 1);
        let c = idx(v, 2);
        assert(0 <= a < 512 && 0 <= b < 512 && 0 <= c < 512) by {
            assert(vpn_index(v, 0) < 512 && vpn_index(v, 1) < 512 && vpn_index(v, 2) < 512);
        }
        if root == table && a == i {
            assert(ent(m2, t, b) == 0u64);
        } else {
            assert(ent(m2, root, a) == ent(m, root, a));
            if valid(ent(m, root, a)) {
                let p = next(ent(m, root, a));
                if p == table && b == i {
                    assert(ent(m2, t, c) == 0u64);
                } else {
                    assert(ent(m2, p, b) == ent(m, p, b));
                    if valid(ent(m, p, b)) {
                        let q = next(ent(m, p, b));
                        assert(q != t && q != table);
                        assert(ent(m2, q, c) == ent(m, q, c));
                    }
                }
            }
        }
    }
}

/// Writing entry `i` of the last-level table `p`, where the walk of `vpn`
/// ends, leaves every walk as it was, keeps the tables in order, and
/// changes the translation of no page whose walk ends elsewhere.
pub proof fn lemma_leaf_write(m: MemModel, m2: MemModel, root: int, vpn: usize, p: int, i: int)
    requires
        tables_ok(m, root),
        walk_spec(m, root, vpn) == Some((p, i)),
        mem_wf(m2),
        m2.base == m.base,
        m2.frames.len() == m.frames.len(),
        forall|q: int, j: int| #![trigger ent(m2, q, j)]
            has(m, q) && 0 <= j < 512 && !(q == p && j == i) ==> ent(m2, q, j) == ent(m, q, j),
    ensures
        tables_ok(m2, root),
        forall|fs: Seq<bool>| owned(m, root, fs) ==> #[trigger] owned(m2, root, fs),
        forall|v: usize| #[trigger] walk_spec(m2, root, v) == walk_spec(m, root, v),
        forall|v: usize| walk_spec(m, root, v) != Some((p, i)) ==> #[trigger] translate_spec(m2, root, v) == translate_spec(m, root, v),
{
    let a0 = idx(vpn, 0);
    let b0 = idx(vpn, 1);
    assert(0 <= a0 < 512 && 0 <= b0 < 512) by {
        assert(vpn_index(vpn, 0) < 512 && vpn_index(vpn, 1) < 512);
    }
    assert(p != root);
    assert forall|k: int| 0 <= k < 512 && valid(#[trigger] ent(m, root, k)) implies next(ent(m, root, k)) != p by {
        assert(valid(ent(m, root, a0)));
        assert(valid(ent(m, next(ent(m, root, a0)), b0)));
    }
    assert forall|k: int| 0 <= k < 512 implies #[trigger] ent(m2, root, k) == ent(m, root, k) by {
    }
    assert forall|k: int, j: int| 0 <= k < 512 && 0 <= j < 512 && valid(ent(m, root, k)) implies #[trigger] ent(
        m2,
        next(ent(m, root, k)),
        j,
    ) == ent(m, next(ent(m, root, k)), j) by {
        assert(next(ent(m, root, k)) != p);
    }
    assert forall|v: usize| #[trigger] walk_spec(m2, root, v) == walk_spec(m, root, v) by {
        let a = idx(v, 0);
        let b = idx(v, 1);
        assert(0 <= a < 512 && 0 <= b < 512) by {
            assert(vpn_index(v, 0) < 512 && vpn_index(v, 1) < 512);
        }
        assert(ent(m2, root, a) == ent(m, root, a));
        if valid(ent(m, root, a)) {
            assert(ent(m2, next(ent(m, root, a)), b) == ent(m, next(ent(m, root, a)), b));
        }
    }
    assert forall|v: usize| walk_spec(m, root, v) != Some((p, i)) implies #[trigger] translate_spec(m2, root, v)
        == translate_spec(m, root, v) by {
        assert(walk_spec(m2, root, v) == walk_spec(m, root, v));
        if let Some((q, c)) = walk_spec(m, root, v) {
            let a = idx(v, 0);
            let b = idx(v, 1);
            assert(0 <= a < 512 && 0 <= b < 512 && 0 <= c < 512) by {
                assert(vpn_index(v, 0) < 512 && vpn_index(v, 1) < 512 && vpn_index(v, 2) < 512);
            }
            assert(has(m, q));
            assert(ent(m2, q, c) == ent(m, q, c));
        }
    }
}

/// A page table: the page of its root, and the pages it allocated.
pub struct PageTable {
    pub root_ppn: PhysPageNum,
    pub pages: Vec<PhysPageNum>,
}

impl PageMem {
    /// Entry `i` of the page `p`.
    pub fn read(&self, p: PhysPageNum, i: usize) -> (r: PageTableEntry)
        requires
            mem_wf(self@),
            has(self@, p.0 as int),
            i < 512,
        ensures
            r.bits == ent(self@, p.0 as int, i as int),
    {
        let k = p.0 - self.base;
        proof {
            assert(self@.frames[k as int].len() == 512);
        }
        PageTableEntry { bits: self.frames[k][i] }
    }

    /// Sets entry `i` of the page `p` to `e`.
    pub fn write(&mut self, p: PhysPageNum, i: usize, e: PageTableEntry)
        requires
            mem_wf(old(self)@),
            has(old(self)@, p.0 as int),
            i < 512,
        ensures
            mem_wf(final(self)@),
            final(self)@.base == old(self)@.base,
            final(self)@.frames.len() == old(self)@.frames.len(),
            forall|q: int, j: int| #![trigger ent(final(self)@, q, j)]
                has(old(self)@, q) && 0 <= j < 512 ==> ent(final(self)@, q, j) == if q == p.0 && j == i {
                    e.bits
                } else {
                    ent(old(self)@, q, j)
                },
    {
        let k = p.0 - self.base;
        proof {
            assert(self@.frames[k as int].len() == 512);
        }
        let mut f = self.frames[k].clone();
        let ghost before = f@;
        f.set(i, e.bits);
        let ghost fv = f@;
        self.frames.set(k, f);
        proof {
            assert forall|q: int| 0 <= q < self@.frames.len() implies (#[trigger] self@.frames[q]).len() == 512 by {
                if q != k {
                    assert(self@.frames[q] == old(self)@.frames[q]);
                }
            }
            assert forall|q: int, j: int| has(old(self)@, q) && 0 <= j < 512 implies #[trigger] ent(self@, q, j) == if q == p.0 && j == i {
                e.bits
            } else {
                ent(old(self)@, q, j)
            } by {
                if q - self.base == k {
                    assert(self@.frames[k as int] == fv);
                } else {
                    assert(self@.frames[q - self.base] == old(self)@.frames[q - self.base]);
                }
            }
        }
    }

    /// Sets every entry of the page `p` to zero.
    pub fn clear(&mut self, p: PhysPageNum)
        requires
            mem_wf(old(self)@),
            has(old(self)@, p.0 as int),
        ensures
            mem_wf(final(self)@),
            final(self)@.base == old(self)@.base,
            final(self)@.frames.len() == old(self)@.frames.len(),
            forall|q: int, j: int| #![trigger ent(final(self)@, q, j)]
                has(old(self)@, q) && 0 <= j < 512 ==> ent(final(self)@, q, j) == if q == p.0 {
                    0u64
                } else {
                    ent(old(self)@, q, j)
                },
    {
        let k = p.0 - self.base;
        let mut f: Vec<u64> = Vec::new();
        let mut j: usize = 0;
        while j < 512
            invariant
                j <= 512,
                f@.len() == j,
                forall|q: int| 0 <= q < j ==> f@[q] == 0u64,
            decreases 512 - j,
        {
            f.push(0);
            j = j + 1;
        }
        let ghost fv = f@;
        self.frames.set(k, f);
        proof {
            assert forall|q: int| 0 <= q < self@.frames.len() implies (#[trigger] self@.frames[q]).len() == 512 by {
                if q != k {
                    assert(self@.frames[q] == old(self)@.frames[q]);
                    assert(old(self)@.frames[q].len() == 512);
                }
            }
            assert forall|q: int, j: int| has(old(self)@, q) && 0 <= j < 512 implies #[trigger] ent(self@, q, j) == if q == p.0 {
                0u64
            } else {
                ent(old(self)@, q, j)
            } by {
                if q - self.base == k {
                    assert(self@.frames[k as int] == fv);
                } else {
                    assert(self@.frames[q - self.base] == old(self)@.frames[q - self.base]);
                }
            }
        }
    }
}

impl PageTable {
    /// A table with a new, zeroed root page, which it owns; nothing is mapped.
    pub fn new_empty(mem: &mut PageMem, alloc: &mut BitMapPageAllocator) -> (r: PageTable)
        requires
            old(alloc).wf(),
            old(alloc).base_of().0 == old(mem)@.base,
            old(alloc)@.fs.len() == old(mem)@.frames.len(),
            mem_wf(old(mem)@),
            exists|k: int| 0 <= k < old(alloc)@.fs.len() && !old(alloc)@.fs[k],
        ensures
            final(alloc).wf(),
            final(alloc).base_of() == old(alloc).base_of(),
            final(alloc)@.fs == old(alloc)@.fs.update(r.root_ppn.0 - old(mem)@.base, true),
            !old(alloc)@.fs[r.root_ppn.0 - old(mem)@.base],
            r.pages@ == seq![r.root_ppn],
            tables_ok(final(mem)@, r.root_ppn.0 as int),
            owned(final(mem)@, r.root_ppn.0 as int, final(alloc)@.fs),
            forall|vpn: usize| #[trigger] translate_spec(final(mem)@, r.root_ppn.0 as int, vpn) == Err::<usize, ErrorNum>(
                ErrorNum::EADDRNOTAVAIL),
            forall|q: int, j: int| #![trigger ent(final(mem)@, q, j)]
                has(old(mem)@, q) && 0 <= j < 512 && q != r.root_ppn.0 ==> ent(final(mem)@, q, j) == ent(old(mem)@, q, j),
    {
        proof {
            old(alloc).lemma_wf();
        }
        let root = match alloc.alloc_page(true) {
            Some(p) => p,
            None => {
                proof {
                    assert(false);
                }
                PhysPageNum(mem.base)
            },
        };
        mem.clear(root);
        proof {
            lemma_zero_invalid();
            let m = mem@;
            assert forall|i: int| 0 <= i < 512 implies !valid(#[trigger] ent(m, root.0 as int, i)) by {
                assert(ent(m, root.0 as int, i) == 0u64);
            }
            assert forall|vpn: usize| #[trigger] translate_spec(m, root.0 as int, vpn) == Err::<usize, ErrorNum>(
                ErrorNum::EADDRNOTAVAIL) by {
                assert(!valid(ent(m, root.0 as int, idx(vpn, 0))));
            }
        }
        PageTable { root_ppn: root, pages: vec![root] }
    }

    /// The table whose root is the page `root`, which it owns.
    pub fn load(root: PhysPageNum) -> (r: PageTable)
        ensures
            r.root_ppn == root,
            r.pages@ == seq![root],
    {
        PageTable { root_ppn: root, pages: vec![root] }
    }

    /// The value of the `satp` register that selects this table in Sv39 mode,
    /// tagged with the address space `pid` when there is one.
    pub fn satp(&self, pid: Option<u64>) -> (r: u64)
        ensures
            r == match pid {
                Some(p) => (8u64 << 60u64) | (p << 44u64) | (self.root_ppn.0 as u64),
                None => (8u64 << 60u64) | (self.root_ppn.0 as u64),
            },
    {
        let root = self.root_ppn.0 as u64;
        match pid {
            Some(p) => (8u64 << 60u64) | (p << 44u64) | root,
            None => (8u64 << 60u64) | root,
        }
    }
}

impl PageTable {
    /// Where the entry of `vpn` lies: its page and index; `None` when an
    /// upper entry on the way is not valid.
    pub fn walk_find(&self, mem: &PageMem, vpn: VirtPageNum) -> (r: Option<(PhysPageNum, usize)>)
        requires
            tables_ok(mem@, self.root_ppn.0 as int),
        ensures
            match walk_spec(mem@, self.root_ppn.0 as int, vpn.0) {
                None => r is None,
                Some((p, i)) => r matches Some((q, j)) && q.0 == p && j == i,
            },
    {
        let indexes = vpn.indexes();
        let e0 = mem.read(self.root_ppn, indexes[0]);
        if !e0.valid() {
            return None;
        }
        let p1 = e0.ppn();
        proof {
            assert(valid(ent(mem@, self.root_ppn.0 as int, indexes[0] as int)));
            assert(has(mem@, next(ent(mem@, self.root_ppn.0 as int, indexes[0] as int))));
        }
        let e1 = mem.read(p1, indexes[1]);
        if !e1.valid() {
            return None;
        }
        Some((e1.ppn(), indexes[2]))
    }

    /// The page that `vpn` is mapped to; `EADDRNOTAVAIL` when it is not mapped.
    pub fn translate(&self, mem: &PageMem, vpn: VirtPageNum) -> (r: Result<PhysPageNum, ErrorNum>)
        requires
            tables_ok(mem@, self.root_ppn.0 as int),
        ensures
            match translate_spec(mem@, self.root_ppn.0 as int, vpn.0) {
                Ok(p) => r matches Ok(q) && q.0 == p,
                Err(e) => r == Err::<PhysPageNum, ErrorNum>(e),
            },
    {
        let (p, i) = match self.walk_find(mem, vpn) {
            Some(x) => x,
            None => {
                return Err(ErrorNum::EADDRNOTAVAIL);
            },
        };
        let e = mem.read(p, i);
        if e.valid() {
            Ok(e.ppn())
        } else {
            Err(ErrorNum::EADDRNOTAVAIL)
        }
    }

    /// A new, zeroed table page, pointed at by entry `i` of the page `table`,
    /// which was not valid.
    fn add_table(
        &mut self,
        mem: &mut PageMem,
        alloc: &mut BitMapPageAllocator,
        table: PhysPageNum,
        i: usize,
    ) -> (r: PhysPageNum)
        requires
            old(alloc).wf(),
            old(alloc).base_of().0 == old(mem)@.base,
            old(alloc)@.fs.len() == old(mem)@.frames.len(),
            mem_wf(old(mem)@),
            has(old(mem)@, table.0 as int),
            i < 512,
            exists|k: int| 0 <= k < old(alloc)@.fs.len() && !old(alloc)@.fs[k],
        ensures
            final(alloc).wf(),
            final(alloc).base_of() == old(alloc).base_of(),
            final(alloc)@.fs == old(alloc)@.fs.update(r.0 - old(mem)@.base, true),
            !old(alloc)@.fs[r.0 - old(mem)@.base],
            has(old(mem)@, r.0 as int),
            mem_wf(final(mem)@),
            final(mem)@.base == old(mem)@.base,
            final(mem)@.frames.len() == old(mem)@.frames.len(),
            valid(ent(final(mem)@, table.0 as int, i as int)),
            next(ent(final(mem)@, table.0 as int, i as int)) == r.0,
            forall|q: int, j: int| #![trigger ent(final(mem)@, q, j)]
                has(old(mem)@, q) && 0 <= j < 512 && !(q == table.0 && j == i) ==> ent(final(mem)@, q, j) == if q == r.0 {
                    0u64
                } else {
                    ent(old(mem)@, q, j)
                },
            final(self).root_ppn == old(self).root_ppn,
    {
        proof {
            old(alloc).lemma_wf();
        }
        let pg = match alloc.alloc_page(true) {
            Some(p) => p,
            None => {
                proof {
                    assert(false);
                }
                return table;
            },
        };
        let ghost mid = mem@;
        mem.clear(pg);
        let mut pte = PageTableEntry { bits: 0 };
        pte.set_ppn(pg);
        pte.set_flags(PTEFlags { bits: PTEFlags::V });
        proof {
            lemma_set_fields(0u64, pg.0 as u64, 1u64);
            lemma_set_fields((0u64 & !0x003F_FFFF_FFFF_FC00u64) | ((pg.0 as u64) << 10u64), pg.0 as u64, 1u64);
            assert(1u64 & 1u64 == 1u64) by (bit_vector);
            lemma_flag_valid(pte.bits);
        }
        mem.write(table, i, pte);
        self.pages.push(pg);
        pg
    }

    /// Where the entry of `vpn` lies, adding the missing tables on the way.
    pub fn walk_create(&mut self, mem: &mut PageMem, alloc: &mut BitMapPageAllocator, vpn: VirtPageNum) -> (r: (PhysPageNum, usize))
        requires
            old(alloc).wf(),
            old(alloc).base_of().0 == old(mem)@.base,
            old(alloc)@.fs.len() == old(mem)@.frames.len(),
            tables_ok(old(mem)@, old(self).root_ppn.0 as int),
            owned(old(mem)@, old(self).root_ppn.0 as int, old(alloc)@.fs),
            two_free(old(alloc)@.fs),
        ensures
            final(self).root_ppn == old(self).root_ppn,
            final(alloc).wf(),
            final(alloc).base_of() == old(alloc).base_of(),
            final(alloc)@.fs.len() == old(alloc)@.fs.len(),
            tables_ok(final(mem)@, final(self).root_ppn.0 as int),
            owned(final(mem)@, final(self).root_ppn.0 as int, final(alloc)@.fs),
            walk_spec(final(mem)@, final(self).root_ppn.0 as int, vpn.0) == Some((r.0.0 as int, r.1 as int)),
            walk_spec(old(mem)@, old(self).root_ppn.0 as int, vpn.0) matches Some((p, i)) ==> r.0.0 == p && r.1 == i
                && final(mem)@ == old(mem)@,
            walk_spec(old(mem)@, old(self).root_ppn.0 as int, vpn.0) is None ==> ent(final(mem)@, r.0.0 as int, r.1 as int)
                == 0u64,
            forall|v: usize| #[trigger] translate_spec(final(mem)@, final(self).root_ppn.0 as int, v) == translate_spec(
                old(mem)@,
                old(self).root_ppn.0 as int,
                v,
            ),
    {
        let ghost m0 = mem@;
        let ghost root = self.root_ppn.0 as int;
        let indexes = vpn.indexes();
        let e0 = mem.read(self.root_ppn, indexes[0]);
        let p1 = if !e0.valid() {
            let t = self.add_table(mem, alloc, self.root_ppn, indexes[0]);
            proof {
                lemma_add_table(m0, mem@, root, old(alloc)@.fs, root, indexes[0] as int, t.0 as int);
                let m1 = mem@;
                assert(t.0 != root);
                assert forall|i: int| 0 <= i < 512 && valid(#[trigger] ent(m1, root, i)) implies has(m1, next(ent(m1, root, i)))
                    && next(ent(m1, root, i)) != root by {
                    if i != indexes[0] {
                        assert(ent(m1, root, i) == ent(m0, root, i));
                    }
                }
                assert forall|i: int, j: int|
                    0 <= i < 512 && 0 <= j < 512 && valid(ent(m1, root, i)) && valid(#[trigger] ent(m1, next(ent(m1, root, i)), j))
                    implies has(m1, next(ent(m1, next(ent(m1, root, i)), j))) && next(ent(m1, next(ent(m1, root, i)), j)) != root
                        && next(ent(m1, next(ent(m1, root, i)), j)) != next(ent(m1, root, i)) by {
                    if i == indexes[0] {
                        assert(ent(m1, t.0 as int, j) == 0u64);
                        lemma_zero_invalid();
                    } else {
                        assert(ent(m1, root, i) == ent(m0, root, i));
                        let p = next(ent(m0, root, i));
                        assert(old(alloc)@.fs[p - m0.base]);
                        assert(p != t.0);
                        assert(ent(m1, p, j) == ent(m0, p, j));
                        assert(valid(ent(m0, next(ent(m0, root, i)), j)));
                    }
                }
                assert forall|i: int| 0 <= i < 512 && valid(#[trigger] ent(m1, root, i)) implies alloc@.fs[next(ent(m1, root, i)) - m1.base] by {
                    if i != indexes[0] {
                        assert(ent(m1, root, i) == ent(m0, root, i));
                    }
                }
                assert(ent(m1, t.0 as int, indexes[1] as int) == 0u64);
                lemma_zero_invalid();
            }
            t
        } else {
            e0.ppn()
        };
        let ghost m1 = mem@;
        proof {
            assert(valid(ent(m1, root, indexes[0] as int)));
            assert(next(ent(m1, root, indexes[0] as int)) == p1.0);
            assert(tables_ok(m1, root));
            assert(owned(m1, root, alloc@.fs));
            assert(alloc@.fs[p1.0 - m1.base]);
            assert(exists|k: int| 0 <= k < alloc@.fs.len() && !alloc@.fs[k]) by {
                let (x, y) = choose|x: int, y: int| two_free_at(old(alloc)@.fs, x, y);
                if alloc@.fs[x] {
                    assert(!alloc@.fs[y]);
                }
            }
        }
        let e1 = mem.read(p1, indexes[1]);
        let p2 = if !e1.valid() {
            let ghost fs1 = alloc@.fs;
            let t = self.add_table(mem, alloc, p1, indexes[1]);
            proof {
                assert(valid(ent(m1, root, indexes[0] as int)) && next(ent(m1, root, indexes[0] as int)) == p1.0);
                lemma_add_table(m1, mem@, root, fs1, p1.0 as int, indexes[1] as int, t.0 as int);
                let m2 = mem@;
                assert(t.0 != root);
                assert(t.0 != p1.0);
                assert(ent(m2, t.0 as int, indexes[2] as int) == 0u64);
                assert forall|i: int| 0 <= i < 512 implies #[trigger] ent(m2, root, i) == ent(m1, root, i) by {
                }
                assert forall|i: int, j: int|
                    0 <= i < 512 && 0 <= j < 512 && valid(ent(m2, root, i)) && valid(#[trigger] ent(m2, next(ent(m2, root, i)), j))
                    implies has(m2, next(ent(m2, next(ent(m2, root, i)), j))) && next(ent(m2, next(ent(m2, root, i)), j)) != root
                        && next(ent(m2, next(ent(m2, root, i)), j)) != next(ent(m2, root, i)) by {
                    let p = next(ent(m1, root, i));
                    assert(p != t.0);
                    if p == p1.0 && j == indexes[1] {
                    } else {
                        assert(ent(m2, p, j) == ent(m1, p, j));
                    }
                }
            }
            t
        } else {
            e1.ppn()
        };
        proof {
            let m2 = mem@;
            assert(ent(m2, root, indexes[0] as int) == ent(m1, root, indexes[0] as int));
            assert(valid(ent(m2, p1.0 as int, indexes[1] as int)));
            if walk_spec(m0, root, vpn.0) is None {
                assert(!valid(ent(m0, root, indexes[0] as int)) || !valid(ent(m1, p1.0 as int, indexes[1] as int)));
                assert(p2.0 != root);
                assert(p2.0 != p1.0);
            }
        }
        (p2, indexes[2])
    }
}

/// Two pages of the bitmap are free.
pub open spec fn two_free_at(fs: Seq<bool>, x: int, y: int) -> bool {
    0 <= x < fs.len() && 0 <= y < fs.len() && x != y && !fs[x] && !fs[y]
}

/// At least two pages of the bitmap are free.
pub open spec fn two_free(fs: Seq<bool>) -> bool {
    exists|x: int, y: int| two_free_at(fs, x, y)
}

/// The entry of all zeros is not valid.
proof fn lemma_zero_invalid()
    ensures
        !valid(0u64),
{
    assert(0u64 & 1u64 == 0u64) by (bit_vector);
}

/// An entry whose flags have the valid bit is valid.
proof fn lemma_flag_valid(b: u64)
    requires
        (b & FLAG_MASK) & 1u64 == 1u64,
    ensures
        valid(b),
{
    assert((b & 0b11_1111_1111u64) & 1u64 == 1u64 ==> b & 1u64 == 1u64) by (bit_vector);
}

impl PageTable {
    /// Maps `vpn` to `ppn` with `flags`, adding the missing tables, whatever
    /// the entry held before.
    pub fn do_map(&mut self, mem: &mut PageMem, alloc: &mut BitMapPageAllocator, vpn: VirtPageNum, ppn: PhysPageNum, flags: PTEFlags)
        requires
            old(alloc).wf(),
            old(alloc).base_of().0 == old(mem)@.base,
            old(alloc)@.fs.len() == old(mem)@.frames.len(),
            tables_ok(old(mem)@, old(self).root_ppn.0 as int),
            owned(old(mem)@, old(self).root_ppn.0 as int, old(alloc)@.fs),
            two_free(old(alloc)@.fs),
            ppn.0 < 0x1000_0000_0000,
            flags.bits < 0x400,
        ensures
            final(self).root_ppn == old(self).root_ppn,
            final(alloc).wf(),
            final(alloc).base_of() == old(alloc).base_of(),
            translate_spec(final(mem)@, final(self).root_ppn.0 as int, vpn.0) == Ok::<usize, ErrorNum>(ppn.0),
            walk_spec(final(mem)@, final(self).root_ppn.0 as int, vpn.0) matches Some((p, i)) && ent(final(mem)@, p, i) == ((
                ppn.0 as u64) << 10u64) | (flags.bits | 1u64),
            tables_ok(final(mem)@, final(self).root_ppn.0 as int),
            owned(final(mem)@, final(self).root_ppn.0 as int, final(alloc)@.fs),
            forall|v: usize| walk_spec(final(mem)@, final(self).root_ppn.0 as int, v) != walk_spec(
                final(mem)@,
                final(self).root_ppn.0 as int,
                vpn.0,
            ) ==> #[trigger] translate_spec(final(mem)@, final(self).root_ppn.0 as int, v) == translate_spec(
                old(mem)@,
                old(self).root_ppn.0 as int,
                v,
            ),
    {
        let (p, i) = self.walk_create(mem, alloc, vpn);
        let e = PageTableEntry::new(ppn, flags.union(PTEFlags::V));
        proof {
            lemma_or_valid(flags.bits);
            lemma_new_entry_fields(ppn.0 as u64, flags.bits | 1u64);
            lemma_flag_valid(e.bits);
            let m = mem@;
            let root = self.root_ppn.0 as int;
            assert(p.0 != root);
        }
        let ghost m1 = mem@;
        mem.write(p, i, e);
        proof {
            lemma_leaf_write(m1, mem@, self.root_ppn.0 as int, vpn.0, p.0 as int, i as int);
            let root = self.root_ppn.0 as int;
            let e0 = ent(m1, root, idx(vpn.0, 0));
            assert(ent(mem@, root, idx(vpn.0, 0)) == e0);
            assert(ent(mem@, next(e0), idx(vpn.0, 1)) == ent(m1, next(e0), idx(vpn.0, 1)));
        }
    }

    /// Maps `vpn`, which must not be mapped yet, to `ppn` with `flags`.
    pub fn map(&mut self, mem: &mut PageMem, alloc: &mut BitMapPageAllocator, vpn: VirtPageNum, ppn: PhysPageNum, flags: PTEFlags)
        requires
            old(alloc).wf(),
            old(alloc).base_of().0 == old(mem)@.base,
            old(alloc)@.fs.len() == old(mem)@.frames.len(),
            tables_ok(old(mem)@, old(self).root_ppn.0 as int),
            owned(old(mem)@, old(self).root_ppn.0 as int, old(alloc)@.fs),
            two_free(old(alloc)@.fs),
            ppn.0 < 0x1000_0000_0000,
            flags.bits < 0x400,
            walk_spec(old(mem)@, old(self).root_ppn.0 as int, vpn.0) matches Some((p, i)) ==> !valid(ent(old(mem)@, p, i)),
        ensures
            final(self).root_ppn == old(self).root_ppn,
            final(alloc).wf(),
            final(alloc).base_of() == old(alloc).base_of(),
            translate_spec(old(mem)@, old(self).root_ppn.0 as int, vpn.0) == Err::<usize, ErrorNum>(ErrorNum::EADDRNOTAVAIL),
            translate_spec(final(mem)@, final(self).root_ppn.0 as int, vpn.0) == Ok::<usize, ErrorNum>(ppn.0),
            tables_ok(final(mem)@, final(self).root_ppn.0 as int),
            owned(final(mem)@, final(self).root_ppn.0 as int, final(alloc)@.fs),
            forall|v: usize| walk_spec(final(mem)@, final(self).root_ppn.0 as int, v) != walk_spec(
                final(mem)@,
                final(self).root_ppn.0 as int,
                vpn.0,
            ) ==> #[trigger] translate_spec(final(mem)@, final(self).root_ppn.0 as int, v) == translate_spec(
                old(mem)@,
                old(self).root_ppn.0 as int,
                v,
            ),
    {
        let (p, i) = self.walk_create(mem, alloc, vpn);
        proof {
            lemma_zero_invalid();
        }
        if mem.read(p, i).valid() {
            proof {
                assert(false);
            }
            return;
        }
        let e = PageTableEntry::new(ppn, flags.union(PTEFlags::V));
        proof {
            lemma_or_valid(flags.bits);
            lemma_new_entry_fields(ppn.0 as u64, flags.bits | 1u64);
            lemma_flag_valid(e.bits);
        }
        let ghost m1 = mem@;
        mem.write(p, i, e);
        proof {
            lemma_leaf_write(m1, mem@, self.root_ppn.0 as int, vpn.0, p.0 as int, i as int);
            let root = self.root_ppn.0 as int;
            let e0 = ent(m1, root, idx(vpn.0, 0));
            assert(ent(mem@, root, idx(vpn.0, 0)) == e0);
            assert(ent(mem@, next(e0), idx(vpn.0, 1)) == ent(m1, next(e0), idx(vpn.0, 1)));
        }
    }

    /// Maps `vpn`, which must be mapped already, to `ppn` with `flags` instead.
    pub fn remap(&mut self, mem: &mut PageMem, vpn: VirtPageNum, ppn: PhysPageNum, flags: PTEFlags)
        requires
            tables_ok(old(mem)@, old(self).root_ppn.0 as int),
            ppn.0 < 0x1000_0000_0000,
            flags.bits < 0x400,
            translate_spec(old(mem)@, old(self).root_ppn.0 as int, vpn.0) is Ok,
        ensures
            final(self).root_ppn == old(self).root_ppn,
            translate_spec(final(mem)@, final(self).root_ppn.0 as int, vpn.0) == Ok::<usize, ErrorNum>(ppn.0),
            tables_ok(final(mem)@, final(self).root_ppn.0 as int),
            forall|fs: Seq<bool>| owned(old(mem)@, old(self).root_ppn.0 as int, fs) ==> #[trigger] owned(
                final(mem)@,
                final(self).root_ppn.0 as int,
                fs,
            ),
            forall|v: usize| walk_spec(final(mem)@, final(self).root_ppn.0 as int, v) != walk_spec(
                final(mem)@,
                final(self).root_ppn.0 as int,
                vpn.0,
            ) ==> #[trigger] translate_spec(final(mem)@, final(self).root_ppn.0 as int, v) == translate_spec(
                old(mem)@,
                old(self).root_ppn.0 as int,
                v,
            ),
    {
        let (p, i) = match self.walk_find(mem, vpn) {
            Some(x) => x,
            None => {
                proof {
                    assert(false);
                }
                return;
            },
        };
        if !mem.read(p, i).valid() {
            proof {
                assert(false);
            }
            return;
        }
        let e = PageTableEntry::new(ppn, flags.union(PTEFlags::V));
        proof {
            lemma_or_valid(flags.bits);
            lemma_new_entry_fields(ppn.0 as u64, flags.bits | 1u64);
            lemma_flag_valid(e.bits);
        }
        let ghost m1 = mem@;
        mem.write(p, i, e);
        proof {
            lemma_leaf_write(m1, mem@, self.root_ppn.0 as int, vpn.0, p.0 as int, i as int);
            let root = self.root_ppn.0 as int;
            let e0 = ent(m1, root, idx(vpn.0, 0));
            assert(ent(mem@, root, idx(vpn.0, 0)) == e0);
            assert(ent(mem@, next(e0), idx(vpn.0, 1)) == ent(m1, next(e0), idx(vpn.0, 1)));
        }
    }

    /// Unmaps `vpn`, whose tables must be there: its entry becomes zero.
    pub fn unmap(&mut self, mem: &mut PageMem, vpn: VirtPageNum)
        requires
            tables_ok(old(mem)@, old(self).root_ppn.0 as int),
            walk_spec(old(mem)@, old(self).root_ppn.0 as int, vpn.0) is Some,
        ensures
            final(self).root_ppn == old(self).root_ppn,
            translate_spec(final(mem)@, final(self).root_ppn.0 as int, vpn.0) == Err::<usize, ErrorNum>(ErrorNum::EADDRNOTAVAIL),
            tables_ok(final(mem)@, final(self).root_ppn.0 as int),
            forall|fs: Seq<bool>| owned(old(mem)@, old(self).root_ppn.0 as int, fs) ==> #[trigger] owned(
                final(mem)@,
                final(self).root_ppn.0 as int,
                fs,
            ),
            forall|v: usize| walk_spec(final(mem)@, final(self).root_ppn.0 as int, v) != walk_spec(
                final(mem)@,
                final(self).root_ppn.0 as int,
                vpn.0,
            ) ==> #[trigger] translate_spec(final(mem)@, final(self).root_ppn.0 as int, v) == translate_spec(
                old(mem)@,
                old(self).root_ppn.0 as int,
                v,
            ),
    {
        let (p, i) = match self.walk_find(mem, vpn) {
            Some(x) => x,
            None => {
                proof {
                    assert(false);
                }
                return;
            },
        };
        let ghost m1 = mem@;
        mem.write(p, i, PageTableEntry::empty());
        proof {
            lemma_leaf_write(m1, mem@, self.root_ppn.0 as int, vpn.0, p.0 as int, i as int);
            lemma_zero_invalid();
            let root = self.root_ppn.0 as int;
            let e0 = ent(m1, root, idx(vpn.0, 0));
            assert(ent(mem@, root, idx(vpn.0, 0)) == e0);
            assert(ent(mem@, next(e0), idx(vpn.0, 1)) == ent(m1, next(e0), idx(vpn.0, 1)));
        }
    }
}

/// Setting the valid bit sets it.
proof fn lemma_or_valid(f: u64)
    ensures
        (f | 1u64) & 1u64 == 1u64,
        f < 0x400 ==> (f | 1u64) < 0x400,
{
    assert((f | 1u64) & 1u64 == 1u64 && (f < 0x400 ==> (f | 1u64) < 0x400)) by (bit_vector);
}

} // verus!
