//! What ParchFS promises across its operations: the bytes that a write puts
//! into a file are the bytes that a read of the same range gives back.
use vstd::prelude::*;
use crate::error::ErrorNum;
use super::config::{BLK_SIZE, BLOCKNO_PER_BLK, DIRECT_BLK_COUNT, PFS_MAXCAP};
use super::store::{FsModel, entry};
use super::base::{
    PState, Outcome, blockno_spec, lookup_block, read_chunks, write_chunks, chunk_size, alloc_st, fill_direct,
    ensure_entry, fill_entries, lv2_step, fill_lv2, create_path, grown, pstate, direct_of, same_but_blocks,
    rebuilt, lemma_rebuilt, with_inode, write_spec, read_spec, read_len, ReadOut, free_direct, free_tree, shrink, resize_spec,
};
use super::types::{BlockNo, PFSINode};

verus! {

/// The block that holds the byte at `o` of the file, when there is one.
pub open spec fn block_of(s: PState, o: int) -> int {
    match blockno_spec(s, o, false).0 {
        Outcome::Block(b) => b as int,
        _ => -1,
    }
}

/// The file's blocks from `off` up to `target` are laid out as a file system
/// keeps them: each byte has a block within memory, bytes of different
/// blocks of the file lie in different blocks, and none of those blocks is
/// one that holds block numbers of the file.
pub open spec fn layout_ok(s: PState, off: int, target: int) -> bool {
    &&& forall|o: int| off <= o < target ==> 0 < #[trigger] block_of(s, o) < s.m.blocks.len()
    &&& forall|o1: int, o2: int|
        off <= o1 < target && off <= o2 < target && o1 / BLK_SIZE as int != o2 / BLK_SIZE as int
            ==> #[trigger] block_of(s, o1) != #[trigger] block_of(s, o2)
    &&& forall|o: int| off <= o < target ==> not_index(s, #[trigger] block_of(s, o))
}

/// The block `p` holds none of the file's block numbers: it is neither the
/// indirect nor the doubly indirect block nor one that the latter names.
pub open spec fn not_index(s: PState, p: int) -> bool {
    &&& p != s.indirect
    &&& p != s.indirect2
    &&& 0 <= s.indirect2 < s.m.blocks.len() ==> forall|i: int|
        0 <= i < BLOCKNO_PER_BLK ==> p != #[trigger] entry(s.m, s.indirect2 as int, i)
}

/// The state with the bytes of block `p` replaced by `nb`.
pub open spec fn with_block(s: PState, p: int, nb: Seq<u8>) -> PState {
    PState { m: FsModel { blocks: s.m.blocks.update(p, nb), ..s.m }, ..s }
}

/// Subtracting whole blocks from a position subtracts them from its block index.
proof fn lemma_div_shift(o: int, c: int)
    requires
        0 <= o,
    ensures
        (o - c * 4096) / 4096 == o / 4096 - c,
{
    let q = o / 4096;
    let r = o % 4096;
    vstd::arithmetic::div_mod::lemma_fundamental_div_mod(o, 4096);
    assert(o - c * 4096 == (q - c) * 4096 + r) by (nonlinear_arith)
        requires
            o == 4096 * q + r,
    ;
    vstd::arithmetic::div_mod::lemma_fundamental_div_mod_converse(o - c * 4096, 4096, q - c, r);
}

/// A position lies before a whole number of blocks exactly when its block index does.
proof fn lemma_div_lt(o: int, c: int)
    requires
        0 <= o,
    ensures
        o < c * 4096 <==> o / 4096 < c,
{
    vstd::arithmetic::div_mod::lemma_fundamental_div_mod(o, 4096);
    let q = o / 4096;
    let r = o % 4096;
    assert(o < c * 4096 <==> q < c) by (nonlinear_arith)
        requires
            o == 4096 * q + r,
            0 <= r < 4096,
    ;
}

/// Bytes in the same block of the file have the same block.
proof fn lemma_same_block(s: PState, o1: int, o2: int)
    requires
        0 <= o1,
        0 <= o2,
        o1 / BLK_SIZE as int == o2 / BLK_SIZE as int,
        o1 < s.f_size,
        o2 < s.f_size,
    ensures
        blockno_spec(s, o1, false).0 == blockno_spec(s, o2, false).0,
{
    lemma_div_lt(o1, 1049616);
    lemma_div_lt(o2, 1049616);
    lemma_div_lt(o1, 16);
    lemma_div_lt(o2, 16);
    lemma_div_lt(o1, 1040);
    lemma_div_lt(o2, 1040);
    lemma_div_shift(o1, 16);
    lemma_div_shift(o2, 16);
    lemma_div_shift(o1, 1040);
    lemma_div_shift(o2, 1040);
    assert(PFS_MAXCAP == 1049616 * 4096);
    assert(lookup_block(s, o1) == lookup_block(s, o2));
}

/// Replacing the bytes of a block that holds none of the file's block
/// numbers leaves every lookup of the file as it was.
proof fn lemma_frame(s: PState, p: int, nb: Seq<u8>, o: int)
    requires
        0 <= p < s.m.blocks.len(),
        not_index(s, p),
        0 <= o,
    ensures
        blockno_spec(with_block(s, p, nb), o, false).0 == blockno_spec(s, o, false).0,
{
    let t = with_block(s, p, nb);
    if s.indirect2 < s.m.blocks.len() {
        assert forall|i: int| 0 <= i < BLOCKNO_PER_BLK implies entry(t.m, t.indirect2 as int, i) == entry(s.m, s.indirect2 as int, i) by {
        }
    }
    if o >= 65536 + 4194304 && o < PFS_MAXCAP && s.indirect2 < s.m.blocks.len() {
        let bo = (o - 65536 - 4194304) / 4096;
        assert(0 <= bo / 1024 < 1024);
        let l1 = entry(s.m, s.indirect2 as int, bo / 1024);
        assert(p != l1);
    }
}


/// The pieces of a copy from `off` up to `target` are never empty.
pub open spec fn chunks_ok(off: int, target: int) -> bool
    decreases target - off,
{
    off >= target || (chunk_size(off, target) > 0 && chunks_ok(off + chunk_size(off, target), target))
}

/// Every block of the memory has `BLK_SIZE` bytes.
pub open spec fn blocks_sized(m: FsModel) -> bool {
    forall|p: int| 0 <= p < m.blocks.len() ==> (#[trigger] m.blocks[p]).len() == BLK_SIZE
}

/// A piece of a copy stays in the block it starts in, and the rest of the
/// copy lies in later blocks.
proof fn lemma_chunk_blocks(off: int, t: int)
    requires
        0 <= off < t,
        chunk_size(off, t) > 0,
    ensures
        forall|o: int|
            off <= o < off + chunk_size(off, t) ==> #[trigger] (o / 4096) == off / 4096 && o % 4096
                == off % 4096 + (o - off),
        forall|o: int| off + chunk_size(off, t) <= o < t ==> #[trigger] (o / 4096) != off / 4096,
        off % 4096 + chunk_size(off, t) <= 4096,
        chunk_size(off, t) <= t - off,
{
    let q = off / 4096;
    let r = off % 4096;
    let c = chunk_size(off, t);
    vstd::arithmetic::div_mod::lemma_fundamental_div_mod(off, 4096);
    if t > off + (4096 - r) {
        assert(c == 4096 - r);
    } else {
        vstd::arithmetic::div_mod::lemma_fundamental_div_mod(t, 4096);
        let tq = t / 4096;
        let tr = t % 4096;
        assert(tq == q) by (nonlinear_arith)
            requires
                off == 4096 * q + r,
                t == 4096 * tq + tr,
                0 <= r < 4096,
                0 <= tr < 4096,
                off < t,
                t <= off + (4096 - r),
                tr - r > 0,
        ;
        assert(c == tr - r);
    }
    assert forall|o: int| off <= o < off + c implies #[trigger] (o / 4096) == q && o % 4096 == r + (o - off) by {
        vstd::arithmetic::div_mod::lemma_fundamental_div_mod_converse(o, 4096, q, r + (o - off));
    }
    assert forall|o: int| off + c <= o < t implies #[trigger] (o / 4096) != q by {
        vstd::arithmetic::div_mod::lemma_fundamental_div_mod(o, 4096);
        let oq = o / 4096;
        let or = o % 4096;
        assert(oq != q) by (nonlinear_arith)
            requires
                off == 4096 * q + r,
                o == 4096 * oq + or,
                0 <= r < 4096,
                0 <= or < 4096,
                o >= off + c,
                c == 4096 - r || o < off + c,
        ;
    }
}

/// What writing the bytes of a file block by block does, when the file's
/// blocks are laid out as a file system keeps them: the block numbers stay,
/// each byte of the range holds its byte of `data`, blocks outside the range
/// keep their bytes, and every lookup of the file finds what it found before.
#[verifier::rlimit(60)]
pub proof fn lemma_write_effect(s: PState, data: Seq<u8>, off: int, ptr: int, t: int)
    requires
        0 <= off,
        0 <= ptr,
        ptr + (t - off) <= data.len(),
        t <= s.f_size,
        blocks_sized(s.m),
        layout_ok(s, off, t),
        write_chunks(s, data, off, ptr, t) matches Some((None, _)),
    ensures
        ({
            let s3 = (write_chunks(s, data, off, ptr, t)->0).1;
            &&& s3 == PState { m: FsModel { blocks: s3.m.blocks, ..s.m }, ..s }
            &&& s3.m.blocks.len() == s.m.blocks.len()
            &&& blocks_sized(s3.m)
            &&& forall|o: int| off <= o < t ==> #[trigger] s3.m.blocks[block_of(s, o)][o % 4096] == data[ptr + o - off]
            &&& forall|p: int|
                0 <= p < s.m.blocks.len() && (forall|o: int| off <= o < t ==> p != #[trigger] block_of(s, o))
                    ==> #[trigger] s3.m.blocks[p] == s.m.blocks[p]
            &&& forall|o: int| 0 <= o ==> #[trigger] blockno_spec(s3, o, false).0 == blockno_spec(s, o, false).0
            &&& forall|i: int| 0 <= s.indirect2 < s.m.blocks.len() && 0 <= i < BLOCKNO_PER_BLK ==> #[trigger] entry(s3.m, s.indirect2 as int, i) == entry(s.m, s.indirect2 as int, i)
        }),
        chunks_ok(off, t),
    decreases t - off,
{
    reveal(write_chunks);
    if off < t {
        let start = off % 4096;
        let cpy = chunk_size(off, t);
        lemma_chunk_blocks(off, t);
        let b = block_of(s, off);
        assert(blockno_spec(s, off, false).0 == Outcome::Block(b as u32));
        let blk = s.m.blocks[b];
        let nb = blk.subrange(0, start) + data.subrange(ptr, ptr + cpy) + blk.subrange(start + cpy, 4096);
        let s1 = with_block(s, b, nb);
        assert(s1 == PState { m: FsModel { blocks: s.m.blocks.update(b, nb), ..s.m }, ..s });
        assert forall|o: int| 0 <= o implies #[trigger] blockno_spec(s1, o, false).0 == blockno_spec(s, o, false).0 by {
            lemma_frame(s, b, nb, o);
        }
        assert(not_index(s, b));
        assert forall|i: int| 0 <= s.indirect2 < s.m.blocks.len() && 0 <= i < BLOCKNO_PER_BLK implies #[trigger] entry(s1.m, s.indirect2 as int, i) == entry(s.m, s.indirect2 as int, i) by {
            assert(s1.m.blocks[s.indirect2 as int] == s.m.blocks[s.indirect2 as int]);
        }
        assert(layout_ok(s1, off + cpy, t)) by {
            assert forall|o: int| off + cpy <= o < t implies #[trigger] block_of(s1, o) == block_of(s, o) by {
            }
            assert forall|o: int| off + cpy <= o < t implies not_index(s1, #[trigger] block_of(s1, o)) by {
                assert(not_index(s, block_of(s, o)));
            }
        }
        assert(blocks_sized(s1.m)) by {
            assert forall|p: int| 0 <= p < s1.m.blocks.len() implies (#[trigger] s1.m.blocks[p]).len() == BLK_SIZE by {
                if p != b {
                    assert(s1.m.blocks[p] == s.m.blocks[p]);
                }
            }
        }
        lemma_write_effect(s1, data, off + cpy, ptr + cpy, t);
        let s3 = (write_chunks(s1, data, off + cpy, ptr + cpy, t)->0).1;
        assert(write_chunks(s, data, off, ptr, t) == write_chunks(s1, data, off + cpy, ptr + cpy, t));
        assert forall|o: int| off <= o < t implies #[trigger] s3.m.blocks[block_of(s, o)][o % 4096] == data[ptr + o - off] by {
            if o < off + cpy {
                lemma_same_block(s, o, off);
                assert(block_of(s, o) == b);
                assert forall|o2: int| off + cpy <= o2 < t implies b != #[trigger] block_of(s1, o2) by {
                    assert(block_of(s1, o2) == block_of(s, o2));
                    assert(o2 / 4096 != off / 4096);
                }
                assert(s3.m.blocks[b] == s1.m.blocks[b]);
                assert(nb[o % 4096] == data[ptr + o - off]);
            } else {
                assert(block_of(s1, o) == block_of(s, o));
            }
        }
        assert forall|p: int|
            0 <= p < s.m.blocks.len() && (forall|o: int| off <= o < t ==> p != #[trigger] block_of(s, o))
                implies #[trigger] s3.m.blocks[p] == s.m.blocks[p] by {
            assert(p != block_of(s, off));
            assert forall|o: int| off + cpy <= o < t implies p != #[trigger] block_of(s1, o) by {
                assert(block_of(s1, o) == block_of(s, o));
            }
        }
    }
}

/// What reading the bytes of a file block by block gives, when the file's
/// blocks are laid out as a file system keeps them: the byte at each
/// position, taken from its block.
pub proof fn lemma_read_effect(s: PState, off: int, t: int)
    requires
        0 <= off,
        t <= s.f_size,
        blocks_sized(s.m),
        layout_ok(s, off, t),
        chunks_ok(off, t),
    ensures
        read_chunks(s, off, t) == Some(Ok::<Seq<u8>, ErrorNum>(
            Seq::new((if t > off { t - off } else { 0 }) as nat, |i: int| s.m.blocks[block_of(s, off + i)][(off + i) % 4096]),
        )),
    decreases t - off,
{
    reveal(read_chunks);
    if off < t {
        let start = off % 4096;
        let cpy = chunk_size(off, t);
        lemma_chunk_blocks(off, t);
        let b = block_of(s, off);
        assert(blockno_spec(s, off, false).0 == Outcome::Block(b as u32));
        lemma_read_effect(s, off + cpy, t);
        let rest = Seq::new((if t > off + cpy { t - off - cpy } else { 0 }) as nat, |i: int| s.m.blocks[block_of(s, off + cpy + i)][(off + cpy + i) % 4096]);
        let whole = Seq::new((t - off) as nat, |i: int| s.m.blocks[block_of(s, off + i)][(off + i) % 4096]);
        assert(s.m.blocks[b].subrange(start, start + cpy) + rest =~= whole) by {
            assert forall|i: int| 0 <= i < t - off implies #[trigger] (s.m.blocks[b].subrange(start, start + cpy) + rest)[i] == whole[i] by {
                if i < cpy {
                    lemma_same_block(s, off + i, off);
                }
            }
        }
        assert(whole =~= Seq::new((if t > off { t - off } else { 0 }) as nat, |i: int| s.m.blocks[block_of(s, off + i)][(off + i) % 4096]));
    } else {
        assert(Seq::new((if t > off { t - off } else { 0 }) as nat, |i: int| s.m.blocks[block_of(s, off + i)][(off + i) % 4096]) =~= Seq::<u8>::empty());
    }
}

/// Reading a range of a file right after writing `data` into it gives back
/// `data`, when the file's blocks in that range are laid out as a file system
/// keeps them (each in its own block, none holding block numbers) and lie
/// within the file.
pub proof fn lemma_read_after_write(s: PState, data: Seq<u8>, off: int)
    requires
        0 <= off,
        off + data.len() <= s.f_size,
        blocks_sized(s.m),
        layout_ok(s, off, off + data.len()),
        write_chunks(s, data, off, 0, off + data.len()) matches Some((None, _)),
    ensures
        read_chunks((write_chunks(s, data, off, 0, off + data.len())->0).1, off, off + data.len())
            == Some(Ok::<Seq<u8>, ErrorNum>(data)),
{
    let t = off + data.len();
    lemma_write_effect(s, data, off, 0, t);
    let s3 = (write_chunks(s, data, off, 0, t)->0).1;
    assert forall|o: int| off <= o < t implies #[trigger] block_of(s3, o) == block_of(s, o) by {
    }
    assert(layout_ok(s3, off, t)) by {
        assert forall|o: int| off <= o < t implies not_index(s3, #[trigger] block_of(s3, o)) by {
            assert(not_index(s, block_of(s, o)));
        }
    }
    lemma_read_effect(s3, off, t);
    let got = Seq::new((if t > off { t - off } else { 0 }) as nat, |i: int| s3.m.blocks[block_of(s3, off + i)][(off + i) % 4096]);
    assert(got =~= data) by {
        assert forall|i: int| 0 <= i < data.len() implies #[trigger] got[i] == data[i] by {
            assert(block_of(s3, off + i) == block_of(s, off + i));
        }
    }
}

/// `t` keeps what `s` has beside the blocks and their numbers: the inodes,
/// their bits, the file's size and its number of direct blocks.
pub open spec fn keeps(s: PState, t: PState) -> bool {
    &&& t.m.inode_bits == s.m.inode_bits
    &&& t.m.inodes == s.m.inodes
    &&& t.f_size == s.f_size
    &&& t.direct.len() == s.direct.len()
}

proof fn lemma_keeps_fill_direct(s: PState, k: int)
    requires
        fill_direct(s, k) is Some,
        0 <= k <= s.direct.len(),
    ensures
        keeps(s, fill_direct(s, k)->0),
    decreases k,
{
    if k > 0 {
        lemma_keeps_fill_direct(s, k - 1);
    }
}

proof fn lemma_keeps_fill_entries(s: PState, b: int, k: int)
    requires
        fill_entries(s, b, k) is Some,
    ensures
        keeps(s, fill_entries(s, b, k)->0),
    decreases k,
{
    if k > 0 {
        lemma_keeps_fill_entries(s, b, k - 1);
    }
}

proof fn lemma_keeps_fill_lv2(s: PState, b: int, k: int)
    requires
        fill_lv2(s, b, k) is Some,
    ensures
        keeps(s, fill_lv2(s, b, k)->0),
    decreases k,
{
    if k > 0 {
        lemma_keeps_fill_lv2(s, b, k - 1);
        let s1 = fill_lv2(s, b, k - 1)->0;
        if let Some(s2) = ensure_entry(s1, b, k - 1) {
        }
    }
}

proof fn lemma_keeps_create_path(s: PState, offset: int)
    requires
        create_path(s, offset) is Some,
        s.direct.len() == DIRECT_BLK_COUNT,
    ensures
        keeps(s, create_path(s, offset)->0),
{
    let k = if (DIRECT_BLK_COUNT as int) < offset / BLK_SIZE as int + 1 {
        DIRECT_BLK_COUNT as int
    } else {
        offset / BLK_SIZE as int + 1
    };
    if k >= 0 {
        lemma_keeps_fill_direct(s, k);
    }
    let s1 = fill_direct(s, super::base::min_int(DIRECT_BLK_COUNT as int, offset / BLK_SIZE as int + 1))->0;
    if offset >= (BLK_SIZE * DIRECT_BLK_COUNT) as int {
        let off1 = offset - BLK_SIZE * DIRECT_BLK_COUNT;
        let s2 = if s1.indirect == 0 {
            let (a, nb) = alloc_st(s1)->0;
            PState { indirect: nb, ..a }
        } else {
            s1
        };
        lemma_keeps_fill_entries(s2, s2.indirect as int, super::base::min_int(BLOCKNO_PER_BLK as int, off1 / BLK_SIZE as int + 1));
        let s3 = fill_entries(s2, s2.indirect as int, super::base::min_int(BLOCKNO_PER_BLK as int, off1 / BLK_SIZE as int + 1))->0;
        if off1 >= (BLK_SIZE * BLOCKNO_PER_BLK) as int {
            let off2 = off1 - BLK_SIZE * BLOCKNO_PER_BLK;
            let s4 = if s3.indirect2 == 0 {
                let (a, nb) = alloc_st(s3)->0;
                PState { indirect2: nb, ..a }
            } else {
                s3
            };
            lemma_keeps_fill_lv2(s4, s4.indirect2 as int, super::base::min_int(
                BLOCKNO_PER_BLK as int,
                off2 / (BLOCKNO_PER_BLK * BLK_SIZE) as int + 1,
            ));
        }
    }
}

/// Reading does not look at the inodes: two states that differ only there
/// read the same.
proof fn lemma_read_frame(s: PState, t: PState, off: int, target: int)
    requires
        t == (PState { m: FsModel { inodes: t.m.inodes, inode_bits: t.m.inode_bits, ..s.m }, ..s }),
    ensures
        read_chunks(t, off, target) == read_chunks(s, off, target),
    decreases target - off,
{
    reveal(read_chunks);
    if off < target {
        let cpy = chunk_size(off, target);
        if cpy > 0 {
            assert(blockno_spec(t, off, false).0 == blockno_spec(s, off, false).0);
            lemma_read_frame(s, t, off + cpy, target);
        }
    }
}

/// The inode whose block numbers and size are those of `s`, the rest as `base`.
pub open spec fn inode_of(base: PFSINode, s: PState) -> PFSINode {
    PFSINode {
        direct_blk_no: [
            BlockNo(s.direct[0]), BlockNo(s.direct[1]), BlockNo(s.direct[2]), BlockNo(s.direct[3]),
            BlockNo(s.direct[4]), BlockNo(s.direct[5]), BlockNo(s.direct[6]), BlockNo(s.direct[7]),
            BlockNo(s.direct[8]), BlockNo(s.direct[9]), BlockNo(s.direct[10]), BlockNo(s.direct[11]),
            BlockNo(s.direct[12]), BlockNo(s.direct[13]), BlockNo(s.direct[14]), BlockNo(s.direct[15]),
        ],
        indirect_blk: BlockNo(s.indirect),
        indirect_blk2: BlockNo(s.indirect2),
        f_size: s.f_size as usize,
        ..base
    }
}

/// A write of `data` at `off` into the file of inode `no`, and a read of
/// `data.len()` bytes at `off` after it, as the file's `write` and `read`
/// state them: when the write succeeds and the file's blocks over that
/// range, after the file grew to hold it, are laid out as a file system
/// keeps them (each in its own block within memory, none holding block
/// numbers), the read gives back `data`.
pub proof fn lemma_file_read_after_write(m: FsModel, no: int, data: Seq<u8>, off: int, now: usize, now2: usize)
    requires
        0 <= no < m.inodes.len(),
        no < m.inode_bits.len(),
        0 <= off,
        data.len() > 0,
        off + data.len() <= usize::MAX,
        write_spec(m, no, None, data, off, now) matches Some((Ok(None), _)),
        ({
            let ino1 = PFSINode { access_time: now, change_time: now, ..m.inodes[no] };
            let s2 = grown(with_inode(m, no, ino1), ino1, off + data.len()).1;
            &&& blocks_sized(s2.m)
            &&& layout_ok(s2, off, off + data.len())
        }),
    ensures
        ({
            let m3 = (write_spec(m, no, None, data, off, now)->0).1;
            read_spec(m3, no, None, data.len() as int, off, now2) matches Some((Ok(ReadOut::Bytes(b)), _)) && b == data
        }),
{
    let t = off + data.len();
    let ino1 = PFSINode { access_time: now, change_time: now, ..m.inodes[no] };
    let m1 = with_inode(m, no, ino1);
    let (o, s2) = grown(m1, ino1, t);
    let p1 = pstate(m1, ino1);
    assert(p1.direct.len() == DIRECT_BLK_COUNT);
    if (ino1.f_size as int) < t {
        let s0 = PState { f_size: t, ..p1 };
        assert(t < PFS_MAXCAP);
        assert(create_path(s0, t) is Some);
        lemma_keeps_create_path(s0, t);
        assert(keeps(p1, s2) || s2.f_size == t);
    }
    assert(keeps(p1, s2) || (s2.f_size == t && s2.m.inodes == p1.m.inodes && s2.m.inode_bits == p1.m.inode_bits
        && s2.direct.len() == 16));
    assert(s2.f_size >= t);
    assert(0 <= s2.f_size <= usize::MAX);
    let i = inode_of(ino1, s2);
    assert(direct_of(i) =~= s2.direct);
    assert(pstate(s2.m, i) == s2);
    assert(same_but_blocks(i, ino1));
    lemma_rebuilt(ino1, s2, i);
    let s3 = (write_chunks(s2, data, off, 0, t)->0).1;
    lemma_write_effect(s2, data, off, 0, t);
    lemma_read_after_write(s2, data, off);
    let m3 = with_inode(s3.m, no, i);
    assert(m3.inode_bits[no]);
    let ino_r = PFSINode { access_time: now2, ..m3.inodes[no] };
    assert(ino_r == PFSINode { access_time: now2, ..i });
    assert(read_len(ino_r.f_size as int, off, data.len() as int) == data.len());
    let mr = with_inode(m3, no, ino_r);
    let pr = pstate(mr, ino_r);
    assert(direct_of(ino_r) =~= s2.direct);
    lemma_read_frame(s3, pr, off, t);
}

proof fn lemma_free_direct_keeps(s: PState, from: int, k: int)
    requires
        free_direct(s, from, k) is Some,
        0 <= from,
        k <= s.direct.len(),
    ensures
        ({
            let t = free_direct(s, from, k)->0;
            &&& t.direct.len() == s.direct.len()
            &&& forall|j: int| 0 <= j < from ==> #[trigger] t.direct[j] == s.direct[j]
        }),
    decreases k - from,
{
    if k > from {
        lemma_free_direct_keeps(s, from, k - 1);
    }
}

/// Shrinking a file to a size within its direct blocks keeps the block of
/// every byte below the new size: looking it up finds the block it had
/// before, and the file has the new size.
pub proof fn lemma_shrink_keeps_blocks(s: PState, new_size: int, o: int)
    requires
        s.direct.len() == DIRECT_BLK_COUNT,
        0 < new_size < s.f_size,
        new_size <= (BLK_SIZE * DIRECT_BLK_COUNT) as int,
        resize_spec(s, new_size).0 == Some(Ok::<(), ErrorNum>(())),
        0 <= o < new_size,
    ensures
        resize_spec(s, new_size).1.f_size == new_size,
        blockno_spec(resize_spec(s, new_size).1, o, false).0 == blockno_spec(s, o, false).0,
{
    let ss = (new_size - 1) / BLK_SIZE as int + 1;
    assert(ss <= DIRECT_BLK_COUNT) by {
        vstd::arithmetic::div_mod::lemma_div_is_ordered(new_size - 1, (BLK_SIZE * DIRECT_BLK_COUNT) as int - 1, 4096);
    }
    assert(o / 4096 < ss) by {
        vstd::arithmetic::div_mod::lemma_div_is_ordered(o, new_size - 1, 4096);
    }
    assert(0 <= o / 4096);
    let m1 = free_tree(s.m, s.indirect2 as int, 2)->0;
    let s1 = PState { m: m1, indirect2: 0, ..s };
    let m2 = free_tree(s1.m, s1.indirect as int, 1)->0;
    let base = PState { m: m2, indirect: 0, ..s1 };
    lemma_free_direct_keeps(base, ss, DIRECT_BLK_COUNT as int);
    let t = shrink(s, ss)->0;
    assert(t.direct[o / 4096] == s.direct[o / 4096]);
}

/// Growing a file with `resize` gives it the new size.
pub proof fn lemma_grow_sets_size(s: PState, new_size: int)
    requires
        s.direct.len() == DIRECT_BLK_COUNT,
        s.f_size < new_size,
        resize_spec(s, new_size).0 == Some(Ok::<(), ErrorNum>(())),
    ensures
        resize_spec(s, new_size).1.f_size == new_size,
{
    let s0 = PState { f_size: new_size, ..s };
    if create_path(s0, new_size) is Some {
        lemma_keeps_create_path(s0, new_size);
    }
}

} // verus!
