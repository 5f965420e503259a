//! Facts about single bits of 64-bit words, shared by the bitmaps and the
//! page-table entries.
use vstd::prelude::*;

verus! {

/// Bit `i` of `b` is set.
pub open spec fn bit_at(b: u64, i: u64) -> bool {
    i < 64 && (b >> i) & 1u64 == 1u64
}

/// The word whose lowest `k` bits are set and all others clear.
pub open spec fn low_mask(k: u64) -> u64 {
    if k >= 64 {
        0xFFFF_FFFF_FFFF_FFFFu64
    } else {
        ((1u64 << k) - 1u64) as u64
    }
}

/// Setting bit `p` sets it and keeps every other bit.
pub proof fn lemma_set_bit(b: u64, p: u64, i: u64)
    requires
        p < 64,
    ensures
        bit_at(b | (1u64 << p), i) == (i == p || bit_at(b, i)),
{
    assert(i < 64 ==> (((b | (1u64 << p)) >> i) & 1u64 == 1u64) == (i == p || (b >> i) & 1u64
        == 1u64)) by (bit_vector)
        requires
            p < 64,
    ;
}

/// Clearing bit `p` clears it and keeps every other bit.
pub proof fn lemma_clear_bit(b: u64, p: u64, i: u64)
    requires
        p < 64,
    ensures
        bit_at(b & !(1u64 << p), i) == (i != p && bit_at(b, i)),
{
    assert(i < 64 ==> (((b & !(1u64 << p)) >> i) & 1u64 == 1u64) == (i != p && (b >> i) & 1u64
        == 1u64)) by (bit_vector)
        requires
            p < 64,
    ;
}

/// Masking with bit `p` is non-zero exactly when bit `p` is set.
pub proof fn lemma_test_bit(b: u64, p: u64)
    requires
        p < 64,
    ensures
        ((b & (1u64 << p)) != 0u64) == bit_at(b, p),
{
    assert(((b & (1u64 << p)) != 0u64) == ((b >> p) & 1u64 == 1u64)) by (bit_vector)
        requires
            p < 64,
    ;
}

/// The low mask of `k` bits has exactly its lowest `k` bits set.
pub proof fn lemma_low_mask_bit(k: u64, i: u64)
    requires
        k <= 64,
    ensures
        bit_at(low_mask(k), i) == (i < 64 && i < k),
{
    if k == 64 {
        assert(i < 64 ==> (0xFFFF_FFFF_FFFF_FFFFu64 >> i) & 1u64 == 1u64) by (bit_vector);
    } else {
        assert(i < 64 ==> (((((1u64 << k) - 1u64) as u64) >> i) & 1u64 == 1u64) == (i < k))
            by (bit_vector)
            requires
                k < 64,
        ;
    }
}

/// Adding bit `k` to the low mask of `k` bits gives the mask of `k + 1` bits.
pub proof fn lemma_low_mask_step(k: u64)
    requires
        k < 64,
    ensures
        low_mask(k) + (1u64 << k) == low_mask((k + 1) as u64),
        low_mask(k) + (1u64 << k) <= u64::MAX,
        low_mask(k) & (1u64 << k) == 0,
{
    if k == 63 {
        assert(((1u64 << 63u64) - 1u64) as u64 + (1u64 << 63u64) == 0xFFFF_FFFF_FFFF_FFFFu64
            && ((1u64 << 63u64) - 1u64) as u64 & (1u64 << 63u64) == 0) by (bit_vector);
    } else {
        assert(((1u64 << k) - 1u64) as u64 + (1u64 << k) == ((1u64 << ((k + 1u64) as u64)) - 1u64) as u64
            && ((1u64 << k) - 1u64) as u64 + (1u64 << k) <= 0xFFFF_FFFF_FFFF_FFFFu64
            && ((1u64 << k) - 1u64) as u64 & (1u64 << k) == 0) by (bit_vector)
            requires
                k < 63,
        ;
    }
}

/// A word all of whose bits lie inside `m` is not larger than `m`.
pub proof fn lemma_subset_le(b: u64, m: u64)
    requires
        b & !m == 0,
    ensures
        b <= m,
{
    assert(b & !m == 0 ==> b <= m) by (bit_vector);
}

/// A non-zero word below `2^hi` has a set bit below `hi`.
proof fn lemma_obtain_bit_aux(x: u64, hi: u64) -> (i: u64)
    requires
        x != 0,
        hi <= 64,
        x >> hi == 0,
    ensures
        i < hi,
        (x >> i) & 1u64 == 1u64,
    decreases hi,
{
    assert(hi != 0) by (bit_vector)
        requires
            x != 0,
            hi <= 64,
            x >> hi == 0,
    ;
    if x & 1u64 == 1u64 {
        assert(x >> 0u64 == x) by (bit_vector);
        0
    } else {
        assert((x >> 1u64) != 0 && (x >> 1u64) >> ((hi - 1u64) as u64) == 0) by (bit_vector)
            requires
                x & 1u64 != 1u64,
                x != 0,
                x >> hi == 0,
                hi <= 64,
                hi != 0,
        ;
        let j = lemma_obtain_bit_aux(x >> 1u64, ((hi - 1u64) as u64));
        assert((x >> ((j + 1u64) as u64)) & 1u64 == 1u64) by (bit_vector)
            requires
                ((x >> 1u64) >> j) & 1u64 == 1u64,
                j < 63,
        ;
        ((j + 1u64) as u64)
    }
}

/// A non-zero word has a set bit.
pub proof fn lemma_obtain_bit(x: u64) -> (i: u64)
    requires
        x != 0,
    ensures
        bit_at(x, i),
{
    assert(x >> 64u64 == 0) by (bit_vector);
    lemma_obtain_bit_aux(x, 64)
}

/// A word inside `low_mask(k)` that has each of its lowest `k` bits set equals `low_mask(k)`.
pub proof fn lemma_all_low_bits(b: u64, k: u64)
    requires
        k <= 64,
        b & !low_mask(k) == 0,
        forall|i: u64| i < k ==> #[trigger] bit_at(b, i),
    ensures
        b == low_mask(k),
{
    let m = low_mask(k);
    let d = m & !b;
    if b != m {
        assert(m & !b != 0) by (bit_vector)
            requires
                b & !m == 0,
                b != m,
        ;
        let i = lemma_obtain_bit(d);
        assert(bit_at(m, i) && !bit_at(b, i)) by {
            assert(((m & !b) >> i) & 1u64 == 1u64 ==> (m >> i) & 1u64 == 1u64 && (b >> i) & 1u64
                != 1u64) by (bit_vector);
        }
        lemma_low_mask_bit(k, i);
        assert(bit_at(b, i));
    }
}

/// A word inside `low_mask(k)` has no bit at or above `k`.
pub proof fn lemma_bits_above(b: u64, k: u64, i: u64)
    requires
        k <= 64,
        b & !low_mask(k) == 0,
        k <= i,
    ensures
        !bit_at(b, i),
{
    let m = low_mask(k);
    lemma_low_mask_bit(k, i);
    assert(b & !m == 0 && (m >> i) & 1u64 != 1u64 ==> (b >> i) & 1u64 != 1u64) by (bit_vector);
}

/// Setting or clearing a bit below `k` keeps a word inside `low_mask(k)`.
pub proof fn lemma_mask_kept(b: u64, k: u64, p: u64)
    requires
        k <= 64,
        p < k,
        b & !low_mask(k) == 0,
    ensures
        (b | (1u64 << p)) & !low_mask(k) == 0,
        (b & !(1u64 << p)) & !low_mask(k) == 0,
{
    let m = low_mask(k);
    lemma_low_mask_bit(k, p);
    assert(p < 64 && (m >> p) & 1u64 == 1u64 && b & !m == 0 ==> (b | (1u64 << p)) & !m == 0
        && (b & !(1u64 << p)) & !m == 0) by (bit_vector);
}

} // verus!
