use parch_kernel::mem::phys_bitmap::{BitMap, BitMapIndex};
use parch_kernel::mem::types::PhysAddr;

#[test]
fn bitmap_set_get_clear() {
    let mut b = BitMap::new(PhysAddr(0), 128, vec![0u64; 2]);
    assert!(!b.get(5));
    b.set(5);
    assert!(b.get(5));
    assert_eq!(b.first_empty(), Some(0));
    b.clear(5);
    assert!(!b.get(5));
}

#[test]
fn index_full_after_every_word_set() {
    let mut idx = BitMapIndex::new(3);
    for i in 0..3 {
        assert!(!idx.get(i));
    }
    assert!(!idx.is_full());
    assert_eq!(idx.first_empty(), Some(0));
    assert!(!idx.set(0));
    assert!(!idx.set(1));
    assert_eq!(idx.first_empty(), Some(2));
    assert!(idx.set(2));
    assert!(idx.is_full());
    assert_eq!(idx.first_empty(), None);
    idx.clear(1);
    assert!(!idx.get(1));
    assert!(!idx.is_full());
    assert_eq!(idx.first_empty(), Some(1));
}

#[test]
fn index_over_two_levels() {
    let mut idx = BitMapIndex::new(100);
    for i in 0..99 {
        assert!(!idx.set(i));
    }
    assert_eq!(idx.first_empty(), Some(99));
    assert!(idx.set(99));
    assert_eq!(idx.first_empty(), None);
    idx.set_val(70, false);
    assert_eq!(idx.first_empty(), Some(70));
    assert!(idx.get(69));
}

#[test]
fn bitmap_full_with_any_word_count() {
    let b = BitMap::new(PhysAddr(0), 128 * 64, vec![u64::MAX; 128]);
    assert_eq!(b.first_empty(), None);
    let mut words = vec![u64::MAX; 100];
    words[99] = u64::MAX >> 1;
    let mut c = BitMap::new(PhysAddr(0), 100 * 64, words);
    assert_eq!(c.first_empty(), Some(99 * 64 + 63));
    c.set(99 * 64 + 63);
    assert_eq!(c.first_empty(), None);
}

#[test]
fn count_is_the_number_of_set_bits() {
    let mut b = BitMap::new(PhysAddr(0), 128, vec![0b101, u64::MAX]);
    assert_eq!(b.count(), 66);
    b.clear(64);
    b.set(1);
    let set = (0..128).filter(|&p| b.get(p)).count();
    assert_eq!(b.count(), set);
    assert_eq!(set, 66);
}
