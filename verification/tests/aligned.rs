use pack::aligned::free_bits_of;
use pack::aligned::Aligned;
use pack::packable::Packable;

#[test]
fn free_bits_of_powers_of_two() {
    assert_eq!(free_bits_of(1), 0);
    assert_eq!(free_bits_of(2), 1);
    assert_eq!(free_bits_of(4), 2);
    assert_eq!(free_bits_of(8), 3);
    assert_eq!(free_bits_of(4096), 12);
    assert_eq!(free_bits_of(1 << (usize::BITS - 1)), usize::BITS - 1);
}

#[test]
fn free_bits_follow_the_alignment_of_the_type() {
    assert_eq!(Aligned::<u8>::free_bits(), 0);
    assert_eq!(Aligned::<u16>::free_bits(), 1);
    assert_eq!(Aligned::<u32>::free_bits(), 2);
    assert_eq!(Aligned::<u64>::free_bits(), 3);
    assert_eq!(Aligned::<()>::free_bits(), 0);
    assert_eq!(Aligned::<(u8, u32)>::free_bits(), 2);
}

#[test]
fn new_accepts_multiples_of_the_alignment() {
    assert_eq!(Aligned::<u32>::new(4).map(|a| a.as_ptr()), Some(4));
    assert_eq!(Aligned::<u32>::new(0x1000).map(|a| a.as_ptr()), Some(0x1000));
    assert_eq!(Aligned::<u64>::new(0x7FF8).map(|a| a.as_ptr()), Some(0x7FF8));
    assert_eq!(Aligned::<u8>::new(1).map(|a| a.as_ptr()), Some(1));
    assert_eq!(Aligned::<u8>::new(usize::MAX).map(|a| a.as_ptr()), Some(usize::MAX));
}

#[test]
fn new_rejects_addresses_that_are_not_aligned() {
    assert_eq!(Aligned::<u32>::new(1), None);
    assert_eq!(Aligned::<u32>::new(2), None);
    assert_eq!(Aligned::<u32>::new(0x1001), None);
    assert_eq!(Aligned::<u32>::new(0x1002), None);
    assert_eq!(Aligned::<u64>::new(0x1004), None);
    assert_eq!(Aligned::<u16>::new(usize::MAX), None);
}

#[test]
fn new_rejects_the_null_address() {
    assert_eq!(Aligned::<u8>::new(0), None);
    assert_eq!(Aligned::<u32>::new(0), None);
    assert_eq!(Aligned::<u64>::new(0), None);
}

#[test]
fn new_unchecked_keeps_the_address() {
    assert_eq!(Aligned::<u32>::new_unchecked(0x40).as_ptr(), 0x40);
    assert_eq!(Aligned::<u32>::new_unchecked(0x40), Aligned::<u32>::new(0x40).unwrap());
}

#[test]
fn dangling_is_the_alignment() {
    assert_eq!(Aligned::<u8>::dangling().as_ptr(), 1);
    assert_eq!(Aligned::<u16>::dangling().as_ptr(), 2);
    assert_eq!(Aligned::<u32>::dangling().as_ptr(), 4);
    assert_eq!(Aligned::<u64>::dangling().as_ptr(), 8);
    assert_eq!(Aligned::<u64>::new(8), Some(Aligned::<u64>::dangling()));
}

#[test]
fn low_bits_of_the_pattern_are_zero() {
    for address in [8usize, 0x1000, 0xFFF8, usize::MAX - 7] {
        let aligned = Aligned::<u64>::new(address).unwrap();
        let pattern = aligned.to_bits();
        assert_eq!(pattern, address);
        assert_eq!(pattern & 0b111, 0);
        assert_eq!(pattern & ((1 << Aligned::<u64>::free_bits()) - 1), 0);
    }
}

#[test]
fn aligned_addresses_compare_by_address() {
    let low = Aligned::<u32>::new(0x10).unwrap();
    let high = Aligned::<u32>::new(0x20).unwrap();
    assert!(low < high);
    assert_eq!(low, low.clone());
    assert_ne!(low, high);
}
