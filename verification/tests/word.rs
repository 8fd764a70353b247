use pack::word::const_mask;
use pack::word::const_max;
use pack::word::const_min;
use pack::word::range_mask;

#[test]
fn const_min_picks_the_smaller() {
    assert_eq!(const_min(3, 5), 3);
    assert_eq!(const_min(5, 3), 3);
    assert_eq!(const_min(7, 7), 7);
}

#[test]
fn const_max_picks_the_larger() {
    assert_eq!(const_max(3, 5), 5);
    assert_eq!(const_max(5, 3), 5);
    assert_eq!(const_max(0, 0), 0);
}

#[test]
fn range_mask_of_known_ranges() {
    assert_eq!(range_mask(0, 0), 0);
    assert_eq!(range_mask(3, 10), 0b1111111000);
    assert_eq!(range_mask(32, 32), 0);
    assert_eq!(range_mask(64, 64), 0);
    assert_eq!(range_mask(0, usize::BITS), usize::MAX);
    assert_eq!(range_mask(usize::BITS - 4, usize::BITS), 0xF << (usize::BITS - 4));
}

#[test]
fn const_mask_of_known_ranges() {
    assert_eq!(const_mask(0, 0), usize::MAX);
    assert_eq!(const_mask(usize::BITS, 0), 0);
    assert_eq!(const_mask(0, usize::BITS), 0);
    assert_eq!(const_mask(usize::BITS - 10, 3), 0b1111111000);
    assert_eq!(const_mask(0, usize::BITS - 1), 1 << (usize::BITS - 1));
}
