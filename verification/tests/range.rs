use pack::range::FieldRange;
use pack::range::Side;

const WORD: u32 = usize::BITS;

#[test]
fn new_accepts_ranges_that_fit_a_word() {
    assert_eq!(FieldRange::new(0, 0), Some(FieldRange { before: 0, after: 0 }));
    assert_eq!(FieldRange::new(WORD, 0), Some(FieldRange { before: WORD, after: 0 }));
    assert_eq!(FieldRange::new(3, WORD - 3), Some(FieldRange { before: 3, after: WORD - 3 }));
}

#[test]
fn new_rejects_ranges_that_exceed_a_word() {
    assert_eq!(FieldRange::new(WORD, 1), None);
    assert_eq!(FieldRange::new(1, WORD), None);
    assert_eq!(FieldRange::new(WORD + 1, 0), None);
    assert_eq!(FieldRange::new(u32::MAX, u32::MAX), None);
}

#[test]
fn width_is_what_the_unused_bits_leave() {
    assert_eq!(FieldRange { before: 0, after: 0 }.width(), WORD);
    assert_eq!(FieldRange { before: 1, after: WORD - 4 }.width(), 3);
    assert_eq!(FieldRange { before: WORD, after: 0 }.width(), 0);
}

#[test]
fn mask_has_ones_at_the_field_only() {
    let range = FieldRange { before: WORD - 10, after: 3 };
    assert_eq!(range.mask(), 0b1111111000);
    assert_eq!(range.clear_mask(), !0b1111111000usize);
    assert_eq!(range.mask() & range.clear_mask(), 0);
}

#[test]
fn empty_field_has_empty_mask() {
    assert_eq!(FieldRange { before: WORD, after: 0 }.mask(), 0);
    assert_eq!(FieldRange { before: 0, after: WORD }.mask(), 0);
    assert_eq!(FieldRange { before: 7, after: WORD - 7 }.mask(), 0);
    assert_eq!(FieldRange { before: 7, after: WORD - 7 }.clear_mask(), usize::MAX);
}

#[test]
fn whole_word_field_has_full_mask() {
    assert_eq!(FieldRange { before: 0, after: 0 }.mask(), usize::MAX);
    assert_eq!(FieldRange { before: 0, after: 0 }.clear_mask(), 0);
}

#[test]
fn read_unshifted_keeps_the_place() {
    let range = FieldRange { before: WORD - 8, after: 4 };
    assert_eq!(range.read_unshifted_bits(0xABCD), 0xC0);
    assert_eq!(range.read_unshifted_bits(usize::MAX), 0xF0);
    assert_eq!(range.read_unshifted_bits(0), 0);
}

#[test]
fn read_low_moves_the_field_down() {
    let range = FieldRange { before: WORD - 8, after: 4 };
    assert_eq!(range.read_low_bits(0xABCD), 0xC);
    assert_eq!(range.read_low_bits(usize::MAX), 0xF);
}

#[test]
fn read_high_moves_the_field_up() {
    let range = FieldRange { before: WORD - 8, after: 4 };
    assert_eq!(range.read_high_bits(0xABCD), 0xC << (WORD - 4));
    assert_eq!(range.read_high_bits(usize::MAX), 0xF << (WORD - 4));
}

#[test]
fn reads_of_an_empty_field_are_zero() {
    for range in [
        FieldRange { before: WORD, after: 0 },
        FieldRange { before: 0, after: WORD },
        FieldRange { before: 5, after: WORD - 5 },
    ] {
        assert_eq!(range.read_unshifted_bits(usize::MAX), 0);
        assert_eq!(range.read_low_bits(usize::MAX), 0);
        assert_eq!(range.read_high_bits(usize::MAX), 0);
        assert_eq!(range.read(usize::MAX, Side::Low), 0);
        assert_eq!(range.read(usize::MAX, Side::High), 0);
    }
}

#[test]
fn reads_of_the_whole_word_are_the_word() {
    let range = FieldRange { before: 0, after: 0 };
    assert_eq!(range.read_unshifted_bits(0x1234), 0x1234);
    assert_eq!(range.read_low_bits(0x1234), 0x1234);
    assert_eq!(range.read_high_bits(0x1234), 0x1234);
}

#[test]
fn write_low_replaces_the_field_and_nothing_else() {
    let range = FieldRange { before: WORD - 8, after: 4 };
    assert_eq!(range.write_low_bits(0, 0xA), 0xA0);
    assert_eq!(range.write_low_bits(usize::MAX, 0xA), usize::MAX & !0xF0 | 0xA0);
    assert_eq!(range.write_low_bits(0xABCD, 0), 0xAB0D);
}

#[test]
fn write_high_replaces_the_field_and_nothing_else() {
    let range = FieldRange { before: 4, after: WORD - 8 };
    let pattern = 0xA << (WORD - 4);
    assert_eq!(range.write_high_bits(0, pattern), 0xA << (WORD - 8));
    assert_eq!(
        range.write_high_bits(usize::MAX, pattern),
        usize::MAX & !(0xF << (WORD - 8)) | (0xA << (WORD - 8))
    );
}

#[test]
fn write_unshifted_replaces_the_field_and_nothing_else() {
    let range = FieldRange { before: WORD - 8, after: 4 };
    assert_eq!(range.write_unshifted_bits(0xABCD, 0x50), 0xAB5D);
    assert_eq!(range.write_unshifted_bits(0xABCD, 0), 0xAB0D);
}

#[test]
fn writes_to_an_empty_field_change_nothing() {
    for range in [
        FieldRange { before: WORD, after: 0 },
        FieldRange { before: 0, after: WORD },
        FieldRange { before: 5, after: WORD - 5 },
    ] {
        assert_eq!(range.write_low_bits(0x1234, 0), 0x1234);
        assert_eq!(range.write_high_bits(0x1234, 0), 0x1234);
        assert_eq!(range.write_unshifted_bits(0x1234, 0), 0x1234);
    }
}

#[test]
fn shifting_into_the_range_places_the_bits() {
    let range = FieldRange { before: 4, after: WORD - 8 };
    assert_eq!(range.low_bits_to_range(0xA), 0xA << (WORD - 8));
    assert_eq!(range.high_bits_to_range(0xA << (WORD - 4)), 0xA << (WORD - 8));
}

#[test]
fn what_was_written_is_read_back_whatever_the_word_held() {
    let words = [0usize, usize::MAX, 0x5555_5555, 0xDEAD_BEEF, 1 << (WORD - 1)];
    for before in [0u32, 1, 7, WORD / 2] {
        for width in [0u32, 1, 3, 8, WORD / 2] {
            let after = WORD - before - width;
            let range = FieldRange { before, after };
            let top = if width == 0 { 0 } else { usize::MAX >> (WORD - width) };
            for value in [0usize, 1, 5, 0xAB, top] {
                let value = value & top;
                for word in words {
                    let low = range.write_low_bits(word, value);
                    assert_eq!(range.read_low_bits(low), value);
                    assert_eq!(low & range.clear_mask(), word & range.clear_mask());

                    let pattern = if width == 0 { 0 } else { value << (WORD - width) };
                    let high = range.write_high_bits(word, pattern);
                    assert_eq!(range.read_high_bits(high), pattern);
                    assert_eq!(high, low);

                    assert_eq!(range.read(range.write(word, Side::Low, value), Side::Low), value);
                    assert_eq!(
                        range.read(range.write(word, Side::High, pattern), Side::High),
                        pattern
                    );
                }
            }
        }
    }
}

#[test]
fn writes_leave_disjoint_fields_alone() {
    let upper = FieldRange { before: 0, after: WORD - 8 };
    let lower = FieldRange { before: 8, after: WORD - 12 };
    assert_eq!(upper.mask() & lower.mask(), 0);
    let word = lower.write_low_bits(0, 0x9);
    let both = upper.write_low_bits(word, 0xC3);
    assert_eq!(lower.read_low_bits(both), 0x9);
    assert_eq!(upper.read_low_bits(both), 0xC3);
    let again = lower.write_low_bits(both, 0x6);
    assert_eq!(upper.read_low_bits(again), 0xC3);
    assert_eq!(lower.read_low_bits(again), 0x6);
}

#[test]
fn covers_and_apart() {
    let whole = FieldRange { before: 0, after: 0 };
    let upper = FieldRange { before: 0, after: WORD - 8 };
    let lower = FieldRange { before: 8, after: WORD - 12 };
    let inner = FieldRange { before: 2, after: WORD - 6 };
    let empty = FieldRange { before: 4, after: WORD - 4 };
    assert!(whole.covers(&upper));
    assert!(whole.covers(&lower));
    assert!(upper.covers(&inner));
    assert!(upper.covers(&upper));
    assert!(!upper.covers(&lower));
    assert!(!inner.covers(&upper));
    assert!(upper.covers(&empty));

    assert!(upper.apart(&lower));
    assert!(lower.apart(&upper));
    assert!(!upper.apart(&inner));
    assert!(!whole.apart(&lower));
    assert!(inner.apart(&lower));
    assert!(empty.apart(&FieldRange { before: 0, after: WORD - 4 }));
}
