use pack::layout::allocate;
use pack::layout::discriminant_bits;
use pack::layout::discriminant_for;
use pack::layout::do_derive_packable;
use pack::layout::enum_data;
use pack::layout::struct_data;
use pack::layout::Data;
use pack::layout::FieldDescriptor;
use pack::layout::FieldSlot;
use pack::layout::Fields;
use pack::layout::Layout;
use pack::layout::LayoutError;
use pack::range::FieldRange;
use pack::range::Side;

const WORD: u32 = usize::BITS;

fn boolean() -> FieldDescriptor {
    FieldDescriptor::integer(1).unwrap()
}

fn integer(width: u32) -> FieldDescriptor {
    FieldDescriptor::integer(width).unwrap()
}

fn pointer(free_bits: u32) -> FieldDescriptor {
    FieldDescriptor::pointer(free_bits).unwrap()
}

#[test]
fn descriptor_of_a_type_that_fits() {
    assert_eq!(
        FieldDescriptor::new(3, Side::Low, true),
        Ok(FieldDescriptor { width: 3, side: Side::Low, nullable: true })
    );
    assert_eq!(
        FieldDescriptor::new(WORD, Side::High, false),
        Ok(FieldDescriptor { width: WORD, side: Side::High, nullable: false })
    );
    assert_eq!(integer(0), FieldDescriptor { width: 0, side: Side::Low, nullable: true });
    assert_eq!(
        pointer(3),
        FieldDescriptor { width: WORD - 3, side: Side::High, nullable: false }
    );
}

#[test]
fn descriptor_of_a_type_wider_than_a_word_is_refused() {
    assert_eq!(
        FieldDescriptor::new(WORD + 1, Side::Low, true),
        Err(LayoutError::WidthOverflow { field: 0 })
    );
    assert_eq!(FieldDescriptor::integer(WORD + 1), Err(LayoutError::WidthOverflow { field: 0 }));
    assert_eq!(FieldDescriptor::pointer(WORD + 1), Err(LayoutError::WidthOverflow { field: 0 }));
}

#[test]
fn allocate_takes_the_bits_below_the_cursor() {
    assert_eq!(
        allocate(WORD, 1),
        Some((FieldRange { before: 0, after: WORD - 1 }, WORD - 1))
    );
    assert_eq!(allocate(10, 3), Some((FieldRange { before: WORD - 10, after: 7 }, 7)));
    assert_eq!(allocate(10, 10), Some((FieldRange { before: WORD - 10, after: 0 }, 0)));
}

#[test]
fn allocate_of_no_bits_moves_nothing() {
    assert_eq!(allocate(10, 0), Some((FieldRange { before: WORD - 10, after: 10 }, 10)));
    assert_eq!(allocate(0, 0), Some((FieldRange { before: WORD, after: 0 }, 0)));
    assert_eq!(allocate(WORD, 0), Some((FieldRange { before: 0, after: WORD }, WORD)));
}

#[test]
fn allocate_fails_where_too_few_bits_are_left() {
    assert_eq!(allocate(2, 3), None);
    assert_eq!(allocate(0, 1), None);
    assert_eq!(allocate(WORD, WORD + 1), None);
}

#[test]
fn discriminant_bits_is_the_rounded_up_logarithm() {
    assert_eq!(discriminant_bits(0), 0);
    assert_eq!(discriminant_bits(1), 0);
    assert_eq!(discriminant_bits(2), 1);
    assert_eq!(discriminant_bits(3), 2);
    assert_eq!(discriminant_bits(4), 2);
    assert_eq!(discriminant_bits(5), 3);
    assert_eq!(discriminant_bits(8), 3);
    assert_eq!(discriminant_bits(9), 4);
    assert_eq!(discriminant_bits(256), 8);
    assert_eq!(discriminant_bits(257), 9);
    assert_eq!(discriminant_bits(1 << (WORD - 1)), WORD - 1);
    assert_eq!(discriminant_bits((1 << (WORD - 1)) + 1), WORD);
    assert_eq!(discriminant_bits(usize::MAX), WORD);
}

#[test]
fn discriminant_for_checks_the_number_of_variants() {
    assert_eq!(discriminant_for(0), Err(LayoutError::NoVariants));
    assert_eq!(discriminant_for(1), Ok(0));
    assert_eq!(discriminant_for(2), Ok(1));
    assert_eq!(discriminant_for(7), Ok(3));
    if WORD > 32 {
        let limit = 1usize << 32;
        assert_eq!(discriminant_for(limit), Ok(32));
        assert_eq!(discriminant_for(limit + 1), Err(LayoutError::TooManyVariants));
        assert_eq!(discriminant_for(usize::MAX), Err(LayoutError::TooManyVariants));
    } else {
        assert_eq!(discriminant_for(usize::MAX), Ok(32));
    }
}

#[test]
fn struct_fields_follow_each_other_from_the_top() {
    let fields = Fields::Named(vec![pointer(3), boolean(), boolean()]);
    let layout = struct_data(&fields, WORD).unwrap();
    assert_eq!(layout.len(), 3);
    assert_eq!(layout.start, WORD);
    assert_eq!(layout.next, 1);
    assert_eq!(layout.width(), WORD - 1);
    assert_eq!(
        layout.slots,
        vec![
            FieldSlot {
                range: FieldRange { before: 0, after: 3 },
                side: Side::High,
                nullable: false
            },
            FieldSlot {
                range: FieldRange { before: WORD - 3, after: 2 },
                side: Side::Low,
                nullable: true
            },
            FieldSlot {
                range: FieldRange { before: WORD - 2, after: 1 },
                side: Side::Low,
                nullable: true
            },
        ]
    );
}

#[test]
fn struct_without_fields_takes_no_bits() {
    for fields in [Fields::Unit, Fields::Named(vec![]), Fields::Unnamed(vec![])] {
        let layout = struct_data(&fields, 17).unwrap();
        assert_eq!(layout.len(), 0);
        assert_eq!(layout.start, 17);
        assert_eq!(layout.next, 17);
        assert_eq!(layout.width(), 0);
        assert_eq!(layout.pack(&vec![]), 0);
        assert_eq!(layout.unpack(usize::MAX), Vec::<usize>::new());
    }
}

#[test]
fn struct_may_fill_the_word_exactly() {
    let fields = Fields::Unnamed(vec![integer(WORD - 1), boolean()]);
    let layout = struct_data(&fields, WORD).unwrap();
    assert_eq!(layout.next, 0);
    assert_eq!(layout.slots[0].range, FieldRange { before: 0, after: 1 });
    assert_eq!(layout.slots[1].range, FieldRange { before: WORD - 1, after: 0 });
}

#[test]
fn struct_layout_starts_at_the_given_cursor() {
    let fields = Fields::Unnamed(vec![integer(4), integer(0), integer(2)]);
    let layout = struct_data(&fields, 10).unwrap();
    assert_eq!(layout.slots[0].range, FieldRange { before: WORD - 10, after: 6 });
    assert_eq!(layout.slots[1].range, FieldRange { before: WORD - 6, after: 6 });
    assert_eq!(layout.slots[2].range, FieldRange { before: WORD - 6, after: 4 });
    assert_eq!(layout.next, 4);
}

#[test]
fn struct_error_names_the_first_field_that_does_not_fit() {
    let fields = Fields::Named(vec![pointer(2), boolean(), integer(2), boolean()]);
    assert_eq!(
        struct_data(&fields, WORD).unwrap_err(),
        LayoutError::WidthOverflow { field: 2 }
    );
    let fields = Fields::Unnamed(vec![integer(4)]);
    assert_eq!(struct_data(&fields, 3).unwrap_err(), LayoutError::WidthOverflow { field: 0 });
    assert_eq!(struct_data(&fields, 0).unwrap_err(), LayoutError::WidthOverflow { field: 0 });
}

#[test]
fn masks_of_struct_fields_share_no_bit() {
    let fields = Fields::Named(vec![pointer(4), integer(2), boolean(), integer(0), boolean()]);
    let layout = struct_data(&fields, WORD).unwrap();
    for i in 0..layout.len() {
        for j in 0..layout.len() {
            if i != j {
                assert_eq!(layout.slots[i].range.mask() & layout.slots[j].range.mask(), 0);
            }
        }
    }
    let all = layout.slots.iter().fold(0, |seen, slot| seen | slot.range.mask());
    assert_eq!(all, usize::MAX);
}

#[test]
fn pack_a_boolean_and_a_three_bit_integer() {
    let fields = Fields::Unnamed(vec![boolean(), integer(3)]);
    let layout = struct_data(&fields, WORD).unwrap();
    assert_eq!(layout.slots[0].range, FieldRange { before: 0, after: WORD - 1 });
    assert_eq!(layout.slots[1].range, FieldRange { before: 1, after: WORD - 4 });

    let word = layout.pack(&vec![1, 5]);
    assert_eq!(word, (1 << (WORD - 1)) | (5 << (WORD - 4)));
    assert_eq!(word >> (WORD - 4), 0b1101);
    assert_eq!(layout.load(word, 0), 1);
    assert_eq!(layout.load(word, 1), 5);
    assert_eq!(layout.unpack(word), vec![1, 5]);
}

#[test]
fn store_overwrites_one_field_whatever_was_there() {
    let fields = Fields::Named(vec![pointer(3), integer(2), boolean()]);
    let layout = struct_data(&fields, WORD).unwrap();
    for word in [0usize, usize::MAX, 0xDEAD_BEEF] {
        let stored = layout.store(word, 1, 0b10);
        assert_eq!(layout.load(stored, 1), 0b10);
        assert_eq!(layout.load(stored, 0), layout.load(word, 0));
        assert_eq!(layout.load(stored, 2), layout.load(word, 2));

        let address = 0x1000usize;
        let stored = layout.store(stored, 0, address);
        assert_eq!(layout.load(stored, 0), address);
        assert_eq!(layout.load(stored, 1), 0b10);
        assert_eq!(layout.load(stored, 2), layout.load(word, 2));
    }
}

#[test]
fn pointer_fields_keep_their_place_and_leave_the_low_bits() {
    let fields = Fields::Named(vec![pointer(3), integer(3)]);
    let layout = struct_data(&fields, WORD).unwrap();
    let address = 0x7FFF_1238usize;
    let word = layout.pack(&vec![address, 0b101]);
    assert_eq!(word, address | 0b101);
    assert_eq!(layout.load(word, 0), address);
    assert_eq!(layout.load(word, 1), 0b101);
}

#[test]
fn slot_load_and_store_go_by_the_side() {
    let low = FieldSlot {
        range: FieldRange { before: 4, after: WORD - 8 },
        side: Side::Low,
        nullable: true,
    };
    let high = FieldSlot { side: Side::High, ..low };
    assert_eq!(low.store(0, 0xA), 0xA << (WORD - 8));
    assert_eq!(high.store(0, 0xA << (WORD - 4)), 0xA << (WORD - 8));
    assert_eq!(low.load(0xA << (WORD - 8)), 0xA);
    assert_eq!(high.load(0xA << (WORD - 8)), 0xA << (WORD - 4));
}

#[test]
fn enum_payloads_share_the_top_and_the_discriminant_follows_the_widest() {
    let variants = vec![
        Fields::Unnamed(vec![pointer(2)]),
        Fields::Unit,
        Fields::Unnamed(vec![integer(5)]),
    ];
    let layout = enum_data(&variants, WORD).unwrap();
    assert_eq!(layout.len(), 3);
    assert_eq!(
        layout.payloads,
        vec![
            Some(FieldSlot {
                range: FieldRange { before: 0, after: 2 },
                side: Side::High,
                nullable: false
            }),
            None,
            Some(FieldSlot {
                range: FieldRange { before: 0, after: WORD - 5 },
                side: Side::Low,
                nullable: true
            }),
        ]
    );
    assert_eq!(layout.discriminant, FieldRange { before: WORD - 2, after: 0 });
    assert_eq!(layout.start, WORD);
    assert_eq!(layout.next, 0);
    assert_eq!(layout.width(), WORD);
}

#[test]
fn enum_discriminant_never_overlaps_a_payload() {
    let variants = vec![
        Fields::Unnamed(vec![integer(1)]),
        Fields::Unnamed(vec![integer(9)]),
        Fields::Unit,
        Fields::Unnamed(vec![integer(4)]),
        Fields::Unnamed(vec![integer(0)]),
    ];
    let layout = enum_data(&variants, 20).unwrap();
    assert_eq!(layout.discriminant, FieldRange { before: WORD - 11, after: 8 });
    assert_eq!(layout.next, 8);
    for payload in layout.payloads.iter().flatten() {
        assert_eq!(payload.range.mask() & layout.discriminant.mask(), 0);
        assert_eq!(payload.range.before, WORD - 20);
    }
}

#[test]
fn enum_with_one_variant_has_no_discriminant_bits() {
    let variants = vec![Fields::Unnamed(vec![integer(7)])];
    let layout = enum_data(&variants, WORD).unwrap();
    assert_eq!(layout.discriminant.width(), 0);
    assert_eq!(layout.next, WORD - 7);
    let word = layout.store(0, 0, 0x55);
    assert_eq!(word, 0x55 << (WORD - 7));
    assert_eq!(layout.load(word), Some((0, 0x55)));
}

#[test]
fn enum_store_writes_payload_and_discriminant() {
    let variants = vec![
        Fields::Unnamed(vec![pointer(2)]),
        Fields::Unnamed(vec![pointer(2)]),
        Fields::Unit,
    ];
    let layout = enum_data(&variants, WORD).unwrap();
    let address = 0x4000usize;
    for word in [0usize, usize::MAX, 0x1234_5678] {
        let left = layout.store(word, 0, address);
        assert_eq!(layout.load_discriminant(left), 0);
        assert_eq!(layout.load_payload(left, 0), address);
        assert_eq!(layout.load(left), Some((0, address)));

        let right = layout.store(word, 1, address);
        assert_eq!(right & 0b11, 1);
        assert_eq!(layout.load(right), Some((1, address)));

        let unit = layout.store(word, 2, 0);
        assert_eq!(layout.load_discriminant(unit), 2);
        assert_eq!(layout.load(unit), Some((2, 0)));
    }
    assert_eq!(layout.store(0, 1, address), address | 1);
}

#[test]
fn enum_load_refuses_a_discriminant_without_variant() {
    let variants = vec![Fields::Unit, Fields::Unit, Fields::Unit];
    let layout = enum_data(&variants, WORD).unwrap();
    let three = layout.discriminant.write_low_bits(0, 3);
    assert_eq!(layout.load_discriminant(three), 3);
    assert_eq!(layout.load(three), None);
    assert_eq!(layout.load(layout.store(0, 2, 0)), Some((2, 0)));
}

#[test]
fn enum_errors() {
    assert_eq!(enum_data(&vec![], WORD).unwrap_err(), LayoutError::NoVariants);

    let variants = vec![Fields::Unit, Fields::Named(vec![boolean()]), Fields::Named(vec![])];
    assert_eq!(
        enum_data(&variants, WORD).unwrap_err(),
        LayoutError::StructVariant { variant: 1 }
    );

    let variants = vec![
        Fields::Unnamed(vec![boolean()]),
        Fields::Unit,
        Fields::Unnamed(vec![boolean(), boolean()]),
    ];
    assert_eq!(
        enum_data(&variants, WORD).unwrap_err(),
        LayoutError::MultiFieldVariant { variant: 2 }
    );

    let variants = vec![Fields::Unnamed(vec![])];
    assert_eq!(
        enum_data(&variants, WORD).unwrap_err(),
        LayoutError::MultiFieldVariant { variant: 0 }
    );

    let variants = vec![Fields::Unnamed(vec![integer(3)]), Fields::Unnamed(vec![integer(9)])];
    assert_eq!(
        enum_data(&variants, 8).unwrap_err(),
        LayoutError::WidthOverflow { field: 1 }
    );

    let variants = vec![Fields::Unnamed(vec![integer(8)]), Fields::Unit];
    assert_eq!(enum_data(&variants, 8).unwrap_err(), LayoutError::DiscriminantOverflow);

    let variants = vec![Fields::Unnamed(vec![pointer(0)]), Fields::Unit];
    assert_eq!(enum_data(&variants, WORD).unwrap_err(), LayoutError::DiscriminantOverflow);
}

#[test]
fn shape_errors_come_before_width_errors() {
    let variants = vec![
        Fields::Unnamed(vec![integer(9)]),
        Fields::Named(vec![boolean()]),
    ];
    assert_eq!(
        enum_data(&variants, 8).unwrap_err(),
        LayoutError::StructVariant { variant: 1 }
    );
}

#[test]
fn derive_lays_out_structs_and_enums_and_refuses_unions() {
    let data = Data::Struct(Fields::Named(vec![pointer(2), boolean()]));
    match do_derive_packable(&data, WORD).unwrap() {
        Layout::Struct(layout) => {
            assert_eq!(layout.len(), 2);
            assert_eq!(layout.next, 1);
        },
        Layout::Enum(_) => panic!("a struct has the layout of a struct"),
    }

    let data = Data::Enum(vec![Fields::Unnamed(vec![pointer(2)]), Fields::Unnamed(vec![pointer(3)])]);
    let layout = do_derive_packable(&data, WORD).unwrap();
    assert_eq!(layout.next(), 1);
    assert_eq!(layout.width(), WORD - 1);
    match layout {
        Layout::Enum(layout) => {
            assert_eq!(layout.discriminant, FieldRange { before: WORD - 2, after: 1 });
        },
        Layout::Struct(_) => panic!("an enum has the layout of an enum"),
    }

    assert_eq!(do_derive_packable(&Data::Union, WORD).unwrap_err(), LayoutError::UnionUnsupported);

    let data = Data::Struct(Fields::Unnamed(vec![integer(WORD), boolean()]));
    assert_eq!(
        do_derive_packable(&data, WORD).unwrap_err(),
        LayoutError::WidthOverflow { field: 1 }
    );
    let data = Data::Enum(vec![]);
    assert_eq!(do_derive_packable(&data, WORD).unwrap_err(), LayoutError::NoVariants);
}

#[test]
fn nested_layout_starts_where_the_outer_field_starts() {
    let outer = struct_data(&Fields::Unnamed(vec![integer(4), integer(10)]), WORD).unwrap();
    let inner_start = WORD - outer.slots[1].range.before;
    let inner = struct_data(&Fields::Unnamed(vec![integer(3), integer(7)]), inner_start).unwrap();
    assert_eq!(inner.width(), 10);
    assert_eq!(inner.next, outer.next);
    let word = inner.pack(&vec![5, 100]);
    assert_eq!(outer.load(word, 1), (5 << 7) | 100);
    assert_eq!(outer.load(word, 0), 0);
}

#[test]
fn error_messages_and_positions() {
    assert_eq!(
        LayoutError::TooManyVariants.message(),
        "Too many variants! At most 2^32 - 1 variants are supported"
    );
    assert_eq!(
        LayoutError::StructVariant { variant: 4 }.message(),
        "struct-style enum variants unsupported"
    );
    assert_eq!(
        LayoutError::MultiFieldVariant { variant: 4 }.message(),
        "multiple fields in enum variants are unsupported"
    );
    assert_eq!(LayoutError::UnionUnsupported.message(), "union types are unsupported");
    assert!(!LayoutError::WidthOverflow { field: 0 }.message().is_empty());
    assert!(!LayoutError::NoVariants.message().is_empty());
    assert!(!LayoutError::DiscriminantOverflow.message().is_empty());

    assert_eq!(LayoutError::WidthOverflow { field: 3 }.position(), Some(3));
    assert_eq!(LayoutError::StructVariant { variant: 4 }.position(), Some(4));
    assert_eq!(LayoutError::MultiFieldVariant { variant: 5 }.position(), Some(5));
    assert_eq!(LayoutError::TooManyVariants.position(), None);
    assert_eq!(LayoutError::NoVariants.position(), None);
    assert_eq!(LayoutError::DiscriminantOverflow.position(), None);
    assert_eq!(LayoutError::UnionUnsupported.position(), None);
}

#[test]
fn optional_descriptor_exists_for_types_without_the_zero_pattern() {
    assert_eq!(
        pointer(3).optional(),
        Some(FieldDescriptor { width: WORD - 3, side: Side::High, nullable: true })
    );
    assert_eq!(boolean().optional(), None);
    assert_eq!(pointer(3).optional().and_then(|optional| optional.optional()), None);
}
