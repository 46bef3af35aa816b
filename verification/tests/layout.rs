use ebkit::evt::bitfield::{check_layout, extract_field, word_type_bits, LayoutError};
use ebkit::evt::enum_layout::{
    check_enum_layout, DeriveError, FieldAttr, FieldFault, VariantDesc, VariantFault, VariantShape,
};
use ebkit::evt::layout::{decode_layout, VariantLayout};
use ebkit::evt::Word;

#[test]
fn word_types_have_their_widths() {
    assert_eq!(word_type_bits(b"u16"), Some(16));
    assert_eq!(word_type_bits(b"u32"), Some(32));
    assert_eq!(word_type_bits(b"u64"), Some(64));
    assert_eq!(word_type_bits(b"u8"), None);
    assert_eq!(word_type_bits(b"i32"), None);
}

#[test]
fn layouts_must_be_complete_and_inside_the_word() {
    assert_eq!(check_layout(Some(28), Some(4), 32), Ok((28, 4)));
    assert_eq!(check_layout(Some(0), Some(64), 64), Ok((0, 64)));
    assert_eq!(check_layout(None, Some(4), 32), Err(LayoutError::MissingLsb));
    assert_eq!(check_layout(None, None, 32), Err(LayoutError::MissingLsb));
    assert_eq!(check_layout(Some(1), None, 32), Err(LayoutError::MissingWidth));
    assert_eq!(check_layout(Some(0), Some(0), 32), Err(LayoutError::OutOfRange));
    assert_eq!(check_layout(Some(32), Some(1), 32), Err(LayoutError::OutOfRange));
    assert_eq!(check_layout(Some(0), Some(33), 32), Err(LayoutError::OutOfRange));
    assert_eq!(check_layout(Some(29), Some(4), 32), Err(LayoutError::OutOfRange));
}

#[test]
fn fields_are_shifted_and_masked() {
    assert_eq!(extract_field(0xABCD_1234, 28, 4), 0xA);
    assert_eq!(extract_field(0xABCD_1234, 0, 16), 0x1234);
    assert_eq!(extract_field(0xABCD_1234, 8, 12), 0xD12);
    assert_eq!(extract_field(u64::MAX, 0, 64), u64::MAX);
    assert_eq!(extract_field(u64::MAX, 63, 1), 1);
}

#[test]
fn decode_matches_from_u32() {
    for w in [0x0000_0000u32, 0x1234_5678, 0x8FFF_FFFF, 0xA000_0101, 0xD000_0001, 0xE001_BEEF, 0xF000_0000, 0x3000_0000] {
        assert_eq!(Word::decode(w), Word::from_u32(w));
    }
    assert_eq!(Word::decode(0x3000_0000), None);
    assert_eq!(Word::decode(0x8000_0005), Some(Word::TimeHigh { timestamp: 5 }));
}

fn word_table() -> Vec<VariantLayout> {
    vec![
        VariantLayout { tags: vec![0x0, 0x1], fields: vec![(22, 6), (28, 4), (11, 11), (0, 11)] },
        VariantLayout { tags: vec![0x8], fields: vec![(0, 28)] },
        VariantLayout { tags: vec![0xA], fields: vec![(22, 6), (8, 5), (0, 1)] },
        VariantLayout { tags: vec![0xD], fields: vec![(0, 28)] },
        VariantLayout { tags: vec![0xE], fields: vec![(22, 6), (16, 1), (0, 16)] },
        VariantLayout { tags: vec![0xF], fields: vec![(0, 28)] },
    ]
}

#[test]
fn layout_decode_picks_variant_by_tag_and_reads_fields() {
    let table = word_table();
    assert_eq!(decode_layout(0x1140_0000, 28, 4, &table), Some((0, vec![5, 1, 0, 0])));
    assert_eq!(decode_layout(0x8000_000A, 28, 4, &table), Some((1, vec![10])));
    assert_eq!(decode_layout(0xA000_0101, 28, 4, &table), Some((2, vec![0, 1, 1])));
    assert_eq!(decode_layout(0xE001_BEEF, 28, 4, &table), Some((4, vec![0, 1, 0xBEEF])));
    assert_eq!(decode_layout(0x3000_0000, 28, 4, &table), None);
}

#[test]
fn layout_decode_agrees_with_word_decode() {
    let table = word_table();
    for w in [0x0000_0000u32, 0x1234_5678, 0x8FFF_FFFF, 0xA000_0101, 0xD000_0001, 0xE001_BEEF, 0xF000_0000] {
        let (i, f) = decode_layout(w as u64, 28, 4, &table).unwrap();
        let built = match i {
            0 => Word::Event2D { time_low: f[0] as u8, polarity: f[1] as u8, x: f[2] as u16, y: f[3] as u16 },
            1 => Word::TimeHigh { timestamp: f[0] as u32 },
            2 => Word::ExtTrigger { time_low: f[0] as u8, id: f[1] as u8, value: f[2] as u8 },
            3 => Word::EventImu { data: f[0] as u32 },
            4 => Word::Others { time_low: f[0] as u8, class: f[1] as u8, subtype: f[2] as u16 },
            _ => Word::Continued { data: f[0] as u32 },
        };
        assert_eq!(Some(built), Word::decode(w));
    }
}

#[test]
fn first_listing_variant_wins_and_unit_variants_have_no_fields() {
    let table = vec![
        VariantLayout { tags: vec![3], fields: vec![] },
        VariantLayout { tags: vec![3, 4], fields: vec![(0, 8)] },
    ];
    assert_eq!(decode_layout(0x3FF, 8, 4, &table), Some((0, vec![])));
    assert_eq!(decode_layout(0x4AB, 8, 4, &table), Some((1, vec![0xAB])));
    assert_eq!(decode_layout(0x5AB, 8, 4, &table), None);
}

fn named(fields: Vec<FieldAttr>, tags: Vec<u32>) -> VariantDesc {
    VariantDesc { tags, shape: VariantShape::Named(fields) }
}

#[test]
fn enum_layout_accepts_word_description() {
    let g = |l, w| FieldAttr::Given(Some(l), Some(w));
    let variants = vec![
        named(vec![g(22, 6), g(28, 4), g(11, 11), g(0, 11)], vec![0x0, 0x1]),
        named(vec![g(0, 28)], vec![0x8]),
        VariantDesc { tags: vec![0x9], shape: VariantShape::Unit },
    ];
    let layout = check_enum_layout(Some(&b"u32"[..]), Some(28), Some(4), &variants).unwrap();
    assert_eq!((layout.word_bits, layout.tag_lsb, layout.tag_width), (32, 28, 4));
    assert_eq!(layout.variants.len(), 3);
    assert_eq!(layout.variants[0].tags, vec![0x0, 0x1]);
    assert_eq!(layout.variants[0].fields, vec![(22, 6), (28, 4), (11, 11), (0, 11)]);
    assert_eq!(layout.variants[2].fields, vec![]);
    assert_eq!(decode_layout(0x9000_0000, 28, 4, &layout.variants), Some((2, vec![])));
}

#[test]
fn enum_layout_reports_the_first_failing_check() {
    let g = |l, w| FieldAttr::Given(Some(l), Some(w));
    let ok = || named(vec![g(0, 8)], vec![1]);
    assert_eq!(check_enum_layout(None, None, None, &[]).err(), Some(DeriveError::MissingWord));
    assert_eq!(check_enum_layout(Some(&b"u8"[..]), Some(0), Some(4), &[]).err(), Some(DeriveError::UnsupportedWord));
    assert_eq!(
        check_enum_layout(Some(&b"u16"[..]), None, Some(4), &[]).err(),
        Some(DeriveError::Tag(LayoutError::MissingLsb))
    );
    assert_eq!(
        check_enum_layout(Some(&b"u16"[..]), Some(14), Some(4), &[]).err(),
        Some(DeriveError::Tag(LayoutError::OutOfRange))
    );
    // The second variant fails on its tags before the third fails on shape.
    let vs = vec![ok(), named(vec![FieldAttr::Missing], vec![]), VariantDesc { tags: vec![3], shape: VariantShape::Tuple }];
    assert_eq!(
        check_enum_layout(Some(&b"u32"[..]), Some(28), Some(4), &vs).err(),
        Some(DeriveError::Variant(1, VariantFault::NoTag))
    );
    let vs = vec![ok(), VariantDesc { tags: vec![3], shape: VariantShape::Tuple }];
    assert_eq!(
        check_enum_layout(Some(&b"u32"[..]), Some(28), Some(4), &vs).err(),
        Some(DeriveError::Variant(1, VariantFault::Tuple))
    );
    // Within a variant, fields are checked in order.
    let vs = vec![named(vec![g(0, 8), FieldAttr::Given(Some(4), None), FieldAttr::Missing], vec![2])];
    assert_eq!(
        check_enum_layout(Some(&b"u32"[..]), Some(28), Some(4), &vs).err(),
        Some(DeriveError::Variant(0, VariantFault::Field(1, FieldFault::Layout(LayoutError::MissingWidth))))
    );
    let vs = vec![named(vec![FieldAttr::Unreadable, g(30, 8)], vec![2])];
    assert_eq!(
        check_enum_layout(Some(&b"u32"[..]), Some(28), Some(4), &vs).err(),
        Some(DeriveError::Variant(0, VariantFault::Field(0, FieldFault::Unreadable)))
    );
    let vs = vec![named(vec![g(30, 8)], vec![2])];
    assert_eq!(
        check_enum_layout(Some(&b"u32"[..]), Some(28), Some(4), &vs).err(),
        Some(DeriveError::Variant(0, VariantFault::Field(0, FieldFault::Layout(LayoutError::OutOfRange))))
    );
}
