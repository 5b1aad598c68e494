use rhdl_core::digital::Value;
use rhdl_core::kind::{DiscriminantAlignment, Kind};
use rhdl_core::path::{bit_range, ErrorKind, Path};

fn simple_struct_kind() -> Kind {
    Kind::make_struct(vec![
        Kind::make_field("a", Kind::make_bits(1)),
        Kind::make_field("b", Kind::make_bits(8)),
    ])
}

fn three_way_kind(width: usize, alignment: DiscriminantAlignment) -> Kind {
    Kind::make_enum(
        vec![
            Kind::make_variant("A", Kind::Empty, 0),
            Kind::make_variant(
                "B",
                Kind::make_tuple(vec![Kind::make_bits(2), Kind::make_bits(3)]),
                1,
            ),
            Kind::make_variant(
                "C",
                Kind::make_struct(vec![
                    Kind::make_field("a", Kind::make_bits(8)),
                    Kind::make_field("b", Kind::make_bits(8)),
                ]),
                2,
            ),
        ],
        width,
        alignment,
    )
}

fn three_way_b(first: u128, second: u128) -> Value {
    Value::Enum {
        variant: 1,
        payload: Box::new(Value::Composite(vec![
            Value::from_bits(first, 2),
            Value::from_bits(second, 3),
        ])),
    }
}

#[test]
fn test_derive_digital_simple_struct() {
    let foo = Value::Composite(vec![Value::from_bool(true), Value::from_bits(0b10101011, 8)]);
    let test_kind = simple_struct_kind();
    let (range, kind) = bit_range(test_kind, &[Path::Field("b")]).unwrap();
    println!("range: {:?}", range);
    println!("kind: {:?}", kind);
    assert_eq!(range, 1..9);
    assert_eq!(kind, Kind::make_bits(8));
    let bits = foo.bin(&simple_struct_kind());
    let bits = &bits[range];
    assert_eq!(bits.len(), 8);
    assert_eq!(bits, [true, true, false, true, false, true, false, true]);
}

#[test]
fn test_derive_complex_enum_and_decode_with_path() {
    let static_kind = || three_way_kind(2, DiscriminantAlignment::Msb);
    let foo = three_way_b(0b10, 0b101);
    let disc = vec![Path::EnumPayload("B"), Path::Index(1)];
    let index = bit_range(static_kind(), &disc).unwrap();
    println!("{:?}", index);
    assert_eq!(index.0, 2..5);
    assert_eq!(index.1, Kind::make_bits(3));
    let bits = foo.bin(&static_kind());
    let bits = &bits[index.0];
    assert_eq!(bits, [true, false, true]);
    let (disc_range, disc_kind) = bit_range(static_kind(), &[Path::EnumDiscriminant]).unwrap();
    println!("{:?}", disc_range);
    println!("{:?}", disc_kind);
    let disc_bits = foo.bin(&static_kind());
    let disc_bits = &disc_bits[disc_range];
    assert_eq!(disc_bits, [true, false]);
}

#[test]
fn test_derive_enum_explicit_discriminant_width() {
    let (range, kind) = bit_range(
        three_way_kind(4, DiscriminantAlignment::Msb),
        &[Path::EnumDiscriminant],
    )
    .unwrap();
    assert_eq!(range.len(), 4);
    assert_eq!(kind, Kind::make_bits(4));
    assert_eq!(range, 16..20);
}

#[test]
fn test_derive_enum_alignment_lsb() {
    let (range, kind) = bit_range(
        three_way_kind(2, DiscriminantAlignment::Lsb),
        &[Path::EnumDiscriminant],
    )
    .unwrap();
    assert_eq!(range, 0..2);
    assert_eq!(kind, Kind::make_bits(2));
}

#[test]
fn empty_path_selects_everything() {
    let (range, kind) = bit_range(simple_struct_kind(), &[]).unwrap();
    assert_eq!(range, 0..9);
    assert_eq!(kind, simple_struct_kind());
}

#[test]
fn all_changes_nothing() {
    let (range, kind) =
        bit_range(simple_struct_kind(), &[Path::All, Path::Field("b"), Path::All]).unwrap();
    assert_eq!(range, 1..9);
    assert_eq!(kind, Kind::make_bits(8));
}

#[test]
fn array_index_in_and_out_of_bounds() {
    let array = || Kind::make_array(Kind::make_bits(4), 3);
    let (range, kind) = bit_range(array(), &[Path::Index(2)]).unwrap();
    assert_eq!(range, 8..12);
    assert_eq!(kind, Kind::make_bits(4));
    let (range, _) = bit_range(array(), &[Path::Index(0)]).unwrap();
    assert_eq!(range, 0..4);
    let error = bit_range(array(), &[Path::Index(3)]).unwrap_err();
    assert_eq!(error.kind, ErrorKind::OutOfBounds);
    assert_eq!(error.step, 0);
    assert_eq!(error.at, array());
}

#[test]
fn empty_array_has_no_element() {
    let array = Kind::make_array(Kind::make_bits(usize::MAX), 0);
    assert_eq!(array.checked_bits(), Some(0));
    let error = bit_range(array, &[Path::Index(0)]).unwrap_err();
    assert_eq!(error.kind, ErrorKind::OutOfBounds);
}

#[test]
fn tuple_index_offsets() {
    let tuple = || {
        Kind::make_tuple(vec![
            Kind::make_bits(3),
            Kind::make_array(Kind::make_bits(2), 4),
            Kind::make_bits(5),
        ])
    };
    let (range, kind) = bit_range(tuple(), &[Path::Index(2)]).unwrap();
    assert_eq!(range, 11..16);
    assert_eq!(kind, Kind::make_bits(5));
    let (range, kind) = bit_range(tuple(), &[Path::Index(1), Path::Index(3)]).unwrap();
    assert_eq!(range, 9..11);
    assert_eq!(kind, Kind::make_bits(2));
    let error = bit_range(tuple(), &[Path::Index(3)]).unwrap_err();
    assert_eq!(error.kind, ErrorKind::OutOfBounds);
}

#[test]
fn index_into_a_scalar_or_struct_fails() {
    let error = bit_range(Kind::make_bits(8), &[Path::Index(0)]).unwrap_err();
    assert_eq!(error.kind, ErrorKind::NotIndexable);
    let error = bit_range(simple_struct_kind(), &[Path::Index(0)]).unwrap_err();
    assert_eq!(error.kind, ErrorKind::NotIndexable);
    let error = bit_range(Kind::Empty, &[Path::Index(0)]).unwrap_err();
    assert_eq!(error.kind, ErrorKind::NotIndexable);
}

#[test]
fn unknown_field_fails() {
    let error = bit_range(simple_struct_kind(), &[Path::Field("c")]).unwrap_err();
    assert_eq!(error.kind, ErrorKind::FieldNotFound);
    assert_eq!(error.step, 0);
    assert_eq!(error.at, simple_struct_kind());
}

#[test]
fn field_of_a_non_struct_fails() {
    let tuple = Kind::make_tuple(vec![Kind::make_bits(1)]);
    let error = bit_range(tuple, &[Path::Field("a")]).unwrap_err();
    assert_eq!(error.kind, ErrorKind::NotFieldAddressable);
    let error =
        bit_range(simple_struct_kind(), &[Path::Field("b"), Path::Field("a")]).unwrap_err();
    assert_eq!(error.kind, ErrorKind::NotFieldAddressable);
    assert_eq!(error.step, 1);
    assert_eq!(error.at, Kind::make_bits(8));
}

#[test]
fn enum_selectors_on_a_non_enum_fail() {
    let error = bit_range(simple_struct_kind(), &[Path::EnumDiscriminant]).unwrap_err();
    assert_eq!(error.kind, ErrorKind::NotAnEnum);
    let error = bit_range(simple_struct_kind(), &[Path::EnumPayload("A")]).unwrap_err();
    assert_eq!(error.kind, ErrorKind::NotAnEnum);
}

#[test]
fn unknown_variant_fails() {
    let error = bit_range(
        three_way_kind(2, DiscriminantAlignment::Msb),
        &[Path::All, Path::EnumPayload("D")],
    )
    .unwrap_err();
    assert_eq!(error.kind, ErrorKind::VariantNotFound);
    assert_eq!(error.step, 1);
    assert_eq!(error.at, three_way_kind(2, DiscriminantAlignment::Msb));
}

#[test]
fn the_first_failing_step_is_reported() {
    let path = [Path::EnumPayload("C"), Path::Field("z"), Path::Index(9)];
    let error = bit_range(three_way_kind(2, DiscriminantAlignment::Lsb), &path).unwrap_err();
    assert_eq!(error.kind, ErrorKind::FieldNotFound);
    assert_eq!(error.step, 1);
}

#[test]
fn discriminant_placement_follows_alignment() {
    let kind = |alignment| {
        Kind::make_enum(
            vec![
                Kind::make_variant("X", Kind::make_bits(2), 0),
                Kind::make_variant("Y", Kind::make_bits(3), 1),
            ],
            2,
            alignment,
        )
    };
    assert_eq!(kind(DiscriminantAlignment::Msb).bits(), 5);
    let (range, found) =
        bit_range(kind(DiscriminantAlignment::Msb), &[Path::EnumDiscriminant]).unwrap();
    assert_eq!(range, 3..5);
    assert_eq!(found, Kind::make_bits(2));
    let (range, found) =
        bit_range(kind(DiscriminantAlignment::Lsb), &[Path::EnumDiscriminant]).unwrap();
    assert_eq!(range, 0..2);
    assert_eq!(found, Kind::make_bits(2));
}

#[test]
fn payload_placement_follows_alignment() {
    let (range, kind) = bit_range(
        three_way_kind(2, DiscriminantAlignment::Lsb),
        &[Path::EnumPayload("B")],
    )
    .unwrap();
    assert_eq!(range, 2..7);
    assert_eq!(kind, Kind::make_tuple(vec![Kind::make_bits(2), Kind::make_bits(3)]));
    let (range, _) = bit_range(
        three_way_kind(2, DiscriminantAlignment::Msb),
        &[Path::EnumPayload("B")],
    )
    .unwrap();
    assert_eq!(range, 0..5);
    let (range, kind) = bit_range(
        three_way_kind(2, DiscriminantAlignment::Lsb),
        &[Path::EnumPayload("C"), Path::Field("b")],
    )
    .unwrap();
    assert_eq!(range, 10..18);
    assert_eq!(kind, Kind::make_bits(8));
    let (range, kind) = bit_range(
        three_way_kind(2, DiscriminantAlignment::Lsb),
        &[Path::EnumPayload("A")],
    )
    .unwrap();
    assert_eq!(range, 2..2);
    assert_eq!(kind, Kind::Empty);
}

#[test]
fn payload_addressing_ignores_the_value() {
    let path = [Path::EnumPayload("B"), Path::Index(1)];
    let kind = || three_way_kind(2, DiscriminantAlignment::Msb);
    let (range, _) = bit_range(kind(), &path).unwrap();
    assert_eq!(range, 2..5);
    let held = three_way_b(0b01, 0b110).bin(&kind());
    assert_eq!(&held[range.clone()], [false, true, true]);
    let other = Value::Enum { variant: 0, payload: Box::new(Value::Empty) }.bin(&kind());
    assert_eq!(&other[range], [false, false, false]);
}

#[test]
fn a_repeated_name_resolves_to_its_first_holder() {
    let kind = Kind::make_struct(vec![
        Kind::make_field("x", Kind::make_bits(2)),
        Kind::make_field("x", Kind::make_bits(5)),
    ]);
    let (range, found) = bit_range(kind, &[Path::Field("x")]).unwrap();
    assert_eq!(range, 0..2);
    assert_eq!(found, Kind::make_bits(2));
}

#[test]
fn every_reason_has_its_message() {
    assert_eq!(ErrorKind::OutOfBounds.message(), "index out of bounds");
    assert_eq!(ErrorKind::NotIndexable.message(), "indexing non-indexable type");
    assert_eq!(ErrorKind::FieldNotFound.message(), "field not found");
    assert_eq!(
        ErrorKind::NotFieldAddressable.message(),
        "field indexing not allowed on this type"
    );
    assert_eq!(ErrorKind::NotAnEnum.message(), "enum selector not valid for non-enum types");
    assert_eq!(ErrorKind::VariantNotFound.message(), "enum payload not found");
    let error = bit_range(Kind::make_bits(1), &[Path::All, Path::EnumDiscriminant]).unwrap_err();
    assert_eq!(
        format!("step {}: {} ({:?})", error.step, error.kind.message(), error.at),
        "step 1: enum selector not valid for non-enum types (Bits(1))"
    );
}
