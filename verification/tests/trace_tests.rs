use rhdl_core::digital::Value;
use rhdl_core::kind::{DiscriminantAlignment, Kind};
use rhdl_core::clock_details::ClockDetails;
use rhdl_core::trace::{allocate, record, skip, Channel, Sample, Segment};

fn name(text: &str) -> Segment {
    Segment::Name(text.to_string())
}

fn three_way_kind() -> Kind {
    Kind::make_enum(
        vec![
            Kind::make_variant("A", Kind::Empty, 0),
            Kind::make_variant(
                "B",
                Kind::make_tuple(vec![Kind::make_bits(2), Kind::make_bits(3)]),
                1,
            ),
            Kind::make_variant(
                "C",
                Kind::make_struct(vec![
                    Kind::make_field("a", Kind::make_bits(8)),
                    Kind::make_field("b", Kind::make_bits(8)),
                ]),
                2,
            ),
        ],
        2,
        DiscriminantAlignment::Msb,
    )
}

#[test]
fn test_vcd_basic() {
    let static_kind = Kind::make_struct(vec![
        Kind::make_field("a", Kind::make_bits(1)),
        Kind::make_field("b", Kind::make_bits(8)),
    ]);
    let channels = allocate(&static_kind);
    assert_eq!(
        channels,
        vec![
            Channel { name: vec![name("a")], width: 1 },
            Channel { name: vec![name("b")], width: 8 },
        ]
    );
    let simple = Value::Composite(vec![Value::from_bool(true), Value::from_bits(0b10101010, 8)]);
    assert_eq!(
        record(&static_kind, &simple),
        vec![
            Sample::Bits(vec![true]),
            Sample::Bits(vec![false, true, false, true, false, true, false, true]),
        ]
    );
    let simple = Value::Composite(vec![Value::from_bool(false), Value::from_bits(0b01010101, 8)]);
    assert_eq!(
        record(&static_kind, &simple),
        vec![
            Sample::Bits(vec![false]),
            Sample::Bits(vec![true, false, true, false, true, false, true, false]),
        ]
    );
}

#[test]
fn test_derive_digital_complex_enum() {
    let static_kind = three_way_kind();
    let channels = allocate(&static_kind);
    assert_eq!(
        channels,
        vec![
            Channel { name: vec![], width: 0 },
            Channel { name: vec![name("B"), Segment::Index(0)], width: 2 },
            Channel { name: vec![name("B"), Segment::Index(1)], width: 3 },
            Channel { name: vec![name("C"), name("a")], width: 8 },
            Channel { name: vec![name("C"), name("b")], width: 8 },
        ]
    );
    let foo_1 = Value::Enum {
        variant: 2,
        payload: Box::new(Value::Composite(vec![
            Value::from_bits(0b10101010, 8),
            Value::from_bits(0b11010111, 8),
        ])),
    };
    let foo_2 = Value::Enum {
        variant: 1,
        payload: Box::new(Value::Composite(vec![
            Value::from_bits(0b10, 2),
            Value::from_bits(0b101, 3),
        ])),
    };
    let foo_3 = Value::Enum { variant: 0, payload: Box::new(Value::Empty) };
    assert_eq!(
        record(&static_kind, &foo_1),
        vec![
            Sample::Symbol("C".to_string()),
            Sample::Skip,
            Sample::Skip,
            Sample::Bits(vec![false, true, false, true, false, true, false, true]),
            Sample::Bits(vec![true, true, true, false, true, false, true, true]),
        ]
    );
    assert_eq!(
        record(&static_kind, &foo_2),
        vec![
            Sample::Symbol("B".to_string()),
            Sample::Bits(vec![false, true]),
            Sample::Bits(vec![true, false, true]),
            Sample::Skip,
            Sample::Skip,
        ]
    );
    assert_eq!(
        record(&static_kind, &foo_3),
        vec![
            Sample::Symbol("A".to_string()),
            Sample::Skip,
            Sample::Skip,
            Sample::Skip,
            Sample::Skip,
        ]
    );
}

#[test]
fn channels_do_not_depend_on_the_value() {
    let kind = three_way_kind();
    let first = allocate(&kind);
    let second = allocate(&kind);
    assert_eq!(first, second);
    let values = vec![
        Value::Enum { variant: 0, payload: Box::new(Value::Empty) },
        Value::Enum {
            variant: 1,
            payload: Box::new(Value::Composite(vec![
                Value::from_bits(3, 2),
                Value::from_bits(0, 3),
            ])),
        },
    ];
    for value in values.iter() {
        let samples = record(&kind, value);
        assert_eq!(samples.len(), first.len());
        for (sample, channel) in samples.iter().zip(first.iter()) {
            match sample {
                Sample::Bits(bits) => assert_eq!(bits.len(), channel.width),
                Sample::Symbol(_) => assert_eq!(channel.width, 0),
                Sample::Skip => {}
            }
        }
    }
    assert_eq!(allocate(&kind), first);
}

#[test]
fn skip_marks_every_channel() {
    let kind = three_way_kind();
    assert_eq!(
        skip(&kind),
        vec![Sample::Skip, Sample::Skip, Sample::Skip, Sample::Skip, Sample::Skip]
    );
    assert_eq!(skip(&Kind::Empty), Vec::<Sample>::new());
    assert_eq!(skip(&Kind::make_bits(4)), vec![Sample::Skip]);
}

#[test]
fn arrays_name_their_elements_by_position() {
    let kind = Kind::make_struct(vec![Kind::make_field(
        "row",
        Kind::make_array(Kind::make_tuple(vec![Kind::make_bits(1), Kind::make_bits(2)]), 2),
    )]);
    assert_eq!(
        allocate(&kind),
        vec![
            Channel { name: vec![name("row"), Segment::Index(0), Segment::Index(0)], width: 1 },
            Channel { name: vec![name("row"), Segment::Index(0), Segment::Index(1)], width: 2 },
            Channel { name: vec![name("row"), Segment::Index(1), Segment::Index(0)], width: 1 },
            Channel { name: vec![name("row"), Segment::Index(1), Segment::Index(1)], width: 2 },
        ]
    );
    assert_eq!(allocate(&Kind::make_bits(5)), vec![Channel { name: vec![], width: 5 }]);
    assert_eq!(allocate(&Kind::Empty), Vec::<Channel>::new());
}

#[test]
fn nested_enums_skip_whole_subtrees() {
    let inner = || three_way_kind();
    let kind = Kind::make_enum(
        vec![
            Kind::make_variant("Off", Kind::Empty, 0),
            Kind::make_variant("On", inner(), 1),
        ],
        1,
        DiscriminantAlignment::Lsb,
    );
    assert_eq!(allocate(&kind).len(), 6);
    let off = Value::Enum { variant: 0, payload: Box::new(Value::Empty) };
    let samples = record(&kind, &off);
    assert_eq!(samples.len(), 6);
    assert_eq!(samples[0], Sample::Symbol("Off".to_string()));
    assert!(samples[1..].iter().all(|sample| *sample == Sample::Skip));
    let on = Value::Enum {
        variant: 1,
        payload: Box::new(Value::Enum { variant: 0, payload: Box::new(Value::Empty) }),
    };
    let samples = record(&kind, &on);
    assert_eq!(samples[0], Sample::Symbol("On".to_string()));
    assert_eq!(samples[1], Sample::Symbol("A".to_string()));
    assert!(samples[2..].iter().all(|sample| *sample == Sample::Skip));
}

#[test]
fn the_simple_clock() {
    let clock = ClockDetails::simple(10_000);
    assert_eq!(
        clock,
        ClockDetails {
            name: "clock".to_string(),
            period_in_fs: 10_000,
            offset_in_fs: 0,
            initial_state: false,
        }
    );
}
