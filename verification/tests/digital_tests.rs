use rhdl_core::digital::{Digital, Value};
use rhdl_core::kind::{DiscriminantAlignment, Kind};
use rhdl_core::path::{bit_range, Path};

struct Inputs {
    input: u32,
    write: bool,
    read: bool,
}

impl Digital for Inputs {
    fn static_kind() -> Kind {
        Kind::make_struct(vec![
            Kind::make_field("input", <u32 as Digital>::static_kind()),
            Kind::make_field("write", <bool as Digital>::static_kind()),
            Kind::make_field("read", <bool as Digital>::static_kind()),
        ])
    }

    fn value(&self) -> Value {
        Value::Composite(vec![self.input.value(), self.write.value(), self.read.value()])
    }
}

enum Packet {
    Idle,
    A(u8, u16),
    B { name: u8 },
    C(bool),
}

impl Digital for Packet {
    fn static_kind() -> Kind {
        Kind::make_enum(
            vec![
                Kind::make_variant("None", Kind::Empty, 0),
                Kind::make_variant(
                    "A",
                    Kind::make_tuple(vec![u8::static_kind(), u16::static_kind()]),
                    1,
                ),
                Kind::make_variant(
                    "B",
                    Kind::make_struct(vec![Kind::make_field("name", u8::static_kind())]),
                    2,
                ),
                Kind::make_variant("C", Kind::make_tuple(vec![bool::static_kind()]), 3),
            ],
            2,
            DiscriminantAlignment::Msb,
        )
    }

    fn value(&self) -> Value {
        match self {
            Packet::Idle => Value::Enum { variant: 0, payload: Box::new(Value::Empty) },
            Packet::A(first, second) => Value::Enum {
                variant: 1,
                payload: Box::new(Value::Composite(vec![first.value(), second.value()])),
            },
            Packet::B { name } => Value::Enum {
                variant: 2,
                payload: Box::new(Value::Composite(vec![name.value()])),
            },
            Packet::C(flag) => Value::Enum {
                variant: 3,
                payload: Box::new(Value::Composite(vec![flag.value()])),
            },
        }
    }
}

fn bin<T: Digital>(value: &T) -> Vec<bool> {
    let (kind, value) = value.typed().unwrap();
    assert_eq!(kind, T::static_kind());
    value.bin(&kind)
}

struct Confused;

impl Digital for Confused {
    fn static_kind() -> Kind {
        Kind::make_bits(3)
    }

    fn value(&self) -> Value {
        Value::from_bits(0, 4)
    }
}

struct Huge;

impl Digital for Huge {
    fn static_kind() -> Kind {
        Kind::make_array(Kind::make_array(Kind::Empty, usize::MAX), usize::MAX)
    }

    fn value(&self) -> Value {
        Value::Composite(vec![])
    }
}

#[test]
fn an_inconsistent_type_is_caught() {
    assert_eq!(Confused.typed(), None);
    assert_eq!(Huge.typed(), None);
    assert_eq!(
        true.typed(),
        Some((Kind::make_bits(1), Value::Bits(vec![true])))
    );
}

#[test]
fn scalar_types_have_their_widths() {
    assert_eq!(bool::static_kind(), Kind::make_bits(1));
    assert_eq!(u8::static_kind(), Kind::make_bits(8));
    assert_eq!(u16::static_kind(), Kind::make_bits(16));
    assert_eq!(u32::static_kind(), Kind::make_bits(32));
    assert_eq!(u64::static_kind(), Kind::make_bits(64));
    assert_eq!(u128::static_kind(), Kind::make_bits(128));
    assert_eq!(bin(&true), vec![true]);
    assert_eq!(bin(&false), vec![false]);
    assert_eq!(bin(&0xA5_u8), vec![true, false, true, false, false, true, false, true]);
    assert_eq!(bin(&1_u16).len(), 16);
    assert_eq!(bin(&u32::MAX), vec![true; 32]);
    assert_eq!(bin(&(1_u64 << 63))[63], true);
    assert_eq!(bin(&(1_u128 << 127))[127], true);
    assert_eq!(bin(&(1_u128 << 127)).len(), 128);
}

#[test]
fn inputs_struct_scenario() {
    assert_eq!(Inputs::static_kind().bits(), 34);
    let bits = bin(&Inputs { input: 5, write: true, read: false });
    assert_eq!(bits.len(), 34);
    assert_eq!(rhdl_core::bits::from_bools(&bits[0..32].to_vec()), 5);
    assert!(bits[32]);
    assert!(!bits[33]);
}

#[test]
fn packet_enum_scenario() {
    assert_eq!(Packet::static_kind().bits(), 26);
    let bits = bin(&Packet::C(true));
    assert_eq!(bits.len(), 26);
    assert_eq!(&bits[24..26], [true, true]);
    assert!(bits[0]);
    assert!(bits[1..24].iter().all(|bit| !bit));
    for packet in [Packet::Idle, Packet::A(42, 1024), Packet::B { name: 67 }, Packet::C(false)] {
        assert_eq!(bin(&packet).len(), Packet::static_kind().bits());
    }
    let (range, kind) =
        bit_range(Packet::static_kind(), &[Path::EnumPayload("A"), Path::Index(1)]).unwrap();
    assert_eq!(range, 8..24);
    assert_eq!(kind, Kind::make_bits(16));
    assert_eq!(rhdl_core::bits::from_bools(&bin(&Packet::A(42, 1024))[range].to_vec()), 1024);
}
