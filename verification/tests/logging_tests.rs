use rhdl_core::clock_details::ClockDetails;
use rhdl_core::digital::{Digital, Value};
use rhdl_core::kind::{DiscriminantAlignment, Kind};
use rhdl_core::log_builder::{allocate, register, segment_text, LogBuilder};
use rhdl_core::logger::{is_writable, record, skip, write_samples, LoggerImpl};
use rhdl_core::tag_id::TagID;
use rhdl_core::trace::{Channel, Sample, Segment};
use std::cell::RefCell;
use std::marker::PhantomData;
use std::rc::Rc;

#[derive(Default)]
struct Book {
    channels: RefCell<Vec<(String, usize)>>,
    clocks: RefCell<Vec<ClockDetails>>,
}

struct Builder {
    book: Rc<Book>,
    prefix: Vec<String>,
    tags: usize,
}

impl Builder {
    fn new() -> Builder {
        Builder { book: Rc::new(Book::default()), prefix: vec![], tags: 0 }
    }

    fn below(&self, name: &str) -> Builder {
        let mut prefix = self.prefix.clone();
        prefix.push(name.to_string());
        Builder { book: self.book.clone(), prefix, tags: 0 }
    }

    fn channels(&self) -> Vec<(String, usize)> {
        self.book.channels.borrow().clone()
    }
}

impl LogBuilder for Builder {
    type SubBuilder = Builder;

    fn scope(&self, name: &str) -> Builder {
        self.below(name)
    }

    fn tag<T: Digital>(&mut self, name: &str) -> TagID<T> {
        self.prefix = vec![name.to_string()];
        self.tags += 1;
        TagID { context: 0, id: self.tags - 1, _marker: PhantomData }
    }

    fn allocate<T: Digital>(&self, _tag: TagID<T>, width: usize) {
        self.book.channels.borrow_mut().push((self.prefix.join("."), width));
    }

    fn namespace(&self, name: &str) -> Builder {
        self.below(name)
    }

    fn add_clock(&mut self, clock: ClockDetails) {
        self.book.clocks.borrow_mut().push(clock);
    }
}

#[derive(Debug, PartialEq)]
enum Written {
    Bits(usize, u128),
    Bool(usize, bool),
    Text(usize, String),
    Skip(usize),
}

#[derive(Default)]
struct Logger {
    written: Vec<Written>,
    time: u64,
}

impl LoggerImpl for Logger {
    fn write_bits<T: Digital>(&mut self, tag: TagID<T>, value: u128) {
        self.written.push(Written::Bits(tag.id, value));
    }

    fn write_bool<T: Digital>(&mut self, tag: TagID<T>, value: bool) {
        self.written.push(Written::Bool(tag.id, value));
    }

    fn write_string<T: Digital>(&mut self, tag: TagID<T>, value: &str) {
        self.written.push(Written::Text(tag.id, value.to_string()));
    }

    fn skip<T: Digital>(&mut self, tag: TagID<T>) {
        self.written.push(Written::Skip(tag.id));
    }

    fn set_time_in_fs(&mut self, time: u64) {
        self.time = time;
    }
}

enum Test {
    A,
    B(u8, u16),
    C { a: u8, b: bool },
}

impl Digital for Test {
    fn static_kind() -> Kind {
        Kind::make_enum(
            vec![
                Kind::make_variant("A", Kind::Empty, 0),
                Kind::make_variant(
                    "B",
                    Kind::make_tuple(vec![u8::static_kind(), u16::static_kind()]),
                    1,
                ),
                Kind::make_variant(
                    "C",
                    Kind::make_struct(vec![
                        Kind::make_field("a", u8::static_kind()),
                        Kind::make_field("b", bool::static_kind()),
                    ]),
                    2,
                ),
            ],
            2,
            DiscriminantAlignment::Msb,
        )
    }

    fn value(&self) -> Value {
        match self {
            Test::A => Value::Enum { variant: 0, payload: Box::new(Value::Empty) },
            Test::B(first, second) => Value::Enum {
                variant: 1,
                payload: Box::new(Value::Composite(vec![first.value(), second.value()])),
            },
            Test::C { a, b } => Value::Enum {
                variant: 2,
                payload: Box::new(Value::Composite(vec![a.value(), b.value()])),
            },
        }
    }
}

struct Wide;

impl Digital for Wide {
    fn static_kind() -> Kind {
        Kind::make_bits(129)
    }

    fn value(&self) -> Value {
        Value::from_bits(1, 129)
    }
}

struct Confused;

impl Digital for Confused {
    fn static_kind() -> Kind {
        Kind::make_bits(3)
    }

    fn value(&self) -> Value {
        Value::from_bits(0, 4)
    }
}

#[test]
fn channels_are_registered_under_their_names() {
    let mut builder = Builder::new();
    let tag = builder.tag::<Test>("test");
    allocate::<Test, Test, Builder>(tag, &builder);
    assert_eq!(
        builder.channels(),
        vec![
            ("test".to_string(), 0),
            ("test.B.0".to_string(), 8),
            ("test.B.1".to_string(), 16),
            ("test.C.a".to_string(), 8),
            ("test.C.b".to_string(), 1),
        ]
    );
    let color = builder.tag::<u8>("color");
    assert_eq!(color.id, 1);
    allocate::<u8, u8, Builder>(color, &builder);
    assert_eq!(builder.channels().last(), Some(&("color".to_string(), 8)));
    let copy = color;
    assert_eq!(copy, color.clone());
}

#[test]
fn a_channel_list_is_registered_as_given() {
    let builder = Builder::new();
    let tag: TagID<bool> = TagID { context: 0, id: 7, _marker: PhantomData };
    let channels = vec![
        Channel { name: vec![], width: 3 },
        Channel {
            name: vec![
                Segment::Name("rows".to_string()),
                Segment::Index(12),
                Segment::Name("x".to_string()),
            ],
            width: 5,
        },
    ];
    register(tag, &builder, &channels);
    assert_eq!(builder.channels(), vec![("".to_string(), 3), ("rows.12.x".to_string(), 5)]);
    assert_eq!(segment_text(&Segment::Index(40)), "40");
    assert_eq!(segment_text(&Segment::Name("n".to_string())), "n");
}

#[test]
fn every_sample_writes_or_skips_each_channel() {
    let mut builder = Builder::new();
    let tag = builder.tag::<Test>("test");
    let mut logger = Logger::default();
    logger.set_time_in_fs(1_000);
    assert_eq!(logger.time, 1_000);
    assert!(record(&Test::C { a: 0xAA, b: true }, tag, &mut logger));
    assert_eq!(
        logger.written,
        vec![
            Written::Text(0, "C".to_string()),
            Written::Skip(0),
            Written::Skip(0),
            Written::Bits(0, 0xAA),
            Written::Bits(0, 1),
        ]
    );
    let mut logger = Logger::default();
    assert!(record(&Test::B(2, 1024), tag, &mut logger));
    assert_eq!(
        logger.written,
        vec![
            Written::Text(0, "B".to_string()),
            Written::Bits(0, 2),
            Written::Bits(0, 1024),
            Written::Skip(0),
            Written::Skip(0),
        ]
    );
    let mut logger = Logger::default();
    assert!(record(&Test::A, tag, &mut logger));
    assert_eq!(logger.written.len(), 5);
    assert_eq!(logger.written[0], Written::Text(0, "A".to_string()));
    let mut logger = Logger::default();
    skip::<Test, Test, Logger>(tag, &mut logger);
    assert_eq!(logger.written, (0..5).map(|_| Written::Skip(0)).collect::<Vec<_>>());
}

#[test]
fn what_cannot_be_written_is_not_written() {
    let tag: TagID<Wide> = TagID { context: 0, id: 0, _marker: PhantomData };
    let mut logger = Logger::default();
    assert!(!record(&Wide, tag, &mut logger));
    assert!(logger.written.is_empty());
    assert!(!record(&Confused, tag, &mut logger));
    assert!(logger.written.is_empty());
    assert_eq!(Confused.bin(), None);
    assert_eq!(Wide.bin().map(|bits| bits.len()), Some(129));
    assert_eq!(Test::B(1, 2).bin().map(|bits| bits.len()), Some(26));
    assert!(!is_writable(&vec![Sample::Skip, Sample::Bits(vec![false; 129])]));
    assert!(is_writable(&vec![Sample::Skip, Sample::Bits(vec![false; 128])]));
    assert!(is_writable(&vec![]));
    let samples = vec![Sample::Bits(vec![true; 128]), Sample::Symbol("s".to_string())];
    write_samples(tag, &mut logger, &samples);
    assert_eq!(
        logger.written,
        vec![Written::Bits(0, u128::MAX), Written::Text(0, "s".to_string())]
    );
}

#[test]
fn the_simple_clock_is_added() {
    let mut builder = Builder::new();
    builder.add_simple_clock(5_000);
    assert_eq!(builder.book.clocks.borrow().as_slice(), [ClockDetails::simple(5_000)]);
    let mut borrowed = &mut builder;
    borrowed.add_simple_clock(7);
    borrowed.add_clock(ClockDetails::simple(9));
    assert_eq!(builder.book.clocks.borrow().len(), 3);
    assert_eq!(builder.book.clocks.borrow()[1].period_in_fs, 7);
    assert_eq!(builder.book.clocks.borrow()[1].name, "clock");
}
