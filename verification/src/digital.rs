use crate::bits::{
    concat_to, le_bits, lemma_concat_len, lemma_le_bits_len, lengths, push_all, push_bits,
    push_zeros, to_bools, zeros,
};
use crate::kind::{checked_payload_bits, lemma_shape, variant_shapes, DiscriminantAlignment, Kind};
use crate::shape::{kind_widths, lemma_composite_width, lemma_max_to_bounds, variant_widths, Shape};
use vstd::prelude::*;

verus! {

/// What [`Digital::typed`] makes of the kind that a type names and of the
/// parts that a value names: the two together, where the value is one of that
/// kind and the kind is no wider than `usize` can count, and nothing else.
pub open spec fn checked_pair(kind: Kind, value: Value) -> Option<(Kind, Value)> {
    if conforms(kind@, value@) && kind@.width() <= usize::MAX {
        Some((kind, value))
    } else {
        None
    }
}

/// A type whose values have a hardware shape. An implementation names the
/// kind of the type and the parts of a value; nothing is taken on trust of it:
/// [`Digital::typed`] tests what it hands out, and the library encodes and
/// traces from the kind and the value.
pub trait Digital: Sized {
    /// The kind of every value of this type.
    fn static_kind() -> Kind;

    /// This value, as the parts it is made of.
    fn value(&self) -> Value;

    /// The kind of the type together with this value, where the value is one
    /// of that kind and the kind is no wider than `usize` can count: the
    /// checked pair of what `static_kind` gives and what `value` gives for
    /// this value.
    fn typed(&self) -> (r: Option<(Kind, Value)>)
        ensures
            r matches Some((kind, value)) ==> conforms(kind@, value@) && kind@.width()
                <= usize::MAX,
            exists|kind: Kind, value: Value|
                #![trigger
                    call_ensures(Self::static_kind, (), kind),
                    call_ensures(Self::value, (self,), value)
                ]
                call_ensures(Self::static_kind, (), kind) && call_ensures(
                    Self::value,
                    (self,),
                    value,
                ) && r == checked_pair(kind, value),
    {
        let kind = Self::static_kind();
        let value = self.value();
        if value.has_kind(&kind) && kind.checked_bits().is_some() {
            Some((kind, value))
        } else {
            None
        }
    }

    /// The flat encoding of this value as one of the kind of its type: of
    /// what `value` gives for this value, as one of the kind that
    /// `static_kind` gives, where [`Digital::typed`] pairs the two, and `None`
    /// where it does not.
    fn bin(&self) -> (r: Option<Vec<bool>>)
        ensures
            r matches Some(bits) ==> exists|kind: Shape, d: Datum|
                conforms(kind, d) && #[trigger] encode(kind, d) == bits@,
            exists|kind: Kind, value: Value|
                #![trigger
                    call_ensures(Self::static_kind, (), kind),
                    call_ensures(Self::value, (self,), value)
                ]
                call_ensures(Self::static_kind, (), kind) && call_ensures(
                    Self::value,
                    (self,),
                    value,
                ) && match r {
                    Some(bits) => checked_pair(kind, value) is Some && bits@ == encode(
                        kind@,
                        value@,
                    ),
                    None => checked_pair(kind, value) is None,
                },
    {
        match self.typed() {
            Some((kind, value)) => {
                let bits = value.bin(&kind);
                assert(encode(kind@, value@) == bits@);
                Some(bits)
            },
            None => None,
        }
    }
}

impl Digital for bool {
    fn static_kind() -> (kind: Kind)
        ensures
            kind == Kind::Bits(1),
            kind@ == Shape::Bits(1),
    {
        Kind::Bits(1)
    }

    fn value(&self) -> (value: Value)
        ensures
            value@ == Datum::Bits(seq![*self]),
    {
        Value::from_bool(*self)
    }
}

impl Digital for u8 {
    fn static_kind() -> (kind: Kind)
        ensures
            kind == Kind::Bits(8),
            kind@ == Shape::Bits(8),
    {
        Kind::Bits(8)
    }

    fn value(&self) -> (value: Value)
        ensures
            value@ == Datum::Bits(le_bits(*self as nat, 8)),
    {
        Value::from_bits(*self as u128, 8)
    }
}

impl Digital for u16 {
    fn static_kind() -> (kind: Kind)
        ensures
            kind == Kind::Bits(16),
            kind@ == Shape::Bits(16),
    {
        Kind::Bits(16)
    }

    fn value(&self) -> (value: Value)
        ensures
            value@ == Datum::Bits(le_bits(*self as nat, 16)),
    {
        Value::from_bits(*self as u128, 16)
    }
}

impl Digital for u32 {
    fn static_kind() -> (kind: Kind)
        ensures
            kind == Kind::Bits(32),
            kind@ == Shape::Bits(32),
    {
        Kind::Bits(32)
    }

    fn value(&self) -> (value: Value)
        ensures
            value@ == Datum::Bits(le_bits(*self as nat, 32)),
    {
        Value::from_bits(*self as u128, 32)
    }
}

impl Digital for u64 {
    fn static_kind() -> (kind: Kind)
        ensures
            kind == Kind::Bits(64),
            kind@ == Shape::Bits(64),
    {
        Kind::Bits(64)
    }

    fn value(&self) -> (value: Value)
        ensures
            value@ == Datum::Bits(le_bits(*self as nat, 64)),
    {
        Value::from_bits(*self as u128, 64)
    }
}

impl Digital for u128 {
    fn static_kind() -> (kind: Kind)
        ensures
            kind == Kind::Bits(128),
            kind@ == Shape::Bits(128),
    {
        Kind::Bits(128)
    }

    fn value(&self) -> (value: Value)
        ensures
            value@ == Datum::Bits(le_bits(*self as nat, 128)),
    {
        Value::from_bits(*self, 128)
    }
}

/// A hardware value, as the parts it is made of.
#[derive(Debug, PartialEq, Eq)]
pub enum Value {
    /// A scalar: its bits, the least significant first.
    Bits(Vec<bool>),
    /// The elements of an array or tuple, or the fields of a struct, in
    /// declared order.
    Composite(Vec<Value>),
    /// An enum that holds the variant at position `variant`, with its payload.
    Enum { variant: usize, payload: Box<Value> },
    /// The value of the empty kind.
    Empty,
}

/// The mathematical content of a [`Value`].
pub enum Datum {
    Bits(Seq<bool>),
    Composite(Seq<Datum>),
    Enum { variant: int, payload: Box<Datum> },
    Empty,
}

impl Value {
    /// What this value holds.
    pub open spec fn datum(self) -> Datum
        decreases self,
    {
        match self {
            Value::Bits(bits) => Datum::Bits(bits@),
            Value::Composite(parts) => Datum::Composite(
                Seq::new(
                    parts@.len(),
                    |i: int|
                        if 0 <= i < parts@.len() {
                            parts@[i].datum()
                        } else {
                            Datum::Empty
                        },
                ),
            ),
            Value::Enum { variant, payload } => Datum::Enum {
                variant: variant as int,
                payload: Box::new(payload.datum()),
            },
            Value::Empty => Datum::Empty,
        }
    }
}

impl Clone for Value {
    fn clone(&self) -> (r: Self)
        ensures
            r@ == self@,
    {
        self.duplicate()
    }
}

impl View for Value {
    type V = Datum;

    open spec fn view(&self) -> Datum {
        self.datum()
    }
}

/// Whether `d` is a value of kind `kind`.
pub open spec fn conforms(kind: Shape, d: Datum) -> bool
    decreases d,
{
    match d {
        Datum::Bits(bits) => kind matches Shape::Bits(w) && bits.len() == w,
        Datum::Composite(parts) => {
            &&& kind.is_composite()
            &&& parts.len() == kind.members().len()
            &&& forall|i: int|
                #![trigger parts[i]]
                0 <= i < parts.len() ==> conforms(kind.members()[i], parts[i])
        },
        Datum::Enum { variant, payload } => {
            &&& kind matches Shape::Enum { variants, .. }
            &&& 0 <= variant < variants.len()
            &&& conforms(variants[variant].kind, *payload)
        },
        Datum::Empty => kind is Empty,
    }
}

/// The encoding of each part of a composite of kind `kind`.
pub open spec fn pieces(kind: Shape, parts: Seq<Datum>) -> Seq<Seq<bool>>
    decreases parts,
{
    Seq::new(
        parts.len(),
        |i: int|
            if 0 <= i < parts.len() {
                encode(kind.members()[i], parts[i])
            } else {
                Seq::empty()
            },
    )
}

/// The flat encoding of `d` as a value of kind `kind`, bit 0 first.
///
/// A scalar is its own bits. A composite is its parts, one after the other in
/// declared order. An enum is the discriminant of the variant it holds, in
/// `discriminant_width` bits, and that variant's payload followed by clear
/// bits up to the width of the widest payload; the discriminant comes first
/// with `Lsb` alignment and last with `Msb`.
pub open spec fn encode(kind: Shape, d: Datum) -> Seq<bool>
    decreases d,
{
    match d {
        Datum::Bits(bits) => bits,
        Datum::Composite(parts) => concat_to(pieces(kind, parts), parts.len() as int),
        Datum::Enum { variant, payload } => match kind {
            Shape::Enum { variants, discriminant_width, discriminant_alignment } => {
                let tag = le_bits(
                    variants[variant].discriminant,
                    discriminant_width,
                );
                let body = encode(variants[variant].kind, *payload);
                let padded = body + zeros(kind.payload_width() - body.len());
                match discriminant_alignment {
                    DiscriminantAlignment::Lsb => tag + padded,
                    DiscriminantAlignment::Msb => padded + tag,
                }
            },
            _ => Seq::empty(),
        },
        Datum::Empty => Seq::empty(),
    }
}

/// The encoding of a value is exactly as wide as its kind.
pub proof fn lemma_encode_len(kind: Shape, d: Datum)
    requires
        conforms(kind, d),
    ensures
        encode(kind, d).len() == kind.width(),
    decreases d,
{
    match d {
        Datum::Bits(bits) => {},
        Datum::Composite(parts) => {
            let ps = pieces(kind, parts);
            assert forall|i: int| 0 <= i < parts.len() implies #[trigger] ps[i].len()
                == kind.members()[i].width() by {
                assert(conforms(kind.members()[i], parts[i]));
                lemma_encode_len(kind.members()[i], parts[i]);
            }
            assert(lengths(ps) =~= kind_widths(kind.members()));
            lemma_concat_len(ps, parts.len() as int);
            lemma_composite_width(kind, 0);
        },
        Datum::Enum { variant, payload } => {
            match kind {
                Shape::Enum { variants, discriminant_width, discriminant_alignment } => {
                    lemma_encode_len(variants[variant].kind, *payload);
                    lemma_max_to_bounds(variant_widths(variants), variant, variants.len() as int);
                    lemma_le_bits_len(
                        variants[variant].discriminant,
                        discriminant_width,
                    );
                },
                _ => {},
            }
        },
        Datum::Empty => {},
    }
}

/// The bits of `raw` brought to the layout of a value of kind `kind`. For an
/// enum, `raw` is the discriminant followed by the payload: clear bits are
/// added up to the width of the enum and, with `Msb` alignment, the
/// discriminant is moved from the low end to the high end. For another kind
/// the bits are left as they are.
pub open spec fn padded(kind: Shape, raw: Seq<bool>) -> Seq<bool> {
    match kind {
        Shape::Enum { variants, discriminant_width, discriminant_alignment } => {
            let full = raw + zeros(kind.width() - raw.len());
            match discriminant_alignment {
                DiscriminantAlignment::Lsb => full,
                DiscriminantAlignment::Msb => full.subrange(
                    discriminant_width as int,
                    full.len() as int,
                ) + full.subrange(0, discriminant_width as int),
            }
        },
        _ => raw,
    }
}

/// The encoding of an enum is its discriminant followed by its payload,
/// padded.
pub proof fn lemma_enum_encoding_is_padded(kind: Shape, d: Datum)
    requires
        conforms(kind, d),
        kind is Enum,
    ensures
        encode(kind, d) == padded(
            kind,
            le_bits(
                kind->variants[d->variant].discriminant,
                kind->discriminant_width,
            ) + encode(kind->variants[d->variant].kind, *d->payload),
        ),
{
    let variants = kind->variants;
    let variant = d->variant;
    let width = kind->discriminant_width;
    let tag = le_bits(variants[variant].discriminant, width);
    let body = encode(variants[variant].kind, *d->payload);
    lemma_le_bits_len(variants[variant].discriminant, width);
    lemma_encode_len(variants[variant].kind, *d->payload);
    lemma_max_to_bounds(variant_widths(variants), variant, variants.len() as int);
    assert(encode(kind, d) =~= padded(kind, tag + body));
}

impl Kind {
    /// Brings `bits`, the discriminant of an enum followed by a payload, to
    /// the layout of a value of this kind.
    pub fn pad(&self, bits: Vec<bool>) -> (r: Vec<bool>)
        requires
            self@.width() <= usize::MAX,
            self@ is Enum ==> bits@.len() <= self@.width(),
        ensures
            r@ == padded(self@, bits@),
    {
        proof {
            lemma_shape(*self);
        }
        match self {
            Kind::Enum { variants, discriminant_width, discriminant_alignment } => {
                let mut full = bits;
                let missing: usize = self.bits() - full.len();
                push_zeros(&mut full, missing);
                match discriminant_alignment {
                    DiscriminantAlignment::Lsb => full,
                    DiscriminantAlignment::Msb => {
                        let mut out: Vec<bool> = Vec::new();
                        let mut i: usize = *discriminant_width;
                        while i < full.len()
                            invariant
                                *discriminant_width <= i <= full@.len(),
                                out@ == full@.subrange(*discriminant_width as int, i as int),
                            decreases full@.len() - i,
                        {
                            out.push(full[i]);
                            i += 1;
                            assert(out@ =~= full@.subrange(*discriminant_width as int, i as int));
                        }
                        let mut j: usize = 0;
                        while j < *discriminant_width
                            invariant
                                j <= *discriminant_width <= full@.len(),
                                out@ == full@.subrange(
                                    *discriminant_width as int,
                                    full@.len() as int,
                                ) + full@.subrange(0, j as int),
                            decreases *discriminant_width - j,
                        {
                            out.push(full[j]);
                            j += 1;
                            assert(out@ =~= full@.subrange(
                                *discriminant_width as int,
                                full@.len() as int,
                            ) + full@.subrange(0, j as int));
                        }
                        out
                    },
                }
            },
            _ => bits,
        }
    }
}

impl Value {
    /// The value of a one-bit scalar.
    pub fn from_bool(bit: bool) -> (r: Value)
        ensures
            r@ == Datum::Bits(seq![bit]),
    {
        let mut bits: Vec<bool> = Vec::new();
        bits.push(bit);
        assert(bits@ =~= seq![bit]);
        Value::Bits(bits)
    }

    /// The scalar of `width` bits that holds the low `width` bits of `value`.
    pub fn from_bits(value: u128, width: usize) -> (r: Value)
        ensures
            r@ == Datum::Bits(le_bits(value as nat, width as nat)),
    {
        Value::Bits(to_bools(value, width))
    }

    /// A copy of this value.
    pub fn duplicate(&self) -> (r: Value)
        ensures
            r@ == self@,
        decreases self,
    {
        match self {
            Value::Bits(bits) => {
                let mut copy: Vec<bool> = Vec::new();
                push_all(&mut copy, bits);
                assert(copy@ =~= bits@);
                Value::Bits(copy)
            },
            Value::Composite(parts) => {
                let mut copies: Vec<Value> = Vec::new();
                let mut i: usize = 0;
                while i < parts.len()
                    invariant
                        i <= parts@.len(),
                        *self is Composite,
                        self->Composite_0 == *parts,
                        copies@.len() == i,
                        forall|j: int| 0 <= j < i ==> (#[trigger] copies@[j])@ == parts@[j]@,
                    decreases parts@.len() - i,
                {
                    copies.push(parts[i].duplicate());
                    i += 1;
                }
                let copy = Value::Composite(copies);
                assert(copy@->Composite_0 =~= self@->Composite_0);
                copy
            },
            Value::Enum { variant, payload } => Value::Enum {
                variant: *variant,
                payload: Box::new(payload.duplicate()),
            },
            Value::Empty => Value::Empty,
        }
    }

    /// Whether this is a value of kind `kind`.
    pub fn has_kind(&self, kind: &Kind) -> (r: bool)
        ensures
            r == conforms(kind@, self@),
        decreases self,
    {
        proof {
            lemma_shape(*kind);
        }
        match self {
            Value::Bits(bits) => match kind {
                Kind::Bits(w) => bits.len() == *w,
                _ => false,
            },
            Value::Composite(parts) => {
                let count: usize = match kind {
                    Kind::Array { base, size } => *size,
                    Kind::Tuple { elements } => elements.len(),
                    Kind::Struct { fields } => fields.len(),
                    _ => {
                        return false;
                    },
                };
                if parts.len() != count {
                    return false;
                }
                let ghost ds = self@->Composite_0;
                let mut i: usize = 0;
                while i < parts.len()
                    invariant
                        i <= parts@.len(),
                        *self is Composite,
                        self->Composite_0 == *parts,
                        self@ == Datum::Composite(ds),
                        kind@.is_composite(),
                        kind@.members().len() == parts@.len(),
                        forall|j: int|
                            0 <= j < i ==> conforms(kind@.members()[j], #[trigger] ds[j]),
                    decreases parts@.len() - i,
                {
                    if !parts[i].has_kind(kind.member(i)) {
                        assert(!conforms(kind@.members()[i as int], ds[i as int]));
                        return false;
                    }
                    i += 1;
                }
                true
            },
            Value::Enum { variant, payload } => match kind {
                Kind::Enum { variants, discriminant_width, discriminant_alignment } => {
                    *variant < variants.len() && payload.has_kind(&variants[*variant].kind)
                },
                _ => false,
            },
            Value::Empty => match kind {
                Kind::Empty => true,
                _ => false,
            },
        }
    }

    /// Appends the encoding of this value, as one of kind `kind`, to `out`.
    pub fn emit(&self, kind: &Kind, out: &mut Vec<bool>)
        requires
            conforms(kind@, self@),
            kind@.width() <= usize::MAX,
        ensures
            final(out)@ == old(out)@ + encode(kind@, self@),
        decreases self,
    {
        let ghost before = out@;
        proof {
            lemma_shape(*kind);
        }
        match self {
            Value::Bits(bits) => {
                push_all(out, bits);
            },
            Value::Composite(parts) => {
                let ghost ds = self@->Composite_0;
                let ghost ps = pieces(kind@, ds);
                let mut i: usize = 0;
                assert(before + concat_to(ps, 0) =~= before);
                while i < parts.len()
                    invariant
                        i <= parts@.len(),
                        *self == Value::Composite(*parts),
                        self@ == Datum::Composite(ds),
                        ps == pieces(kind@, ds),
                        conforms(kind@, self@),
                        kind@.width() <= usize::MAX,
                        out@ == before + concat_to(ps, i as int),
                    decreases parts@.len() - i,
                {
                    proof {
                        lemma_composite_width(kind@, i as int);
                        assert(conforms(kind@.members()[i as int], ds[i as int]));
                    }
                    parts[i].emit(kind.member(i), out);
                    i += 1;
                    assert(out@ =~= before + concat_to(ps, i as int));
                }
            },
            Value::Enum { variant, payload } => {
                match kind {
                    Kind::Enum { variants, discriminant_width, discriminant_alignment } => {
                        let chosen = &variants[*variant];
                        proof {
                            lemma_encode_len(chosen.kind@, payload@);
                            lemma_max_to_bounds(
                                variant_widths(variant_shapes(variants@)),
                                *variant as int,
                                variants@.len() as int,
                            );
                        }
                        let span: usize = checked_payload_bits(variants).unwrap();
                        match discriminant_alignment {
                            DiscriminantAlignment::Lsb => {
                                push_bits(out, chosen.discriminant as u128, *discriminant_width);
                                let filled: usize = out.len();
                                payload.emit(&chosen.kind, out);
                                let used: usize = out.len() - filled;
                                push_zeros(out, span - used);
                                assert(out@ =~= before + encode(kind@, self@));
                            },
                            DiscriminantAlignment::Msb => {
                                let filled: usize = out.len();
                                payload.emit(&chosen.kind, out);
                                let used: usize = out.len() - filled;
                                push_zeros(out, span - used);
                                push_bits(out, chosen.discriminant as u128, *discriminant_width);
                                assert(out@ =~= before + encode(kind@, self@));
                            },
                        }
                    },
                    _ => {},
                }
            },
            Value::Empty => {
                assert(before + Seq::<bool>::empty() =~= before);
            },
        }
    }

    /// The flat encoding of this value as one of kind `kind`, bit 0 first. It
    /// is exactly as wide as the kind.
    pub fn bin(&self, kind: &Kind) -> (r: Vec<bool>)
        requires
            conforms(kind@, self@),
            kind@.width() <= usize::MAX,
        ensures
            r@ == encode(kind@, self@),
            r@.len() == kind@.width(),
    {
        let mut out: Vec<bool> = Vec::new();
        self.emit(kind, &mut out);
        proof {
            lemma_encode_len(kind@, self@);
            assert(Seq::<bool>::empty() + encode(kind@, self@) =~= encode(kind@, self@));
        }
        out
    }
}

} // verus!
