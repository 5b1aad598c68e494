use crate::bits::{concat_to, push_all};
use crate::digital::{conforms, Datum, Value};
use crate::kind::{lemma_shape, Kind};
use crate::shape::{FieldShape, Shape, VariantShape};
use vstd::prelude::*;

verus! {

/// One level of a hierarchical channel name.
#[derive(Debug, PartialEq, Eq)]
pub enum Segment {
    /// The name of a field or of a variant.
    Name(String),
    /// The position of an element of an array or tuple.
    Index(usize),
}

/// A trace channel to register: its hierarchical name and its width in bits.
/// The channel that carries an enum's variant name is symbolic and has width 0.
#[derive(Debug, PartialEq, Eq)]
pub struct Channel {
    pub name: Vec<Segment>,
    pub width: usize,
}

/// What one channel receives for one sample.
#[derive(Debug, PartialEq, Eq)]
pub enum Sample {
    /// The bits of a scalar, the least significant first.
    Bits(Vec<bool>),
    /// The name of the variant that an enum holds.
    Symbol(String),
    /// The marker for "no new value".
    Skip,
}

/// The mathematical content of a [`Segment`].
pub enum Label {
    Name(Seq<char>),
    Index(nat),
}

/// The mathematical content of a [`Channel`].
pub struct Slot {
    pub name: Seq<Label>,
    pub width: nat,
}

/// The mathematical content of a [`Sample`].
pub enum Mark {
    Bits(Seq<bool>),
    Symbol(Seq<char>),
    Skip,
}

impl View for Segment {
    type V = Label;

    open spec fn view(&self) -> Label {
        match self {
            Segment::Name(name) => Label::Name(name@),
            Segment::Index(position) => Label::Index(*position as nat),
        }
    }
}

/// The content of each segment of a name.
pub open spec fn labels(name: Seq<Segment>) -> Seq<Label> {
    Seq::new(name.len(), |i: int| name[i]@)
}

impl View for Channel {
    type V = Slot;

    open spec fn view(&self) -> Slot {
        Slot { name: labels(self.name@), width: self.width as nat }
    }
}

impl View for Sample {
    type V = Mark;

    open spec fn view(&self) -> Mark {
        match self {
            Sample::Bits(bits) => Mark::Bits(bits@),
            Sample::Symbol(name) => Mark::Symbol(name@),
            Sample::Skip => Mark::Skip,
        }
    }
}

/// The content of each channel of a list.
pub open spec fn slots(channels: Seq<Channel>) -> Seq<Slot> {
    Seq::new(channels.len(), |i: int| channels[i]@)
}

/// The content of each sample of a list.
pub open spec fn marks(samples: Seq<Sample>) -> Seq<Mark> {
    Seq::new(samples.len(), |i: int| samples[i]@)
}

/// The channels of each element of a tuple, element `i` under the name
/// `prefix` extended by `i`.
pub open spec fn element_channels(kinds: Seq<Shape>, prefix: Seq<Label>) -> Seq<Seq<Slot>>
    decreases kinds, 0nat,
{
    Seq::new(
        kinds.len(),
        |i: int|
            if 0 <= i < kinds.len() {
                channels(kinds[i], prefix.push(Label::Index(i as nat)))
            } else {
                Seq::empty()
            },
    )
}

/// The channels of each field of a struct, each under the name `prefix`
/// extended by the field's name.
pub open spec fn field_channels(fields: Seq<FieldShape>, prefix: Seq<Label>) -> Seq<Seq<Slot>>
    decreases fields, 0nat,
{
    Seq::new(
        fields.len(),
        |i: int|
            if 0 <= i < fields.len() {
                channels(fields[i].kind, prefix.push(Label::Name(fields[i].name)))
            } else {
                Seq::empty()
            },
    )
}

/// The channels of the payload of each variant of an enum, each under the
/// name `prefix` extended by the variant's name.
pub open spec fn variant_channels(variants: Seq<VariantShape>, prefix: Seq<Label>) -> Seq<Seq<Slot>>
    decreases variants, 0nat,
{
    Seq::new(
        variants.len(),
        |i: int|
            if 0 <= i < variants.len() {
                channels(variants[i].kind, prefix.push(Label::Name(variants[i].name)))
            } else {
                Seq::empty()
            },
    )
}

/// The channels of each element of an array of `size` elements of kind `base`,
/// element `i` under the name `prefix` extended by `i`.
pub open spec fn array_channels(base: Shape, size: nat, prefix: Seq<Label>) -> Seq<Seq<Slot>>
    decreases base, 1nat,
{
    Seq::new(size, |i: int| channels(base, prefix.push(Label::Index(i as nat))))
}

/// The channels that a value of kind `kind` is traced on, where `prefix` is
/// the name of the value itself: one channel per scalar that some path of
/// fields, variants and indices reaches, named by that path, in the order of
/// a depth-first visit. An enum has a symbolic channel of width 0 under its
/// own name for the name of the variant it holds, followed by the channels of
/// every variant's payload, whichever variant a value holds.
pub open spec fn channels(kind: Shape, prefix: Seq<Label>) -> Seq<Slot>
    decreases kind, 0nat,
{
    match kind {
        Shape::Bits(w) => seq![Slot { name: prefix, width: w }],
        Shape::Array { base, size } => concat_to(
            array_channels(*base, size, prefix),
            size as int,
        ),
        Shape::Tuple { elements } => concat_to(
            element_channels(elements, prefix),
            elements.len() as int,
        ),
        Shape::Struct { fields } => concat_to(field_channels(fields, prefix), fields.len() as int),
        Shape::Enum { variants, discriminant_width, discriminant_alignment } => seq![
            Slot { name: prefix, width: 0 },
        ] + concat_to(variant_channels(variants, prefix), variants.len() as int),
        Shape::Empty => Seq::empty(),
    }
}

/// The number of channels that a value of kind `kind` is traced on.
pub open spec fn slot_count(kind: Shape) -> nat {
    channels(kind, Seq::empty()).len()
}

/// One "no new value" marker for each channel of a value of kind `kind`.
pub open spec fn skips(kind: Shape) -> Seq<Mark> {
    Seq::new(slot_count(kind), |i: int| Mark::Skip)
}

/// What the channels of each part of a composite receive.
pub open spec fn part_samples(kind: Shape, parts: Seq<Datum>) -> Seq<Seq<Mark>>
    decreases parts,
{
    Seq::new(
        parts.len(),
        |i: int|
            if 0 <= i < parts.len() {
                samples(kind.members()[i], parts[i])
            } else {
                Seq::empty()
            },
    )
}

/// What the channels of each variant's payload receive from an enum that
/// holds the variant at position `variant` with what `held` says of its
/// payload: the payload's values for that variant, markers for the others.
pub open spec fn variant_samples(variants: Seq<VariantShape>, variant: int, held: Seq<Mark>) -> Seq<
    Seq<Mark>,
> {
    Seq::new(
        variants.len(),
        |i: int|
            if i == variant {
                held
            } else {
                skips(variants[i].kind)
            },
    )
}

/// What the channels of a value of kind `kind` receive when the value is `d`,
/// channel by channel in the order of [`channels`]: each scalar its bits, an
/// enum's symbolic channel the name of the variant held, and every channel
/// under a variant that is not held a marker.
pub open spec fn samples(kind: Shape, d: Datum) -> Seq<Mark>
    decreases d,
{
    match d {
        Datum::Bits(bits) => seq![Mark::Bits(bits)],
        Datum::Composite(parts) => concat_to(part_samples(kind, parts), parts.len() as int),
        Datum::Enum { variant, payload } => match kind {
            Shape::Enum { variants, discriminant_width, discriminant_alignment } => seq![
                Mark::Symbol(variants[variant].name),
            ] + concat_to(
                variant_samples(
                    variants,
                    variant,
                    samples(variants[variant].kind, *payload),
                ),
                variants.len() as int,
            ),
            _ => Seq::empty(),
        },
        Datum::Empty => Seq::empty(),
    }
}

/// A copy of a channel name.
pub fn copy_name(name: &Vec<Segment>) -> (r: Vec<Segment>)
    ensures
        r@ == name@,
{
    let mut out: Vec<Segment> = Vec::new();
    let mut i: usize = 0;
    while i < name.len()
        invariant
            i <= name@.len(),
            out@ == name@.take(i as int),
        decreases name@.len() - i,
    {
        let segment = match &name[i] {
            Segment::Name(text) => Segment::Name(text.clone()),
            Segment::Index(position) => Segment::Index(*position),
        };
        out.push(segment);
        i += 1;
        assert(out@ =~= name@.take(i as int));
    }
    assert(name@.take(name@.len() as int) =~= name@);
    out
}

/// Appends to `out` the channels of a value of kind `kind` whose own name is
/// `prefix`.
pub fn allocate_into(kind: &Kind, prefix: &mut Vec<Segment>, out: &mut Vec<Channel>)
    ensures
        final(prefix)@ == old(prefix)@,
        slots(final(out)@) == slots(old(out)@) + channels(kind@, labels(old(prefix)@)),
    decreases kind,
{
    let ghost before = slots(out@);
    let ghost held = prefix@;
    let ghost name = labels(prefix@);
    proof {
        lemma_shape(*kind);
    }
    match kind {
        Kind::Bits(w) => {
            out.push(Channel { name: copy_name(prefix), width: *w });
            assert(slots(out@) =~= before + channels(kind@, name));
        },
        Kind::Array { base, size } => {
            let ghost family = array_channels(base@, *size as nat, name);
            let mut i: usize = 0;
            assert(slots(out@) =~= before + concat_to(family, 0));
            while i < *size
                invariant
                    i <= *size,
                    *kind is Array,
                    kind->base == *base,
                    kind->size == *size,
                    prefix@ == held,
                    name == labels(held),
                    family == array_channels(base@, *size as nat, name),
                    slots(out@) == before + concat_to(family, i as int),
                decreases *size - i,
            {
                proof {
                    lemma_shape(*kind);
                }
                prefix.push(Segment::Index(i));
                assert(labels(prefix@) =~= name.push(prefix@.last()@));
                allocate_into(base, prefix, out);
                prefix.pop();
                assert(prefix@ =~= held);
                i += 1;
                assert(slots(out@) =~= before + concat_to(family, i as int));
            }
        },
        Kind::Tuple { elements } => {
            let ghost family = element_channels(kind@->elements, name);
            let mut i: usize = 0;
            assert(slots(out@) =~= before + concat_to(family, 0));
            while i < elements.len()
                invariant
                    i <= elements@.len(),
                    *kind is Tuple,
                    kind->elements == *elements,
                    prefix@ == held,
                    name == labels(held),
                    family == element_channels(kind@->elements, name),
                    slots(out@) == before + concat_to(family, i as int),
                decreases elements@.len() - i,
            {
                proof {
                    lemma_shape(*kind);
                }
                prefix.push(Segment::Index(i));
                assert(labels(prefix@) =~= name.push(prefix@.last()@));
                allocate_into(&elements[i], prefix, out);
                prefix.pop();
                assert(prefix@ =~= held);
                i += 1;
                assert(slots(out@) =~= before + concat_to(family, i as int));
            }
        },
        Kind::Struct { fields } => {
            let ghost family = field_channels(kind@->fields, name);
            let mut i: usize = 0;
            assert(slots(out@) =~= before + concat_to(family, 0));
            while i < fields.len()
                invariant
                    i <= fields@.len(),
                    *kind is Struct,
                    kind->fields == *fields,
                    prefix@ == held,
                    name == labels(held),
                    family == field_channels(kind@->fields, name),
                    slots(out@) == before + concat_to(family, i as int),
                decreases fields@.len() - i,
            {
                proof {
                    lemma_shape(*kind);
                }
                prefix.push(Segment::Name(fields[i].name.clone()));
                assert(labels(prefix@) =~= name.push(prefix@.last()@));
                allocate_into(&fields[i].kind, prefix, out);
                prefix.pop();
                assert(prefix@ =~= held);
                i += 1;
                assert(slots(out@) =~= before + concat_to(family, i as int));
            }
        },
        Kind::Enum { variants, discriminant_width, discriminant_alignment } => {
            let ghost family = variant_channels(kind@->variants, name);
            let ghost tag = seq![Slot { name, width: 0 }];
            out.push(Channel { name: copy_name(prefix), width: 0 });
            let mut i: usize = 0;
            assert(slots(out@) =~= before + tag + concat_to(family, 0));
            while i < variants.len()
                invariant
                    i <= variants@.len(),
                    *kind is Enum,
                    kind->variants == *variants,
                    prefix@ == held,
                    name == labels(held),
                    family == variant_channels(kind@->variants, name),
                    slots(out@) == before + tag + concat_to(family, i as int),
                decreases variants@.len() - i,
            {
                proof {
                    lemma_shape(*kind);
                }
                prefix.push(Segment::Name(variants[i].name.clone()));
                assert(labels(prefix@) =~= name.push(prefix@.last()@));
                allocate_into(&variants[i].kind, prefix, out);
                prefix.pop();
                assert(prefix@ =~= held);
                i += 1;
                assert(slots(out@) =~= before + tag + concat_to(family, i as int));
            }
            assert(slots(out@) =~= before + channels(kind@, name));
        },
        Kind::Empty => {
            assert(slots(out@) =~= before + channels(kind@, name));
        },
    }
}

/// The channels to register for a value of kind `kind`, in the order in which
/// every sample then fills them. The list depends on the kind alone.
pub fn allocate(kind: &Kind) -> (r: Vec<Channel>)
    ensures
        slots(r@) == channels(kind@, Seq::empty()),
        r@.len() == slot_count(kind@),
{
    let mut prefix: Vec<Segment> = Vec::new();
    let mut out: Vec<Channel> = Vec::new();
    allocate_into(kind, &mut prefix, &mut out);
    assert(labels(prefix@) =~= Seq::<Label>::empty());
    assert(slots(out@) =~= channels(kind@, Seq::empty()));
    out
}

/// Appends to `out` one marker for each channel of a value of kind `kind`.
pub fn skip_into(kind: &Kind, out: &mut Vec<Sample>)
    ensures
        marks(final(out)@) == marks(old(out)@) + skips(kind@),
{
    let ghost before = marks(out@);
    let count: usize = allocate(kind).len();
    let mut i: usize = 0;
    assert(marks(out@) =~= before + Seq::new(0, |j: int| Mark::Skip));
    while i < count
        invariant
            i <= count,
            marks(out@) == before + Seq::new(i as nat, |j: int| Mark::Skip),
        decreases count - i,
    {
        let ghost earlier = marks(out@);
        out.push(Sample::Skip);
        i += 1;
        assert(marks(out@) =~= earlier.push(Mark::Skip));
        assert(marks(out@) =~= before + Seq::new(i as nat, |j: int| Mark::Skip));
    }
}

/// The markers that keep every channel of a value of kind `kind` in step when
/// the value is not recorded: one for each channel.
pub fn skip(kind: &Kind) -> (r: Vec<Sample>)
    ensures
        marks(r@) == skips(kind@),
{
    let mut out: Vec<Sample> = Vec::new();
    skip_into(kind, &mut out);
    assert(marks(out@) =~= skips(kind@));
    out
}

/// Appends to `out` what the channels of `value`, of kind `kind`, receive.
pub fn record_into(kind: &Kind, value: &Value, out: &mut Vec<Sample>)
    requires
        conforms(kind@, value@),
    ensures
        marks(final(out)@) == marks(old(out)@) + samples(kind@, value@),
    decreases value,
{
    let ghost before = marks(out@);
    proof {
        lemma_shape(*kind);
    }
    match value {
        Value::Bits(bits) => {
            let mut copy: Vec<bool> = Vec::new();
            push_all(&mut copy, bits);
            assert(copy@ =~= bits@);
            out.push(Sample::Bits(copy));
            assert(marks(out@) =~= before + samples(kind@, value@));
        },
        Value::Composite(parts) => {
            let ghost ds = value@->Composite_0;
            let ghost family = part_samples(kind@, ds);
            let mut i: usize = 0;
            assert(marks(out@) =~= before + concat_to(family, 0));
            while i < parts.len()
                invariant
                    i <= parts@.len(),
                    *value == Value::Composite(*parts),
                    value@ == Datum::Composite(ds),
                    family == part_samples(kind@, ds),
                    conforms(kind@, value@),
                    marks(out@) == before + concat_to(family, i as int),
                decreases parts@.len() - i,
            {
                assert(conforms(kind@.members()[i as int], ds[i as int]));
                record_into(kind.member(i), &parts[i], out);
                i += 1;
                assert(marks(out@) =~= before + concat_to(family, i as int));
            }
        },
        Value::Enum { variant, payload } => {
            match kind {
                Kind::Enum { variants, discriminant_width, discriminant_alignment } => {
                    let ghost held = samples(variants@[*variant as int].kind@, payload@);
                    let ghost family = variant_samples(kind@->variants, *variant as int, held);
                    let ghost tag = seq![Mark::Symbol(variants@[*variant as int].name@)];
                    out.push(Sample::Symbol(variants[*variant].name.clone()));
                    let mut i: usize = 0;
                    assert(marks(out@) =~= before + tag + concat_to(family, 0));
                    while i < variants.len()
                        invariant
                            i <= variants@.len(),
                            *variant < variants@.len(),
                            *value is Enum,
                            value->payload == *payload,
                            *kind is Enum,
                            kind->variants == *variants,
                            conforms(variants@[*variant as int].kind@, payload@),
                            held == samples(variants@[*variant as int].kind@, payload@),
                            family == variant_samples(kind@->variants, *variant as int, held),
                            marks(out@) == before + tag + concat_to(family, i as int),
                        decreases variants@.len() - i,
                    {
                        proof {
                            lemma_shape(*kind);
                        }
                        if i == *variant {
                            record_into(&variants[i].kind, payload, out);
                        } else {
                            skip_into(&variants[i].kind, out);
                        }
                        i += 1;
                        assert(marks(out@) =~= before + tag + concat_to(family, i as int));
                    }
                    assert(marks(out@) =~= before + samples(kind@, value@));
                },
                _ => {},
            }
        },
        Value::Empty => {
            assert(marks(out@) =~= before + samples(kind@, value@));
        },
    }
}

/// What the channels of `value`, of kind `kind`, receive for one sample, in
/// the order in which [`allocate`] lists the channels.
pub fn record(kind: &Kind, value: &Value) -> (r: Vec<Sample>)
    requires
        conforms(kind@, value@),
    ensures
        marks(r@) == samples(kind@, value@),
{
    let mut out: Vec<Sample> = Vec::new();
    record_into(kind, value, &mut out);
    assert(marks(out@) =~= samples(kind@, value@));
    out
}

/// Whether `mark` is something that the channel `slot` can receive: a scalar
/// of the channel's width, a variant name on a symbolic channel, or a marker.
pub open spec fn fits(mark: Mark, slot: Slot) -> bool {
    match mark {
        Mark::Bits(bits) => bits.len() == slot.width,
        Mark::Symbol(name) => slot.width == 0,
        Mark::Skip => true,
    }
}

/// Whether `marks` gives each channel of `slots` exactly one thing that it can
/// receive, in order.
pub open spec fn fills(marks: Seq<Mark>, slots: Seq<Slot>) -> bool {
    &&& marks.len() == slots.len()
    &&& forall|j: int| 0 <= j < marks.len() ==> fits(#[trigger] marks[j], slots[j])
}

/// Two families whose members are pairwise as long give concatenations that
/// are as long.
pub proof fn lemma_concat_lens<A, B>(f: Seq<Seq<A>>, g: Seq<Seq<B>>, n: int)
    requires
        0 <= n <= f.len(),
        n <= g.len(),
        forall|i: int| 0 <= i < n ==> (#[trigger] f[i]).len() == g[i].len(),
    ensures
        concat_to(f, n).len() == concat_to(g, n).len(),
    decreases n,
{
    if n > 0 {
        lemma_concat_lens(f, g, n - 1);
        assert(f[n - 1].len() == g[n - 1].len());
    }
}

/// Marks that fill their channels family by family fill them when the
/// families are laid one after the other.
pub proof fn lemma_concat_fills(f: Seq<Seq<Mark>>, g: Seq<Seq<Slot>>, n: int)
    requires
        0 <= n <= f.len(),
        n <= g.len(),
        forall|i: int| 0 <= i < n ==> fills(#[trigger] f[i], g[i]),
    ensures
        fills(concat_to(f, n), concat_to(g, n)),
    decreases n,
{
    if n > 0 {
        lemma_concat_fills(f, g, n - 1);
        assert(fills(f[n - 1], g[n - 1]));
        let a = concat_to(f, n - 1);
        let b = concat_to(g, n - 1);
        assert forall|j: int| 0 <= j < concat_to(f, n).len() implies fits(
            #[trigger] concat_to(f, n)[j],
            concat_to(g, n)[j],
        ) by {
            if j < a.len() {
                assert(fits(a[j], b[j]));
            } else {
                assert(fits(f[n - 1][j - a.len()], g[n - 1][j - a.len()]));
            }
        }
    }
}

/// How many channels a value is traced on does not depend on its own name.
pub proof fn lemma_channel_count(kind: Shape, p: Seq<Label>, q: Seq<Label>)
    ensures
        channels(kind, p).len() == channels(kind, q).len(),
    decreases kind,
{
    match kind {
        Shape::Array { base, size } => {
            let f = array_channels(*base, size, p);
            let g = array_channels(*base, size, q);
            assert forall|i: int| 0 <= i < size implies (#[trigger] f[i]).len() == g[i].len() by {
                lemma_channel_count(
                    *base,
                    p.push(Label::Index(i as nat)),
                    q.push(Label::Index(i as nat)),
                );
            }
            lemma_concat_lens(f, g, size as int);
        },
        Shape::Tuple { elements } => {
            let f = element_channels(elements, p);
            let g = element_channels(elements, q);
            assert forall|i: int| 0 <= i < elements.len() implies (#[trigger] f[i]).len()
                == g[i].len() by {
                lemma_channel_count(
                    elements[i],
                    p.push(Label::Index(i as nat)),
                    q.push(Label::Index(i as nat)),
                );
            }
            lemma_concat_lens(f, g, elements.len() as int);
        },
        Shape::Struct { fields } => {
            let f = field_channels(fields, p);
            let g = field_channels(fields, q);
            assert forall|i: int| 0 <= i < fields.len() implies (#[trigger] f[i]).len()
                == g[i].len() by {
                lemma_channel_count(
                    fields[i].kind,
                    p.push(Label::Name(fields[i].name)),
                    q.push(Label::Name(fields[i].name)),
                );
            }
            lemma_concat_lens(f, g, fields.len() as int);
        },
        Shape::Enum { variants, discriminant_width, discriminant_alignment } => {
            let f = variant_channels(variants, p);
            let g = variant_channels(variants, q);
            assert forall|i: int| 0 <= i < variants.len() implies (#[trigger] f[i]).len()
                == g[i].len() by {
                lemma_channel_count(
                    variants[i].kind,
                    p.push(Label::Name(variants[i].name)),
                    q.push(Label::Name(variants[i].name)),
                );
            }
            lemma_concat_lens(f, g, variants.len() as int);
        },
        _ => {},
    }
}

/// The markers of a value that is not recorded fill its channels: every
/// channel receives exactly one.
pub proof fn lemma_skips_fill_channels(kind: Shape, prefix: Seq<Label>)
    ensures
        fills(skips(kind), channels(kind, prefix)),
{
    lemma_channel_count(kind, Seq::empty(), prefix);
}

/// The samples of a recorded value fill the channels of its kind: every
/// channel receives exactly one value or marker, and what it receives is of
/// its width. So the channels of a kind serve every value of that kind,
/// whichever variants the value holds.
pub proof fn lemma_samples_fill_channels(kind: Shape, d: Datum, prefix: Seq<Label>)
    requires
        conforms(kind, d),
    ensures
        fills(samples(kind, d), channels(kind, prefix)),
    decreases d,
{
    match d {
        Datum::Bits(bits) => {},
        Datum::Composite(parts) => {
            let f = part_samples(kind, parts);
            let n = parts.len() as int;
            match kind {
                Shape::Array { base, size } => {
                    let g = array_channels(*base, size, prefix);
                    assert forall|i: int| 0 <= i < n implies fills(#[trigger] f[i], g[i]) by {
                        assert(conforms(kind.members()[i], parts[i]));
                        lemma_samples_fill_channels(
                            *base,
                            parts[i],
                            prefix.push(Label::Index(i as nat)),
                        );
                    }
                    lemma_concat_fills(f, g, n);
                },
                Shape::Tuple { elements } => {
                    let g = element_channels(elements, prefix);
                    assert forall|i: int| 0 <= i < n implies fills(#[trigger] f[i], g[i]) by {
                        assert(conforms(kind.members()[i], parts[i]));
                        lemma_samples_fill_channels(
                            elements[i],
                            parts[i],
                            prefix.push(Label::Index(i as nat)),
                        );
                    }
                    lemma_concat_fills(f, g, n);
                },
                Shape::Struct { fields } => {
                    let g = field_channels(fields, prefix);
                    assert forall|i: int| 0 <= i < n implies fills(#[trigger] f[i], g[i]) by {
                        assert(conforms(kind.members()[i], parts[i]));
                        lemma_samples_fill_channels(
                            fields[i].kind,
                            parts[i],
                            prefix.push(Label::Name(fields[i].name)),
                        );
                    }
                    lemma_concat_fills(f, g, n);
                },
                _ => {},
            }
        },
        Datum::Enum { variant, payload } => {
            match kind {
                Shape::Enum { variants, discriminant_width, discriminant_alignment } => {
                    let held = samples(variants[variant].kind, *payload);
                    let f = variant_samples(variants, variant, held);
                    let g = variant_channels(variants, prefix);
                    let n = variants.len() as int;
                    assert forall|i: int| 0 <= i < n implies fills(#[trigger] f[i], g[i]) by {
                        let under = prefix.push(Label::Name(variants[i].name));
                        if i == variant {
                            lemma_samples_fill_channels(variants[i].kind, *payload, under);
                        } else {
                            lemma_skips_fill_channels(variants[i].kind, under);
                        }
                    }
                    lemma_concat_fills(f, g, n);
                    let tag = seq![Mark::Symbol(variants[variant].name)];
                    let head = seq![Slot { name: prefix, width: 0 }];
                    assert forall|j: int| 0 <= j < samples(kind, d).len() implies fits(
                        #[trigger] samples(kind, d)[j],
                        channels(kind, prefix)[j],
                    ) by {
                        if j >= 1 {
                            assert(fits(concat_to(f, n)[j - 1], concat_to(g, n)[j - 1]));
                        }
                    }
                },
                _ => {},
            }
        },
        Datum::Empty => {},
    }
}

} // verus!
