use crate::bits::{le_bits, lemma_concat_to, lemma_le_bits_differ, lemma_le_bits_len, lengths};
use crate::digital::{conforms, encode, lemma_encode_len, pieces, Datum, Value};
use crate::kind::{lemma_shape, Kind};
use crate::shape::{
    discriminants, field_names, kind_widths, lemma_composite_width, lemma_max_to_bounds,
    variant_names, variant_widths, Shape,
};
use crate::path::{
    advance, find_field, find_variant, is_first, position, resolve, step, walk, Cursor, Path,
};
use vstd::prelude::*;

verus! {

/// The part of `d`, a value of kind `kind`, that the step `p` selects, where
/// the value has such a part: the whole, an element, a field, the
/// discriminant as a scalar, or the payload of the variant that the value
/// holds. The payload of another variant is no part of the value.
pub open spec fn select(kind: Shape, d: Datum, p: Path) -> Option<Datum> {
    match p {
        Path::All => Some(d),
        Path::Index(i) => match d {
            Datum::Composite(parts) => if (kind is Array || kind is Tuple) && i < parts.len() {
                Some(parts[i as int])
            } else {
                None
            },
            _ => None,
        },
        Path::Field(name) => match (kind, d) {
            (Shape::Struct { fields }, Datum::Composite(parts)) => match position(
                field_names(fields),
                name@,
            ) {
                Some(i) => Some(parts[i]),
                None => None,
            },
            _ => None,
        },
        Path::EnumDiscriminant => match (kind, d) {
            (
                Shape::Enum { variants, discriminant_width, discriminant_alignment },
                Datum::Enum { variant, payload },
            ) => Some(
                Datum::Bits(
                    le_bits(variants[variant].discriminant, discriminant_width),
                ),
            ),
            _ => None,
        },
        Path::EnumPayload(name) => match (kind, d) {
            (
                Shape::Enum { variants, discriminant_width, discriminant_alignment },
                Datum::Enum { variant, payload },
            ) => if position(variant_names(variants), name@) == Some(variant) {
                Some(*payload)
            } else {
                None
            },
            _ => None,
        },
    }
}

/// The part of `d`, a value of kind `kind`, that is reached by taking the
/// steps of `path` one after the other, where the value has such a part.
pub open spec fn navigate(kind: Shape, d: Datum, path: Seq<Path>) -> Option<Datum>
    decreases path.len(),
{
    if path.len() == 0 {
        Some(d)
    } else {
        match (step(Cursor { start: 0, kind }, path[0]), select(kind, d, path[0])) {
            (Ok(next), Some(part)) => navigate(next.kind, part, path.drop_first()),
            _ => None,
        }
    }
}

/// Part `i` of a composite value is encoded at the offset of part `i` of its
/// kind.
pub proof fn lemma_part(kind: Shape, parts: Seq<Datum>, i: int)
    requires
        conforms(kind, Datum::Composite(parts)),
        0 <= i < parts.len(),
    ensures
        kind.offset(i) + kind.members()[i].width() <= kind.width(),
        conforms(kind.members()[i], parts[i]),
        encode(kind, Datum::Composite(parts)).subrange(
            kind.offset(i) as int,
            (kind.offset(i) + kind.members()[i].width()) as int,
        ) == encode(kind.members()[i], parts[i]),
{
    let ps = pieces(kind, parts);
    assert forall|j: int| 0 <= j < parts.len() implies #[trigger] ps[j].len()
        == kind.members()[j].width() by {
        assert(conforms(kind.members()[j], parts[j]));
        lemma_encode_len(kind.members()[j], parts[j]);
    }
    assert(lengths(ps) =~= kind_widths(kind.members()));
    lemma_concat_to(ps, i, parts.len() as int);
    lemma_composite_width(kind, i);
    assert(conforms(kind.members()[i], parts[i]));
}

/// One step on the kind and the same step on a value agree: the bits that the
/// step addresses are the encoding of the part that it selects.
pub proof fn lemma_step_agrees(start: nat, kind: Shape, d: Datum, p: Path)
    requires
        conforms(kind, d),
        step(Cursor { start, kind }, p) is Ok,
        select(kind, d, p) is Some,
    ensures
        ({
            let next = step(Cursor { start, kind }, p)->Ok_0;
            let part = select(kind, d, p)->Some_0;
            &&& start <= next.start
            &&& next.start + next.kind.width() <= start + kind.width()
            &&& conforms(next.kind, part)
            &&& encode(kind, d).subrange(
                next.start - start,
                next.start - start + next.kind.width(),
            ) == encode(next.kind, part)
        }),
{
    let next = step(Cursor { start, kind }, p)->Ok_0;
    let part = select(kind, d, p)->Some_0;
    let from = next.start - start;
    let whole = encode(kind, d);
    lemma_encode_len(kind, d);
    match p {
        Path::All => {
            assert(whole.subrange(0, kind.width() as int) =~= whole);
        },
        Path::Index(i) => {
            let parts = d->Composite_0;
            lemma_part(kind, parts, i as int);
            lemma_composite_width(kind, i as int);
        },
        Path::Field(name) => {
            let parts = d->Composite_0;
            let fields = kind->fields;
            let i = position(field_names(fields), name@)->Some_0;
            assert(is_first(field_names(fields), name@, i));
            lemma_part(kind, parts, i);
            lemma_composite_width(kind, i);
        },
        Path::EnumDiscriminant => {
            let variants = kind->variants;
            let variant = d->variant;
            let width = kind->discriminant_width;
            lemma_le_bits_len(variants[variant].discriminant, width);
            lemma_encode_len(variants[variant].kind, *d->payload);
            lemma_max_to_bounds(variant_widths(variants), variant, variants.len() as int);
            assert(whole.subrange(from, from + width) =~= encode(next.kind, part));
        },
        Path::EnumPayload(name) => {
            let variants = kind->variants;
            let variant = d->variant;
            let width = kind->discriminant_width;
            lemma_le_bits_len(variants[variant].discriminant, width);
            lemma_encode_len(variants[variant].kind, *d->payload);
            lemma_max_to_bounds(variant_widths(variants), variant, variants.len() as int);
            assert(whole.subrange(from, from + next.kind.width()) =~= encode(next.kind, part));
        },
    }
}

/// A walk on the kind and the same walk on a value agree, wherever the walk
/// starts.
pub proof fn lemma_walk_agrees(start: nat, kind: Shape, d: Datum, path: Seq<Path>, at: nat)
    requires
        conforms(kind, d),
        navigate(kind, d, path) is Some,
    ensures
        ({
            let end = walk(Cursor { start, kind }, path, at)->Ok_0;
            let part = navigate(kind, d, path)->Some_0;
            &&& walk(Cursor { start, kind }, path, at) is Ok
            &&& start <= end.start
            &&& end.start + end.kind.width() <= start + kind.width()
            &&& conforms(end.kind, part)
            &&& encode(kind, d).subrange(
                end.start - start,
                end.start - start + end.kind.width(),
            ) == encode(end.kind, part)
        }),
    decreases path.len(),
{
    lemma_encode_len(kind, d);
    if path.len() == 0 {
        assert(encode(kind, d).subrange(0, kind.width() as int) =~= encode(kind, d));
    } else {
        let next = step(Cursor { start, kind }, path[0])->Ok_0;
        let part = select(kind, d, path[0])->Some_0;
        assert(step(Cursor { start: 0, kind }, path[0]) is Ok);
        assert(step(Cursor { start, kind }, path[0]) is Ok);
        assert(step(Cursor { start: 0, kind }, path[0])->Ok_0.kind == next.kind);
        lemma_step_agrees(start, kind, d, path[0]);
        lemma_walk_agrees(next.start, next.kind, part, path.drop_first(), at + 1);
        let end = walk(Cursor { start, kind }, path, at)->Ok_0;
        let inner = encode(next.kind, part);
        let low = end.start - next.start;
        assert(encode(kind, d).subrange(next.start - start, next.start - start + next.kind.width())
            .subrange(low, low + end.kind.width()) =~= encode(kind, d).subrange(
            end.start - start,
            end.start - start + end.kind.width(),
        ));
    }
}

/// Slicing agrees with navigating. Let `d` be a value of kind `kind`, and let
/// `path` address a part that `d` has. Then `path` resolves on the kind, and
/// the bits of the encoding of `d` in the resolved range are the encoding of
/// that part, as a value of the resolved kind.
pub proof fn lemma_round_trip(kind: Shape, d: Datum, path: Seq<Path>)
    requires
        conforms(kind, d),
        navigate(kind, d, path) is Some,
    ensures
        ({
            let end = resolve(kind, path)->Ok_0;
            let part = navigate(kind, d, path)->Some_0;
            &&& resolve(kind, path) is Ok
            &&& end.start + end.kind.width() <= encode(kind, d).len()
            &&& conforms(end.kind, part)
            &&& encode(kind, d).subrange(
                end.start as int,
                (end.start + end.kind.width()) as int,
            ) == encode(end.kind, part)
        }),
{
    lemma_encode_len(kind, d);
    lemma_walk_agrees(0, kind, d, path, 0);
}

/// The discriminant tells the variants apart. In the encodings of two values
/// of a well-formed enum that hold different variants, the bits that
/// `EnumDiscriminant` addresses differ.
pub proof fn lemma_discriminant_identifies_variant(kind: Shape, d1: Datum, d2: Datum)
    requires
        kind is Enum,
        kind.well_formed(),
        conforms(kind, d1),
        conforms(kind, d2),
        d1->variant != d2->variant,
    ensures
        ({
            let tag = resolve(kind, seq![Path::EnumDiscriminant])->Ok_0;
            &&& resolve(kind, seq![Path::EnumDiscriminant]) is Ok
            &&& encode(kind, d1).subrange(tag.start as int, (tag.start + tag.kind.width()) as int)
                != encode(kind, d2).subrange(
                tag.start as int,
                (tag.start + tag.kind.width()) as int,
            )
        }),
{
    let path = seq![Path::EnumDiscriminant];
    let variants = kind->variants;
    let width = kind->discriminant_width;
    let first = variants[d1->variant];
    let second = variants[d2->variant];
    reveal_with_fuel(walk, 2);
    reveal_with_fuel(navigate, 2);
    assert(path.drop_first().len() == 0);
    lemma_round_trip(kind, d1, path);
    lemma_round_trip(kind, d2, path);
    assert(discriminants(variants)[d1->variant] != discriminants(variants)[d2->variant]);
    lemma_le_bits_differ(first.discriminant, second.discriminant, width);
}

impl Value {
    /// The part of this value, of kind `kind`, that the step `p` selects, or
    /// `None` where the value has no such part.
    pub fn select(&self, kind: &Kind, p: &Path) -> (r: Option<Value>)
        requires
            conforms(kind@, self@),
        ensures
            match select(kind@, self@, *p) {
                Some(part) => r matches Some(found) && found@ == part,
                None => r is None,
            },
    {
        proof {
            lemma_shape(*kind);
        }
        match p {
            Path::All => Some(self.duplicate()),
            Path::Index(i) => match (kind, self) {
                (Kind::Array { base, size }, Value::Composite(parts)) => {
                    if *i < parts.len() {
                        Some(parts[*i].duplicate())
                    } else {
                        None
                    }
                },
                (Kind::Tuple { elements }, Value::Composite(parts)) => {
                    if *i < parts.len() {
                        Some(parts[*i].duplicate())
                    } else {
                        None
                    }
                },
                _ => None,
            },
            Path::Field(name) => match (kind, self) {
                (Kind::Struct { fields }, Value::Composite(parts)) => {
                    match find_field(fields, *name) {
                        Some(j) => Some(parts[j].duplicate()),
                        None => None,
                    }
                },
                _ => None,
            },
            Path::EnumDiscriminant => match (kind, self) {
                (
                    Kind::Enum { variants, discriminant_width, discriminant_alignment },
                    Value::Enum { variant, payload },
                ) => Some(
                    Value::from_bits(variants[*variant].discriminant as u128, *discriminant_width),
                ),
                _ => None,
            },
            Path::EnumPayload(name) => match (kind, self) {
                (
                    Kind::Enum { variants, discriminant_width, discriminant_alignment },
                    Value::Enum { variant, payload },
                ) => {
                    match find_variant(variants, *name) {
                        Some(j) => {
                            if j == *variant {
                                Some(payload.duplicate())
                            } else {
                                None
                            }
                        },
                        None => None,
                    }
                },
                _ => None,
            },
        }
    }

    /// The part of this value, of kind `kind`, that is reached by taking the
    /// steps of `path` one after the other, or `None` where a step does not
    /// apply to the kind or the value has no such part.
    pub fn navigate(&self, kind: Kind, path: &[Path]) -> (r: Option<Value>)
        requires
            conforms(kind@, self@),
            kind@.width() <= usize::MAX,
        ensures
            match navigate(kind@, self@, path@) {
                Some(part) => r matches Some(found) && found@ == part,
                None => r is None,
            },
    {
        let mut current = kind;
        let mut part = self.duplicate();
        let mut i: usize = 0;
        assert(path@.skip(0) =~= path@);
        while i < path.len()
            invariant
                i <= path@.len(),
                conforms(current@, part@),
                current@.width() <= usize::MAX,
                navigate(kind@, self@, path@) == navigate(current@, part@, path@.skip(i as int)),
            decreases path@.len() - i,
        {
            let ghost rest = path@.skip(i as int);
            assert(rest.len() > 0 && rest[0] == path@[i as int]);
            assert(rest.drop_first() =~= path@.skip(i + 1));
            let selected = part.select(&current, &path[i]);
            let ghost before = current@;
            match (advance(0, current, &path[i]), selected) {
                (Ok((start, next)), Some(found)) => {
                    proof {
                        lemma_step_agrees(0, before, part@, path@[i as int]);
                    }
                    current = next;
                    part = found;
                },
                _ => {
                    return None;
                },
            }
            i += 1;
        }
        Some(part)
    }
}

} // verus!
