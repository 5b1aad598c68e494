use crate::kind::{
    checked_field_offset, checked_payload_bits, checked_tuple_offset, field_shapes, kind_shapes,
    lemma_shape, variant_shapes, DiscriminantAlignment, Field, Kind, Variant,
};
use crate::shape::{
    field_names, field_widths, kind_widths, lemma_max_to_bounds, lemma_sum_to_grows, sum_to,
    variant_names, variant_widths, Shape,
};
use std::ops::Range;
use vstd::prelude::*;

verus! {

/// One step into a composite value.
#[derive(Debug, Clone, PartialEq)]
pub enum Path {
    /// Selects the whole of the current value.
    All,
    /// Selects an element of an array or of a tuple.
    Index(usize),
    /// Selects a field of a struct by its name.
    Field(&'static str),
    /// Selects the tag bits of an enum.
    EnumDiscriminant,
    /// Selects the payload bits of the named variant of an enum, whichever
    /// variant a value happens to hold.
    EnumPayload(&'static str),
}

/// Why a step does not apply to a kind.
#[derive(Debug, Clone, Copy, PartialEq, Eq, Structural)]
pub enum ErrorKind {
    /// An index at or beyond the size of the array or tuple.
    OutOfBounds,
    /// An index into something that is neither an array nor a tuple.
    NotIndexable,
    /// A field name that the struct does not have.
    FieldNotFound,
    /// A field name applied to something that is not a struct.
    NotFieldAddressable,
    /// An enum selector applied to something that is not an enum.
    NotAnEnum,
    /// A variant name that the enum does not have.
    VariantNotFound,
}

impl ErrorKind {
    /// The text that [`ErrorKind::message`] gives.
    pub open spec fn text(self) -> Seq<char> {
        match self {
            ErrorKind::OutOfBounds => "index out of bounds"@,
            ErrorKind::NotIndexable => "indexing non-indexable type"@,
            ErrorKind::FieldNotFound => "field not found"@,
            ErrorKind::NotFieldAddressable => "field indexing not allowed on this type"@,
            ErrorKind::NotAnEnum => "enum selector not valid for non-enum types"@,
            ErrorKind::VariantNotFound => "enum payload not found"@,
        }
    }

    /// A short description of the reason, for a diagnostic.
    pub fn message(&self) -> (r: &'static str)
        ensures
            r@ == self.text(),
    {
        match self {
            ErrorKind::OutOfBounds => "index out of bounds",
            ErrorKind::NotIndexable => "indexing non-indexable type",
            ErrorKind::FieldNotFound => "field not found",
            ErrorKind::NotFieldAddressable => "field indexing not allowed on this type",
            ErrorKind::NotAnEnum => "enum selector not valid for non-enum types",
            ErrorKind::VariantNotFound => "enum payload not found",
        }
    }
}

/// A failed resolution: the reason, the position in the path of the step that
/// failed, and the kind that the step was applied to.
#[derive(Debug, PartialEq, Eq)]
pub struct PathError {
    pub kind: ErrorKind,
    pub step: usize,
    pub at: Kind,
}

/// The resolver's state: the addressed sub-value has kind `kind` and occupies
/// the bits from `start` up to, but not including, `start + kind.width()`.
pub struct Cursor {
    pub start: nat,
    pub kind: Shape,
}

/// What a failed resolution reports.
pub struct Failure {
    pub kind: ErrorKind,
    pub step: nat,
    pub at: Shape,
}

/// `i` is the first position at which `name` occurs in `names`.
pub open spec fn is_first(names: Seq<Seq<char>>, name: Seq<char>, i: int) -> bool {
    &&& 0 <= i < names.len()
    &&& names[i] == name
    &&& forall|j: int| 0 <= j < i ==> names[j] != name
}

/// The first position at which `name` occurs in `names`, if it occurs at all.
pub open spec fn position(names: Seq<Seq<char>>, name: Seq<char>) -> Option<int> {
    if exists|i: int| is_first(names, name, i) {
        Some(choose|i: int| is_first(names, name, i))
    } else {
        None
    }
}

/// A name has at most one first position.
pub proof fn lemma_position_found(names: Seq<Seq<char>>, name: Seq<char>, i: int)
    requires
        is_first(names, name, i),
    ensures
        position(names, name) == Some(i),
{
    let c: int = choose|c: int| is_first(names, name, c);
    assert(is_first(names, name, c));
    if c < i {
        assert(names[c] == name);
    } else if i < c {
        assert(names[i] == name);
    }
}

/// Where no name occurs twice, a name is found wherever it occurs.
pub proof fn lemma_unique_name_is_found(names: Seq<Seq<char>>, name: Seq<char>, i: int)
    requires
        names.no_duplicates(),
        0 <= i < names.len(),
        names[i] == name,
    ensures
        position(names, name) == Some(i),
{
    lemma_position_found(names, name, i);
}

/// A name that occurs nowhere has no position.
pub proof fn lemma_position_absent(names: Seq<Seq<char>>, name: Seq<char>)
    requires
        forall|j: int| 0 <= j < names.len() ==> names[j] != name,
    ensures
        position(names, name) is None,
{
}

/// The effect of one step on the resolver's state.
pub open spec fn step(c: Cursor, p: Path) -> Result<Cursor, ErrorKind> {
    match p {
        Path::All => Ok(c),
        Path::Index(i) => match c.kind {
            Shape::Array { base, size } => {
                if i as nat >= size {
                    Err(ErrorKind::OutOfBounds)
                } else {
                    Ok(Cursor { start: c.start + i as nat * base.width(), kind: *base })
                }
            },
            Shape::Tuple { elements } => {
                if i as nat >= elements.len() {
                    Err(ErrorKind::OutOfBounds)
                } else {
                    Ok(
                        Cursor {
                            start: c.start + sum_to(kind_widths(elements), i as int),
                            kind: elements[i as int],
                        },
                    )
                }
            },
            _ => Err(ErrorKind::NotIndexable),
        },
        Path::Field(name) => match c.kind {
            Shape::Struct { fields } => match position(field_names(fields), name@) {
                None => Err(ErrorKind::FieldNotFound),
                Some(i) => Ok(
                    Cursor {
                        start: c.start + sum_to(field_widths(fields), i),
                        kind: fields[i].kind,
                    },
                ),
            },
            _ => Err(ErrorKind::NotFieldAddressable),
        },
        Path::EnumDiscriminant => match c.kind {
            Shape::Enum { variants, discriminant_width, discriminant_alignment } => Ok(
                Cursor {
                    start: match discriminant_alignment {
                        DiscriminantAlignment::Lsb => c.start,
                        DiscriminantAlignment::Msb => c.start + c.kind.payload_width(),
                    },
                    kind: Shape::Bits(discriminant_width),
                },
            ),
            _ => Err(ErrorKind::NotAnEnum),
        },
        Path::EnumPayload(name) => match c.kind {
            Shape::Enum { variants, discriminant_width, discriminant_alignment } => match position(
                variant_names(variants),
                name@,
            ) {
                None => Err(ErrorKind::VariantNotFound),
                Some(i) => Ok(
                    Cursor {
                        start: match discriminant_alignment {
                            DiscriminantAlignment::Lsb => c.start + discriminant_width,
                            DiscriminantAlignment::Msb => c.start,
                        },
                        kind: variants[i].kind,
                    },
                ),
            },
            _ => Err(ErrorKind::NotAnEnum),
        },
    }
}

/// The steps of `path` applied from left to right, starting from `c`; `at` is
/// the position of the first of them in the path they were taken from. The
/// first step that does not apply ends the walk.
pub open spec fn walk(c: Cursor, path: Seq<Path>, at: nat) -> Result<Cursor, Failure>
    decreases path.len(),
{
    if path.len() == 0 {
        Ok(c)
    } else {
        match step(c, path[0]) {
            Err(e) => Err(Failure { kind: e, step: at, at: c.kind }),
            Ok(next) => walk(next, path.drop_first(), at + 1),
        }
    }
}

/// Where `path` leads inside a value of kind `kind`.
pub open spec fn resolve(kind: Shape, path: Seq<Path>) -> Result<Cursor, Failure> {
    walk(Cursor { start: 0, kind }, path, 0)
}

/// The position of the first field called `name`.
pub fn find_field(fields: &Vec<Field>, name: &str) -> (r: Option<usize>)
    ensures
        match r {
            Some(j) => j < fields@.len() && position(
                field_names(field_shapes(fields@)),
                name@,
            ) == Some(j as int),
            None => position(field_names(field_shapes(fields@)), name@) is None,
        },
{
    let wanted = name.to_owned();
    let ghost names = field_names(field_shapes(fields@));
    let mut j: usize = 0;
    while j < fields.len()
        invariant
            j <= fields@.len(),
            names == field_names(field_shapes(fields@)),
            wanted@ == name@,
            forall|k: int| 0 <= k < j ==> names[k] != name@,
        decreases fields@.len() - j,
    {
        if fields[j].name == wanted {
            proof {
                lemma_position_found(names, name@, j as int);
            }
            return Some(j);
        }
        j += 1;
    }
    proof {
        lemma_position_absent(names, name@);
    }
    None
}

/// The position of the first variant called `name`.
pub fn find_variant(variants: &Vec<Variant>, name: &str) -> (r: Option<usize>)
    ensures
        match r {
            Some(j) => j < variants@.len() && position(
                variant_names(variant_shapes(variants@)),
                name@,
            ) == Some(j as int),
            None => position(variant_names(variant_shapes(variants@)), name@) is None,
        },
{
    let wanted = name.to_owned();
    let ghost names = variant_names(variant_shapes(variants@));
    let mut j: usize = 0;
    while j < variants.len()
        invariant
            j <= variants@.len(),
            names == variant_names(variant_shapes(variants@)),
            wanted@ == name@,
            forall|k: int| 0 <= k < j ==> names[k] != name@,
        decreases variants@.len() - j,
    {
        if variants[j].name == wanted {
            proof {
                lemma_position_found(names, name@, j as int);
            }
            return Some(j);
        }
        j += 1;
    }
    proof {
        lemma_position_absent(names, name@);
    }
    None
}

/// Takes one step: from the sub-value of kind `kind` that starts at bit
/// `start` to the part of it that `p` selects.
pub fn advance(start: usize, kind: Kind, p: &Path) -> (r: Result<(usize, Kind), (ErrorKind, Kind)>)
    requires
        start + kind@.width() <= usize::MAX,
    ensures
        match step(Cursor { start: start as nat, kind: kind@ }, *p) {
            Ok(c) => r matches Ok((s, k)) && s == c.start && k@ == c.kind && c.start
                + c.kind.width() <= start + kind@.width(),
            Err(e) => r matches Err((reason, at)) && reason == e && at == kind,
        },
{
    proof {
        lemma_shape(kind);
    }
    match p {
        Path::All => Ok((start, kind)),
        Path::Index(i) => match kind {
            Kind::Array { base, size } => {
                if *i >= size {
                    Err((ErrorKind::OutOfBounds, Kind::Array { base, size }))
                } else {
                    let ghost b: nat = base@.width();
                    let ghost n: nat = size as nat;
                    let ghost k: nat = *i as nat;
                    assert(k * b + b <= n * b && k * b >= 0) by (nonlinear_arith)
                        requires
                            k < n,
                    ;
                    let w: usize = base.bits();
                    Ok((start + *i * w, *base))
                }
            },
            Kind::Tuple { elements } => {
                let mut elements = elements;
                if *i >= elements.len() {
                    Err((ErrorKind::OutOfBounds, Kind::Tuple { elements }))
                } else {
                    proof {
                        lemma_sum_to_grows(
                            kind_widths(kind_shapes(elements@)),
                            *i + 1,
                            elements@.len() as int,
                        );
                    }
                    let offset: usize = checked_tuple_offset(&elements, *i).unwrap();
                    let element = elements.remove(*i);
                    Ok((start + offset, element))
                }
            },
            other => Err((ErrorKind::NotIndexable, other)),
        },
        Path::Field(name) => match kind {
            Kind::Struct { fields } => {
                let mut fields = fields;
                match find_field(&fields, *name) {
                    None => Err((ErrorKind::FieldNotFound, Kind::Struct { fields })),
                    Some(j) => {
                        proof {
                            lemma_sum_to_grows(
                                field_widths(field_shapes(fields@)),
                                j + 1,
                                fields@.len() as int,
                            );
                        }
                        let offset: usize = checked_field_offset(&fields, j).unwrap();
                        let field = fields.remove(j);
                        Ok((start + offset, field.kind))
                    },
                }
            },
            other => Err((ErrorKind::NotFieldAddressable, other)),
        },
        Path::EnumDiscriminant => match kind {
            Kind::Enum { variants, discriminant_width, discriminant_alignment } => {
                match discriminant_alignment {
                    DiscriminantAlignment::Lsb => Ok((start, Kind::Bits(discriminant_width))),
                    DiscriminantAlignment::Msb => {
                        let payload: usize = checked_payload_bits(&variants).unwrap();
                        Ok((start + payload, Kind::Bits(discriminant_width)))
                    },
                }
            },
            other => Err((ErrorKind::NotAnEnum, other)),
        },
        Path::EnumPayload(name) => match kind {
            Kind::Enum { variants, discriminant_width, discriminant_alignment } => {
                let mut variants = variants;
                match find_variant(&variants, *name) {
                    None => Err(
                        (
                            ErrorKind::VariantNotFound,
                            Kind::Enum { variants, discriminant_width, discriminant_alignment },
                        ),
                    ),
                    Some(j) => {
                        proof {
                            lemma_max_to_bounds(
                                variant_widths(variant_shapes(variants@)),
                                j as int,
                                variants@.len() as int,
                            );
                        }
                        let variant = variants.remove(j);
                        match discriminant_alignment {
                            DiscriminantAlignment::Lsb => Ok(
                                (start + discriminant_width, variant.kind),
                            ),
                            DiscriminantAlignment::Msb => Ok((start, variant.kind)),
                        }
                    },
                }
            },
            other => Err((ErrorKind::NotAnEnum, other)),
        },
    }
}

/// Resolves `path` inside a value of kind `kind`: the bits that the addressed
/// sub-value occupies in the encoding of the whole, and its kind.
pub fn bit_range(kind: Kind, path: &[Path]) -> (r: Result<(Range<usize>, Kind), PathError>)
    requires
        kind@.width() <= usize::MAX,
    ensures
        match resolve(kind@, path@) {
            Ok(c) => r matches Ok((range, k)) && range.start == c.start && range.end == c.start
                + c.kind.width() && k@ == c.kind && range.end <= kind@.width(),
            Err(f) => r matches Err(e) && e.kind == f.kind && e.step == f.step && e.at@ == f.at,
        },
{
    let mut start: usize = 0;
    let mut current = kind;
    let mut i: usize = 0;
    assert(path@.skip(0) =~= path@);
    while i < path.len()
        invariant
            i <= path@.len(),
            start + current@.width() <= kind@.width() <= usize::MAX,
            resolve(kind@, path@) == walk(
                Cursor { start: start as nat, kind: current@ },
                path@.skip(i as int),
                i as nat,
            ),
        decreases path@.len() - i,
    {
        let ghost cur = Cursor { start: start as nat, kind: current@ };
        let ghost rest = path@.skip(i as int);
        assert(rest.len() > 0 && rest[0] == path@[i as int]);
        assert(rest.drop_first() =~= path@.skip(i + 1));
        assert(walk(cur, rest, i as nat) == match step(cur, rest[0]) {
            Err(e) => Err::<Cursor, Failure>(Failure { kind: e, step: i as nat, at: cur.kind }),
            Ok(next) => walk(next, rest.drop_first(), (i + 1) as nat),
        });
        match advance(start, current, &path[i]) {
            Err((reason, at)) => {
                return Err(PathError { kind: reason, step: i, at });
            },
            Ok((s, k)) => {
                start = s;
                current = k;
            },
        }
        i += 1;
    }
    let width: usize = current.bits();
    Ok((start..start + width, current))
}

} // verus!
