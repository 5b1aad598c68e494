use crate::shape::{
    discriminants, field_names, field_widths, fit, fits_in, kind_widths, lemma_max_to_bounds,
    lemma_sum_to_grows, max_to, sum_to, variant_names, variant_widths, FieldShape, Shape,
    VariantShape,
};
use vstd::arithmetic::power2::{
    lemma2_to64, lemma_pow2_strictly_increases, lemma_pow2_unfold, pow2,
};
use vstd::prelude::*;
use vstd::std_specs::cmp::PartialEqSpecImpl;

verus! {

/// Which end of an enum's encoding holds its discriminant.
#[derive(Clone, Copy, Debug, PartialEq, Eq, Structural)]
pub enum DiscriminantAlignment {
    /// The discriminant occupies the lowest bits, the payload follows.
    Lsb,
    /// The payload occupies the lowest bits, the discriminant the highest.
    Msb,
}

/// A named member of a struct.
#[derive(Debug, PartialEq, Eq)]
pub struct Field {
    pub name: String,
    pub kind: Kind,
}

/// A named alternative of an enum, with the integer that tags it.
#[derive(Debug, PartialEq, Eq)]
pub struct Variant {
    pub name: String,
    pub kind: Kind,
    pub discriminant: u64,
}

/// The static shape of a hardware value.
#[derive(Debug)]
pub enum Kind {
    /// A scalar of the given number of bits.
    Bits(usize),
    /// `size` repetitions of `base`, index 0 first.
    Array { base: Box<Kind>, size: usize },
    /// A positional composite.
    Tuple { elements: Vec<Kind> },
    /// A named composite; the order of the fields is the order of their bits.
    Struct { fields: Vec<Field> },
    /// A tagged union: every variant shares the span of the widest payload.
    Enum {
        variants: Vec<Variant>,
        discriminant_width: usize,
        discriminant_alignment: DiscriminantAlignment,
    },
    /// The unit of width zero.
    Empty,
}

/// The content of each kind of a sequence.
pub open spec fn kind_shapes(kinds: Seq<Kind>) -> Seq<Shape>
    decreases kinds,
{
    Seq::new(
        kinds.len(),
        |i: int|
            if 0 <= i < kinds.len() {
                kinds[i].shape()
            } else {
                Shape::Empty
            },
    )
}

/// The content of each field of a sequence.
pub open spec fn field_shapes(fields: Seq<Field>) -> Seq<FieldShape>
    decreases fields,
{
    Seq::new(
        fields.len(),
        |i: int|
            if 0 <= i < fields.len() {
                FieldShape { name: fields[i].name@, kind: fields[i].kind.shape() }
            } else {
                FieldShape { name: Seq::empty(), kind: Shape::Empty }
            },
    )
}

/// The content of each variant of a sequence.
pub open spec fn variant_shapes(variants: Seq<Variant>) -> Seq<VariantShape>
    decreases variants,
{
    Seq::new(
        variants.len(),
        |i: int|
            if 0 <= i < variants.len() {
                VariantShape {
                    name: variants[i].name@,
                    kind: variants[i].kind.shape(),
                    discriminant: variants[i].discriminant as nat,
                }
            } else {
                VariantShape { name: Seq::empty(), kind: Shape::Empty, discriminant: 0 }
            },
    )
}

impl Kind {
    /// What this kind holds.
    pub open spec fn shape(self) -> Shape
        decreases self,
    {
        match self {
            Kind::Bits(w) => Shape::Bits(w as nat),
            Kind::Array { base, size } => Shape::Array {
                base: Box::new(base.shape()),
                size: size as nat,
            },
            Kind::Tuple { elements } => Shape::Tuple { elements: kind_shapes(elements@) },
            Kind::Struct { fields } => Shape::Struct { fields: field_shapes(fields@) },
            Kind::Enum { variants, discriminant_width, discriminant_alignment } => Shape::Enum {
                variants: variant_shapes(variants@),
                discriminant_width: discriminant_width as nat,
                discriminant_alignment,
            },
            Kind::Empty => Shape::Empty,
        }
    }
}

/// The content of a kind, part by part.
pub proof fn lemma_shape(kind: Kind)
    ensures
        kind matches Kind::Tuple { elements } ==> {
            &&& kind@ == (Shape::Tuple { elements: kind_shapes(elements@) })
            &&& kind_shapes(elements@).len() == elements@.len()
            &&& forall|i: int|
                0 <= i < elements@.len() ==> #[trigger] kind_shapes(elements@)[i] == elements@[i]@
        },
        kind matches Kind::Struct { fields } ==> {
            &&& kind@ == (Shape::Struct { fields: field_shapes(fields@) })
            &&& field_shapes(fields@).len() == fields@.len()
            &&& forall|i: int|
                0 <= i < fields@.len() ==> #[trigger] field_shapes(fields@)[i] == fields@[i]@
        },
        kind matches Kind::Enum { variants, discriminant_width, discriminant_alignment } ==> {
            &&& kind@ == (Shape::Enum {
                variants: variant_shapes(variants@),
                discriminant_width: discriminant_width as nat,
                discriminant_alignment,
            })
            &&& variant_shapes(variants@).len() == variants@.len()
            &&& forall|i: int|
                0 <= i < variants@.len() ==> #[trigger] variant_shapes(variants@)[i]
                    == variants@[i]@
        },
{
}

impl View for Kind {
    type V = Shape;

    open spec fn view(&self) -> Shape {
        self.shape()
    }
}

impl View for Field {
    type V = FieldShape;

    open spec fn view(&self) -> FieldShape {
        FieldShape { name: self.name@, kind: self.kind@ }
    }
}

impl View for Variant {
    type V = VariantShape;

    open spec fn view(&self) -> VariantShape {
        VariantShape { name: self.name@, kind: self.kind@, discriminant: self.discriminant as nat }
    }
}

impl Kind {
    /// Whether this kind is well formed.
    pub fn is_well_formed(&self) -> (r: bool)
        ensures
            r == self@.well_formed(),
        decreases self,
    {
        match self {
            Kind::Bits(w) => true,
            Kind::Array { base, size } => base.is_well_formed(),
            Kind::Tuple { elements } => {
                proof {
                    lemma_shape(*self);
                }
                let mut i: usize = 0;
                while i < elements.len()
                    invariant
                        i <= elements@.len(),
                        *self is Tuple,
                        self->elements == *elements,
                        forall|j: int|
                            0 <= j < i ==> (#[trigger] kind_shapes(elements@)[j]).well_formed(),
                    decreases elements@.len() - i,
                {
                    proof {
                        lemma_shape(*self);
                    }
                    if !elements[i].is_well_formed() {
                        assert(!(self@->elements)[i as int].well_formed());
                        return false;
                    }
                    i += 1;
                }
                true
            },
            Kind::Struct { fields } => {
                proof {
                    lemma_shape(*self);
                }
                if !distinct_field_names(fields) {
                    return false;
                }
                let mut i: usize = 0;
                while i < fields.len()
                    invariant
                        i <= fields@.len(),
                        *self is Struct,
                        self->fields == *fields,
                        forall|j: int|
                            0 <= j < i ==> (#[trigger] field_shapes(fields@)[j]).kind.well_formed(),
                    decreases fields@.len() - i,
                {
                    proof {
                        lemma_shape(*self);
                    }
                    if !fields[i].kind.is_well_formed() {
                        assert(!field_shapes(fields@)[i as int].kind.well_formed());
                        return false;
                    }
                    i += 1;
                }
                true
            },
            Kind::Enum { variants, discriminant_width, discriminant_alignment } => {
                proof {
                    lemma_shape(*self);
                }
                if !distinct_variant_names(variants) || !distinct_discriminants(variants) {
                    return false;
                }
                let mut i: usize = 0;
                while i < variants.len()
                    invariant
                        i <= variants@.len(),
                        *self is Enum,
                        self->variants == *variants,
                        self->discriminant_width == *discriminant_width,
                        forall|j: int|
                            0 <= j < i ==> fits_in(
                                (#[trigger] variant_shapes(variants@)[j]).discriminant,
                                *discriminant_width as nat,
                            ) && variant_shapes(variants@)[j].kind.well_formed(),
                    decreases variants@.len() - i,
                {
                    let needed: usize = bits_needed(variants[i].discriminant);
                    proof {
                        lemma_shape(*self);
                        if needed <= *discriminant_width {
                            if needed < *discriminant_width {
                                lemma_pow2_strictly_increases(
                                    needed as nat,
                                    *discriminant_width as nat,
                                );
                            }
                        } else {
                            if *discriminant_width < needed - 1 {
                                lemma_pow2_strictly_increases(
                                    *discriminant_width as nat,
                                    (needed - 1) as nat,
                                );
                            }
                        }
                    }
                    if needed > *discriminant_width || !variants[i].kind.is_well_formed() {
                        assert(variant_shapes(variants@)[i as int].discriminant
                            == variants@[i as int].discriminant);
                        return false;
                    }
                    i += 1;
                }
                true
            },
            Kind::Empty => true,
        }
    }

    /// The width in bits, or `None` where it exceeds what `usize` holds.
    pub fn checked_bits(&self) -> (r: Option<usize>)
        ensures
            r == fit(self@.width()),
        decreases self,
    {
        match self {
            Kind::Bits(w) => Some(*w),
            Kind::Array { base, size } => {
                if *size == 0 {
                    assert(0 * base@.width() == 0) by (nonlinear_arith);
                    Some(0)
                } else {
                    let ghost b: nat = base@.width();
                    let ghost s: nat = *size as nat;
                    assert(s * b >= b) by (nonlinear_arith)
                        requires
                            s >= 1,
                    ;
                    match base.checked_bits() {
                        None => None,
                        Some(w) => size.checked_mul(w),
                    }
                }
            },
            Kind::Tuple { elements } => checked_tuple_offset(elements, elements.len()),
            Kind::Struct { fields } => checked_field_offset(fields, fields.len()),
            Kind::Enum { variants, discriminant_width, discriminant_alignment } => {
                match checked_payload_bits(variants) {
                    None => None,
                    Some(w) => discriminant_width.checked_add(w),
                }
            },
            Kind::Empty => Some(0),
        }
    }

    /// A scalar of `width` bits.
    pub fn make_bits(width: usize) -> (r: Kind)
        ensures
            r == Kind::Bits(width),
            r@ == Shape::Bits(width as nat),
    {
        Kind::Bits(width)
    }

    /// An array of `size` elements of kind `base`.
    pub fn make_array(base: Kind, size: usize) -> (r: Kind)
        ensures
            r == (Kind::Array { base: Box::new(base), size }),
            r@ == (Shape::Array { base: Box::new(base@), size: size as nat }),
    {
        Kind::Array { base: Box::new(base), size }
    }

    /// A tuple of the given elements.
    pub fn make_tuple(elements: Vec<Kind>) -> (r: Kind)
        ensures
            r == (Kind::Tuple { elements }),
            r@ == (Shape::Tuple { elements: kind_shapes(elements@) }),
    {
        Kind::Tuple { elements }
    }

    /// A struct of the given fields, in this order.
    pub fn make_struct(fields: Vec<Field>) -> (r: Kind)
        ensures
            r == (Kind::Struct { fields }),
            r@ == (Shape::Struct { fields: field_shapes(fields@) }),
    {
        Kind::Struct { fields }
    }

    /// A field of a struct.
    pub fn make_field(name: &str, kind: Kind) -> (r: Field)
        ensures
            r.name@ == name@,
            r.kind == kind,
            r@ == (FieldShape { name: name@, kind: kind@ }),
    {
        Field { name: name.to_owned(), kind }
    }

    /// A variant of an enum.
    pub fn make_variant(name: &str, kind: Kind, discriminant: u64) -> (r: Variant)
        ensures
            r.name@ == name@,
            r.kind == kind,
            r.discriminant == discriminant,
            r@ == (VariantShape { name: name@, kind: kind@, discriminant: discriminant as nat }),
    {
        Variant { name: name.to_owned(), kind, discriminant }
    }

    /// An enum of the given variants, tagged in `discriminant_width` bits at
    /// the end that `discriminant_alignment` names.
    pub fn make_enum(
        variants: Vec<Variant>,
        discriminant_width: usize,
        discriminant_alignment: DiscriminantAlignment,
    ) -> (r: Kind)
        ensures
            r == (Kind::Enum { variants, discriminant_width, discriminant_alignment }),
            r@ == (Shape::Enum {
                variants: variant_shapes(variants@),
                discriminant_width: discriminant_width as nat,
                discriminant_alignment,
            }),
    {
        Kind::Enum { variants, discriminant_width, discriminant_alignment }
    }

    /// The kind of part `i` of a composite.
    pub fn member(&self, i: usize) -> (r: &Kind)
        requires
            i < self@.members().len(),
        ensures
            r@ == self@.members()[i as int],
    {
        proof {
            lemma_shape(*self);
        }
        match self {
            Kind::Array { base, size } => &**base,
            Kind::Tuple { elements } => &elements[i],
            Kind::Struct { fields } => &fields[i].kind,
            _ => vstd::pervasive::unreached(),
        }
    }

    /// The width in bits.
    pub fn bits(&self) -> (w: usize)
        requires
            self@.width() <= usize::MAX,
        ensures
            w == self@.width(),
    {
        self.checked_bits().unwrap()
    }
}

impl Kind {
    /// A copy of this kind.
    pub fn duplicate(&self) -> (r: Kind)
        ensures
            r@ == self@,
        decreases self,
    {
        proof {
            lemma_shape(*self);
        }
        match self {
            Kind::Bits(w) => Kind::Bits(*w),
            Kind::Array { base, size } => Kind::Array {
                base: Box::new(base.duplicate()),
                size: *size,
            },
            Kind::Tuple { elements } => {
                let mut copies: Vec<Kind> = Vec::new();
                let mut i: usize = 0;
                while i < elements.len()
                    invariant
                        i <= elements@.len(),
                        *self is Tuple,
                        self->elements == *elements,
                        copies@.len() == i,
                        forall|j: int| 0 <= j < i ==> (#[trigger] copies@[j])@ == elements@[j]@,
                    decreases elements@.len() - i,
                {
                    copies.push(elements[i].duplicate());
                    i += 1;
                }
                assert(kind_shapes(copies@) =~= kind_shapes(elements@));
                let copy = Kind::Tuple { elements: copies };
                proof {
                    lemma_shape(copy);
                }
                copy
            },
            Kind::Struct { fields } => {
                let mut copies: Vec<Field> = Vec::new();
                let mut i: usize = 0;
                while i < fields.len()
                    invariant
                        i <= fields@.len(),
                        *self is Struct,
                        self->fields == *fields,
                        copies@.len() == i,
                        forall|j: int| 0 <= j < i ==> (#[trigger] copies@[j])@ == fields@[j]@,
                    decreases fields@.len() - i,
                {
                    copies.push(
                        Field { name: fields[i].name.clone(), kind: fields[i].kind.duplicate() },
                    );
                    i += 1;
                }
                assert(field_shapes(copies@) =~= field_shapes(fields@));
                let copy = Kind::Struct { fields: copies };
                proof {
                    lemma_shape(copy);
                }
                copy
            },
            Kind::Enum { variants, discriminant_width, discriminant_alignment } => {
                let mut copies: Vec<Variant> = Vec::new();
                let mut i: usize = 0;
                while i < variants.len()
                    invariant
                        i <= variants@.len(),
                        *self is Enum,
                        self->variants == *variants,
                        copies@.len() == i,
                        forall|j: int| 0 <= j < i ==> (#[trigger] copies@[j])@ == variants@[j]@,
                    decreases variants@.len() - i,
                {
                    copies.push(
                        Variant {
                            name: variants[i].name.clone(),
                            kind: variants[i].kind.duplicate(),
                            discriminant: variants[i].discriminant,
                        },
                    );
                    i += 1;
                }
                assert(variant_shapes(copies@) =~= variant_shapes(variants@));
                let copy = Kind::Enum {
                    variants: copies,
                    discriminant_width: *discriminant_width,
                    discriminant_alignment: *discriminant_alignment,
                };
                proof {
                    lemma_shape(copy);
                }
                copy
            },
            Kind::Empty => Kind::Empty,
        }
    }

    /// Whether this kind and `other` have the same variant and, part by part,
    /// the same contents.
    pub fn same(&self, other: &Kind) -> (r: bool)
        ensures
            r == (self@ == other@),
        decreases self,
    {
        proof {
            lemma_shape(*self);
            lemma_shape(*other);
        }
        match (self, other) {
            (Kind::Bits(a), Kind::Bits(b)) => *a == *b,
            (Kind::Array { base: a, size: m }, Kind::Array { base: b, size: n }) => {
                *m == *n && a.same(b)
            },
            (Kind::Tuple { elements: a }, Kind::Tuple { elements: b }) => {
                if a.len() != b.len() {
                    return false;
                }
                let mut i: usize = 0;
                while i < a.len()
                    invariant
                        i <= a@.len() == b@.len(),
                        *self is Tuple,
                        self->elements == *a,
                        *other is Tuple,
                        other->elements == *b,
                        forall|j: int|
                            0 <= j < i ==> kind_shapes(a@)[j] == #[trigger] kind_shapes(b@)[j],
                    decreases a@.len() - i,
                {
                    proof {
                        lemma_shape(*self);
                        lemma_shape(*other);
                    }
                    if !a[i].same(&b[i]) {
                        assert(kind_shapes(a@)[i as int] != kind_shapes(b@)[i as int]);
                        return false;
                    }
                    i += 1;
                }
                assert(kind_shapes(a@) =~= kind_shapes(b@));
                true
            },
            (Kind::Struct { fields: a }, Kind::Struct { fields: b }) => {
                if a.len() != b.len() {
                    return false;
                }
                let mut i: usize = 0;
                while i < a.len()
                    invariant
                        i <= a@.len() == b@.len(),
                        *self is Struct,
                        self->fields == *a,
                        *other is Struct,
                        other->fields == *b,
                        forall|j: int|
                            0 <= j < i ==> field_shapes(a@)[j] == #[trigger] field_shapes(b@)[j],
                    decreases a@.len() - i,
                {
                    proof {
                        lemma_shape(*self);
                        lemma_shape(*other);
                    }
                    if !(a[i].name == b[i].name) || !a[i].kind.same(&b[i].kind) {
                        assert(field_shapes(a@)[i as int] != field_shapes(b@)[i as int]);
                        return false;
                    }
                    i += 1;
                }
                assert(field_shapes(a@) =~= field_shapes(b@));
                true
            },
            (
                Kind::Enum { variants: a, discriminant_width: m, discriminant_alignment: s },
                Kind::Enum { variants: b, discriminant_width: n, discriminant_alignment: t },
            ) => {
                if *m != *n || a.len() != b.len() {
                    return false;
                }
                let aligned = match (s, t) {
                    (DiscriminantAlignment::Lsb, DiscriminantAlignment::Lsb) => true,
                    (DiscriminantAlignment::Msb, DiscriminantAlignment::Msb) => true,
                    _ => false,
                };
                if !aligned {
                    return false;
                }
                let mut i: usize = 0;
                while i < a.len()
                    invariant
                        i <= a@.len() == b@.len(),
                        *self is Enum,
                        self->variants == *a,
                        *other is Enum,
                        other->variants == *b,
                        forall|j: int|
                            0 <= j < i ==> variant_shapes(a@)[j] == #[trigger] variant_shapes(
                                b@,
                            )[j],
                    decreases a@.len() - i,
                {
                    proof {
                        lemma_shape(*self);
                        lemma_shape(*other);
                    }
                    if !(a[i].name == b[i].name) || a[i].discriminant != b[i].discriminant
                        || !a[i].kind.same(&b[i].kind) {
                        assert(variant_shapes(a@)[i as int] != variant_shapes(b@)[i as int]);
                        return false;
                    }
                    i += 1;
                }
                assert(variant_shapes(a@) =~= variant_shapes(b@));
                true
            },
            (Kind::Empty, Kind::Empty) => true,
            _ => false,
        }
    }
}

impl Clone for Kind {
    fn clone(&self) -> (r: Self)
        ensures
            r@ == self@,
    {
        self.duplicate()
    }
}

impl PartialEq for Kind {
    fn eq(&self, other: &Self) -> (r: bool) {
        self.same(other)
    }
}

impl PartialEqSpecImpl for Kind {
    open spec fn obeys_eq_spec() -> bool {
        true
    }

    open spec fn eq_spec(&self, other: &Self) -> bool {
        self@ == other@
    }
}

impl Eq for Kind {

}

/// The least number of bits in which `value` can be written.
pub fn bits_needed(value: u64) -> (w: usize)
    ensures
        w <= 64,
        fits_in(value as nat, w as nat),
        w > 0 ==> !fits_in(value as nat, (w - 1) as nat),
{
    let mut w: usize = 0;
    let mut rest: u64 = value;
    proof {
        lemma2_to64();
    }
    while rest > 0
        invariant
            w <= 64,
            rest * pow2(w as nat) <= value < (rest + 1) * pow2(w as nat),
            w > 0 ==> pow2((w - 1) as nat) <= value,
        decreases rest,
    {
        proof {
            let p = pow2(w as nat);
            lemma_pow2_unfold((w + 1) as nat);
            lemma2_to64();
            assert(p <= rest * p) by (nonlinear_arith)
                requires
                    rest >= 1,
            ;
            if w >= 64 {
                if w > 64 {
                    lemma_pow2_strictly_increases(64, w as nat);
                }
            }
            let half = (rest / 2) as int;
            assert(half * (2 * p) <= rest * p && (rest + 1) * p <= (half + 1) * (2 * p))
                by (nonlinear_arith)
                requires
                    2 * half <= rest < 2 * half + 2,
                    p >= 0,
            ;
        }
        rest = rest / 2;
        w = w + 1;
    }
    assert(0 * pow2(w as nat) == 0 && 1 * pow2(w as nat) == pow2(w as nat)) by (nonlinear_arith);
    w
}

/// Whether the fields of a struct have different names.
pub fn distinct_field_names(fields: &Vec<Field>) -> (r: bool)
    ensures
        r == field_names(field_shapes(fields@)).no_duplicates(),
{
    let ghost names = field_names(field_shapes(fields@));
    let mut i: usize = 0;
    while i < fields.len()
        invariant
            i <= fields@.len(),
            names == field_names(field_shapes(fields@)),
            forall|a: int, b: int| 0 <= a < b < i ==> names[a] != names[b],
        decreases fields@.len() - i,
    {
        let mut j: usize = 0;
        while j < i
            invariant
                j <= i < fields@.len(),
                names == field_names(field_shapes(fields@)),
                forall|a: int| 0 <= a < j ==> names[a] != names[i as int],
            decreases i - j,
        {
            if fields[j].name == fields[i].name {
                assert(names[j as int] == names[i as int]);
                return false;
            }
            j += 1;
        }
        i += 1;
    }
    true
}

/// Whether the variants of an enum have different names.
pub fn distinct_variant_names(variants: &Vec<Variant>) -> (r: bool)
    ensures
        r == variant_names(variant_shapes(variants@)).no_duplicates(),
{
    let ghost names = variant_names(variant_shapes(variants@));
    let mut i: usize = 0;
    while i < variants.len()
        invariant
            i <= variants@.len(),
            names == variant_names(variant_shapes(variants@)),
            forall|a: int, b: int| 0 <= a < b < i ==> names[a] != names[b],
        decreases variants@.len() - i,
    {
        let mut j: usize = 0;
        while j < i
            invariant
                j <= i < variants@.len(),
                names == variant_names(variant_shapes(variants@)),
                forall|a: int| 0 <= a < j ==> names[a] != names[i as int],
            decreases i - j,
        {
            if variants[j].name == variants[i].name {
                assert(names[j as int] == names[i as int]);
                return false;
            }
            j += 1;
        }
        i += 1;
    }
    true
}

/// Whether the variants of an enum have different discriminants.
pub fn distinct_discriminants(variants: &Vec<Variant>) -> (r: bool)
    ensures
        r == discriminants(variant_shapes(variants@)).no_duplicates(),
{
    let ghost tags = discriminants(variant_shapes(variants@));
    let mut i: usize = 0;
    while i < variants.len()
        invariant
            i <= variants@.len(),
            tags == discriminants(variant_shapes(variants@)),
            forall|a: int, b: int| 0 <= a < b < i ==> tags[a] != tags[b],
        decreases variants@.len() - i,
    {
        let mut j: usize = 0;
        while j < i
            invariant
                j <= i < variants@.len(),
                tags == discriminants(variant_shapes(variants@)),
                forall|a: int| 0 <= a < j ==> tags[a] != tags[i as int],
            decreases i - j,
        {
            if variants[j].discriminant == variants[i].discriminant {
                assert(tags[j as int] == tags[i as int]);
                return false;
            }
            j += 1;
        }
        i += 1;
    }
    true
}

/// The offset of element `n` of a tuple: the widths of the elements before it, added up.
pub fn checked_tuple_offset(elements: &Vec<Kind>, n: usize) -> (r: Option<usize>)
    requires
        n <= elements@.len(),
    ensures
        r == fit(sum_to(kind_widths(kind_shapes(elements@)), n as int)),
    decreases elements,
{
    let ghost ws = kind_widths(kind_shapes(elements@));
    let mut total: usize = 0;
    let mut i: usize = 0;
    while i < n
        invariant
            i <= n <= elements@.len(),
            ws == kind_widths(kind_shapes(elements@)),
            total == sum_to(ws, i as int),
        decreases n - i,
    {
        proof {
            lemma_sum_to_grows(ws, i + 1, n as int);
        }
        match elements[i].checked_bits() {
            None => {
                return None;
            },
            Some(w) => match total.checked_add(w) {
                None => {
                    return None;
                },
                Some(t) => {
                    total = t;
                },
            },
        }
        i += 1;
    }
    Some(total)
}

/// The offset of field `n` of a struct: the widths of the fields before it, added up.
pub fn checked_field_offset(fields: &Vec<Field>, n: usize) -> (r: Option<usize>)
    requires
        n <= fields@.len(),
    ensures
        r == fit(sum_to(field_widths(field_shapes(fields@)), n as int)),
    decreases fields,
{
    let ghost ws = field_widths(field_shapes(fields@));
    let mut total: usize = 0;
    let mut i: usize = 0;
    while i < n
        invariant
            i <= n <= fields@.len(),
            ws == field_widths(field_shapes(fields@)),
            total == sum_to(ws, i as int),
        decreases n - i,
    {
        proof {
            lemma_sum_to_grows(ws, i + 1, n as int);
        }
        match fields[i].kind.checked_bits() {
            None => {
                return None;
            },
            Some(w) => match total.checked_add(w) {
                None => {
                    return None;
                },
                Some(t) => {
                    total = t;
                },
            },
        }
        i += 1;
    }
    Some(total)
}

/// The width of the widest payload among the variants of an enum.
pub fn checked_payload_bits(variants: &Vec<Variant>) -> (r: Option<usize>)
    ensures
        r == fit(max_to(variant_widths(variant_shapes(variants@)), variants@.len() as int)),
    decreases variants,
{
    let ghost ws = variant_widths(variant_shapes(variants@));
    let n = variants.len();
    let mut widest: usize = 0;
    let mut i: usize = 0;
    while i < n
        invariant
            i <= n == variants@.len(),
            ws == variant_widths(variant_shapes(variants@)),
            widest == max_to(ws, i as int),
        decreases n - i,
    {
        proof {
            lemma_max_to_bounds(ws, i as int, n as int);
        }
        match variants[i].kind.checked_bits() {
            None => {
                return None;
            },
            Some(w) => {
                if w > widest {
                    widest = w;
                }
            },
        }
        i += 1;
    }
    Some(widest)
}

} // verus!
