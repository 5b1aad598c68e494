use crate::kind::DiscriminantAlignment;
use vstd::arithmetic::power2::pow2;
use vstd::prelude::*;

verus! {

/// The mathematical content of a [`crate::kind::Field`].
pub struct FieldShape {
    pub name: Seq<char>,
    pub kind: Shape,
}

/// The mathematical content of a [`crate::kind::Variant`].
pub struct VariantShape {
    pub name: Seq<char>,
    pub kind: Shape,
    pub discriminant: nat,
}

/// The mathematical content of a [`crate::kind::Kind`]: what every contract speaks of.
pub enum Shape {
    Bits(nat),
    Array { base: Box<Shape>, size: nat },
    Tuple { elements: Seq<Shape> },
    Struct { fields: Seq<FieldShape> },
    Enum {
        variants: Seq<VariantShape>,
        discriminant_width: nat,
        discriminant_alignment: DiscriminantAlignment,
    },
    Empty,
}

/// Sum of the first `n` entries of `ws`.
pub open spec fn sum_to(ws: Seq<nat>, n: int) -> nat
    decreases n,
{
    if n <= 0 || n > ws.len() {
        0
    } else {
        sum_to(ws, n - 1) + ws[n - 1]
    }
}

/// Largest of the first `n` entries of `ws`, and 0 where there is none.
pub open spec fn max_to(ws: Seq<nat>, n: int) -> nat
    decreases n,
{
    if n <= 0 || n > ws.len() {
        0
    } else if ws[n - 1] > max_to(ws, n - 1) {
        ws[n - 1]
    } else {
        max_to(ws, n - 1)
    }
}

/// The width of each kind of a sequence.
pub open spec fn kind_widths(kinds: Seq<Shape>) -> Seq<nat>
    decreases kinds,
{
    Seq::new(
        kinds.len(),
        |i: int|
            if 0 <= i < kinds.len() {
                kinds[i].width()
            } else {
                0
            },
    )
}

/// The width of each field of a struct, in declared order.
pub open spec fn field_widths(fields: Seq<FieldShape>) -> Seq<nat>
    decreases fields,
{
    Seq::new(
        fields.len(),
        |i: int|
            if 0 <= i < fields.len() {
                fields[i].kind.width()
            } else {
                0
            },
    )
}

/// The payload width of each variant of an enum, in declared order.
pub open spec fn variant_widths(variants: Seq<VariantShape>) -> Seq<nat>
    decreases variants,
{
    Seq::new(
        variants.len(),
        |i: int|
            if 0 <= i < variants.len() {
                variants[i].kind.width()
            } else {
                0
            },
    )
}

/// The names of the fields of a struct, in declared order.
pub open spec fn field_names(fields: Seq<FieldShape>) -> Seq<Seq<char>> {
    Seq::new(fields.len(), |i: int| fields[i].name)
}

/// The names of the variants of an enum, in declared order.
pub open spec fn variant_names(variants: Seq<VariantShape>) -> Seq<Seq<char>> {
    Seq::new(variants.len(), |i: int| variants[i].name)
}

/// The discriminants of the variants of an enum, in declared order.
pub open spec fn discriminants(variants: Seq<VariantShape>) -> Seq<nat> {
    Seq::new(variants.len(), |i: int| variants[i].discriminant)
}

/// A width as a machine integer, where it is small enough to be one.
pub open spec fn fit(w: nat) -> Option<usize> {
    if w <= usize::MAX {
        Some(w as usize)
    } else {
        None
    }
}

/// The partial sums of a sequence of widths never shrink.
pub proof fn lemma_sum_to_grows(ws: Seq<nat>, i: int, n: int)
    requires
        0 <= i <= n <= ws.len(),
    ensures
        sum_to(ws, i) <= sum_to(ws, n),
    decreases n,
{
    if i < n {
        lemma_sum_to_grows(ws, i, n - 1);
    }
}

/// The running maximum bounds every entry it has seen, and never shrinks.
pub proof fn lemma_max_to_bounds(ws: Seq<nat>, i: int, n: int)
    requires
        0 <= i < n <= ws.len(),
    ensures
        ws[i] <= max_to(ws, n),
        max_to(ws, i) <= max_to(ws, n),
    decreases n,
{
    if i < n - 1 {
        lemma_max_to_bounds(ws, i, n - 1);
    }
}

/// The sum of `n` equal widths.
pub proof fn lemma_sum_to_constant(ws: Seq<nat>, w: nat, n: int)
    requires
        0 <= n <= ws.len(),
        forall|j: int| 0 <= j < ws.len() ==> ws[j] == w,
    ensures
        sum_to(ws, n) == n * w,
    decreases n,
{
    if n > 0 {
        lemma_sum_to_constant(ws, w, n - 1);
        assert((n - 1) * w + w == n * w) by (nonlinear_arith);
    } else {
        assert(0 * w == 0) by (nonlinear_arith);
    }
}

/// The width of a composite is the sum of the widths of its parts, and each
/// part lies within it.
pub proof fn lemma_composite_width(kind: Shape, i: int)
    requires
        kind.is_composite(),
    ensures
        kind.width() == kind.offset(kind.members().len() as int),
        0 <= i < kind.members().len() ==> kind.offset(i + 1) == kind.offset(i)
            + kind.members()[i].width() && kind.offset(i + 1) <= kind.width(),
        kind matches Shape::Array { base, size } ==> (0 <= i <= size ==> kind.offset(i) == i
            * base.width()),
        kind matches Shape::Struct { fields } ==> kind_widths(kind.members()) == field_widths(
            fields,
        ),
{
    let ws = kind_widths(kind.members());
    let n = kind.members().len() as int;
    match kind {
        Shape::Array { base, size } => {
            lemma_sum_to_constant(ws, base.width(), n);
            if 0 <= i <= size {
                lemma_sum_to_constant(ws, base.width(), i);
            }
        },
        Shape::Struct { fields } => {
            assert(ws =~= field_widths(fields));
        },
        _ => {},
    }
    if 0 <= i < n {
        lemma_sum_to_grows(ws, i + 1, n);
    }
}

impl Shape {
    /// The number of bits that a value of this kind occupies.
    pub open spec fn width(self) -> nat
        decreases self,
    {
        match self {
            Shape::Bits(w) => w,
            Shape::Array { base, size } => size * base.width(),
            Shape::Tuple { elements } => sum_to(kind_widths(elements), elements.len() as int),
            Shape::Struct { fields } => sum_to(field_widths(fields), fields.len() as int),
            Shape::Enum { variants, discriminant_width, discriminant_alignment } => {
                discriminant_width + max_to(variant_widths(variants), variants.len() as int)
            },
            Shape::Empty => 0,
        }
    }

    /// Whether this kind is one that a type can have: at every level, the
    /// fields of a struct have different names, and the variants of an enum
    /// have different names and different discriminants that can be written
    /// in the width of the discriminant.
    pub open spec fn well_formed(self) -> bool
        decreases self,
    {
        match self {
            Shape::Bits(w) => true,
            Shape::Array { base, size } => base.well_formed(),
            Shape::Tuple { elements } => forall|i: int|
                0 <= i < elements.len() ==> (#[trigger] elements[i]).well_formed(),
            Shape::Struct { fields } => {
                &&& field_names(fields).no_duplicates()
                &&& forall|i: int|
                    0 <= i < fields.len() ==> (#[trigger] fields[i]).kind.well_formed()
            },
            Shape::Enum { variants, discriminant_width, discriminant_alignment } => {
                &&& variant_names(variants).no_duplicates()
                &&& discriminants(variants).no_duplicates()
                &&& forall|i: int|
                    0 <= i < variants.len() ==> fits_in(
                        (#[trigger] variants[i]).discriminant,
                        discriminant_width,
                    ) && variants[i].kind.well_formed()
            },
            Shape::Empty => true,
        }
    }

    /// Whether a value of this kind is a sequence of parts laid side by side.
    pub open spec fn is_composite(self) -> bool {
        self is Array || self is Tuple || self is Struct
    }

    /// The kinds of the parts of a composite, in the order of their bits.
    pub open spec fn members(self) -> Seq<Shape> {
        match self {
            Shape::Array { base, size } => Seq::new(size, |i: int| *base),
            Shape::Tuple { elements } => elements,
            Shape::Struct { fields } => Seq::new(fields.len(), |i: int| fields[i].kind),
            _ => Seq::empty(),
        }
    }

    /// The offset of part `i` of a composite: the widths of the parts before it, added up.
    pub open spec fn offset(self, i: int) -> nat {
        sum_to(kind_widths(self.members()), i)
    }

    /// The width shared by the payloads of an enum's variants: that of the widest.
    pub open spec fn payload_width(self) -> nat {
        match self {
            Shape::Enum { variants, discriminant_width, discriminant_alignment } => {
                max_to(variant_widths(variants), variants.len() as int)
            },
            _ => 0,
        }
    }
}

/// Whether `value` can be written in `width` bits.
pub open spec fn fits_in(value: nat, width: nat) -> bool {
    value < pow2(width)
}

} // verus!
