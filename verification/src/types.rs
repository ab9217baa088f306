//! Common types used in DOM representation.
use vstd::prelude::*;

verus! {

/// The value of DOM attributes.
#[derive(Debug, Clone, PartialEq)]
pub enum Attribute {
    String(String),
    Bool(bool),
}

/// The mathematical value of an [`Attribute`].
pub enum AttributeView {
    String(Seq<char>),
    Bool(bool),
}

impl View for Attribute {
    type V = AttributeView;

    open spec fn view(&self) -> AttributeView {
        match self {
            Attribute::String(s) => AttributeView::String(s@),
            Attribute::Bool(b) => AttributeView::Bool(*b),
        }
    }
}

impl Attribute {
    /// A string attribute value.
    pub fn from_string(value: String) -> (r: Attribute)
        ensures
            r@ == AttributeView::String(value@),
    {
        Attribute::String(value)
    }

    /// A boolean attribute value: present when `true`, absent when `false`.
    pub fn from_bool(value: bool) -> (r: Attribute)
        ensures
            r@ == AttributeView::Bool(value),
    {
        Attribute::Bool(value)
    }

    /// Structural equality of two attribute values.
    pub fn equals(&self, other: &Attribute) -> (r: bool)
        ensures
            r == (self@ == other@),
    {
        match (self, other) {
            (Attribute::String(a), Attribute::String(b)) => a.eq(b),
            (Attribute::Bool(a), Attribute::Bool(b)) => *a == *b,
            _ => false,
        }
    }

    pub fn clone_value(&self) -> (r: Attribute)
        ensures
            r@ == self@,
    {
        match self {
            Attribute::String(s) => Attribute::String(s.clone()),
            Attribute::Bool(b) => Attribute::Bool(*b),
        }
    }
}

/// The property values in DOM object.
///
/// A number is held as the bit pattern of an IEEE 754 double
/// (`f64::to_bits`); two numbers compare as `f64` values do.
#[derive(Debug, Clone)]
pub enum Property {
    String(String),
    Number(u64),
    Bool(bool),
}

/// The mathematical value of a [`Property`].
pub enum PropertyView {
    String(Seq<char>),
    Number(u64),
    Bool(bool),
}

impl View for Property {
    type V = PropertyView;

    open spec fn view(&self) -> PropertyView {
        match self {
            Property::String(s) => PropertyView::String(s@),
            Property::Number(n) => PropertyView::Number(*n),
            Property::Bool(b) => PropertyView::Bool(*b),
        }
    }
}

/// The bit pattern is a NaN: all exponent bits set, a nonzero fraction.
pub open spec fn is_nan_bits(bits: u64) -> bool {
    &&& bits & 0x7ff0_0000_0000_0000u64 == 0x7ff0_0000_0000_0000u64
    &&& bits & 0x000f_ffff_ffff_ffffu64 != 0
}

/// The bit pattern is a zero of either sign.
pub open spec fn is_zero_bits(bits: u64) -> bool {
    bits & 0x7fff_ffff_ffff_ffffu64 == 0
}

/// IEEE 754 equality of two doubles given by their bit patterns: a NaN equals
/// nothing, `+0.0 == -0.0`, and otherwise equal values have equal patterns.
pub open spec fn number_eq(a: u64, b: u64) -> bool {
    &&& !is_nan_bits(a)
    &&& !is_nan_bits(b)
    &&& (a == b || (is_zero_bits(a) && is_zero_bits(b)))
}

/// The equality of property values, as `Property`'s `==` compares them.
pub open spec fn property_eq(a: PropertyView, b: PropertyView) -> bool {
    match (a, b) {
        (PropertyView::String(x), PropertyView::String(y)) => x == y,
        (PropertyView::Number(x), PropertyView::Number(y)) => number_eq(x, y),
        (PropertyView::Bool(x), PropertyView::Bool(y)) => x == y,
        _ => false,
    }
}

/// IEEE 754 equality of two doubles given by their bit patterns.
pub fn number_equals(a: u64, b: u64) -> (r: bool)
    ensures
        r == number_eq(a, b),
{
    let a_nan = a & 0x7ff0_0000_0000_0000u64 == 0x7ff0_0000_0000_0000u64
        && a & 0x000f_ffff_ffff_ffffu64 != 0;
    let b_nan = b & 0x7ff0_0000_0000_0000u64 == 0x7ff0_0000_0000_0000u64
        && b & 0x000f_ffff_ffff_ffffu64 != 0;
    let a_zero = a & 0x7fff_ffff_ffff_ffffu64 == 0;
    let b_zero = b & 0x7fff_ffff_ffff_ffffu64 == 0;
    !a_nan && !b_nan && (a == b || (a_zero && b_zero))
}

impl Property {
    /// A string property value.
    pub fn from_string(value: String) -> (r: Property)
        ensures
            r@ == PropertyView::String(value@),
    {
        Property::String(value)
    }

    /// A boolean property value.
    pub fn from_bool(value: bool) -> (r: Property)
        ensures
            r@ == PropertyView::Bool(value),
    {
        Property::Bool(value)
    }

    /// A number property value, given by the bits of the IEEE 754 double
    /// (as `f64::to_bits` gives them).
    pub fn from_number_bits(bits: u64) -> (r: Property)
        ensures
            r@ == PropertyView::Number(bits),
    {
        Property::Number(bits)
    }

    pub fn clone_value(&self) -> (r: Property)
        ensures
            r@ == self@,
    {
        match self {
            Property::String(s) => Property::String(s.clone()),
            Property::Number(n) => Property::Number(*n),
            Property::Bool(b) => Property::Bool(*b),
        }
    }

    /// The equality of two property values, numbers compared as `f64`.
    pub fn equals(&self, other: &Property) -> (r: bool)
        ensures
            r == property_eq(self@, other@),
    {
        match (self, other) {
            (Property::String(a), Property::String(b)) => a.eq(b),
            (Property::Number(a), Property::Number(b)) => number_equals(*a, *b),
            (Property::Bool(a), Property::Bool(b)) => *a == *b,
            _ => false,
        }
    }
}

impl PartialEq for Property {
    fn eq(&self, other: &Property) -> (r: bool) {
        self.equals(other)
    }
}

impl vstd::std_specs::cmp::PartialEqSpecImpl for Property {
    open spec fn obeys_eq_spec() -> bool {
        true
    }

    open spec fn eq_spec(&self, other: &Property) -> bool {
        property_eq(self@, other@)
    }
}

} // verus!

verus! {

/// One of two alternatives, used to choose between two attribute sets or two
/// sets of child nodes.
pub enum Either<L, R> {
    Left(L),
    Right(R),
}

/// `Some(f())` where `pred` holds, else `None`.
pub fn if_then<T, F: FnOnce() -> T>(pred: bool, f: F) -> (r: Option<T>)
    requires
        pred ==> f.requires(()),
    ensures
        pred ==> (r matches Some(v) && f.ensures((), v)),
        !pred ==> r is None,
{
    if pred {
        Some(f())
    } else {
        None
    }
}

/// `Left(f())` where `pred` holds, else `Right(g())`.
pub fn if_else<T, U, F: FnOnce() -> T, G: FnOnce() -> U>(pred: bool, f: F, g: G) -> (r: Either<T, U>)
    requires
        pred ==> f.requires(()),
        !pred ==> g.requires(()),
    ensures
        pred ==> (r matches Either::Left(v) && f.ensures((), v)),
        !pred ==> (r matches Either::Right(v) && g.ensures((), v)),
{
    if pred {
        Either::Left(f())
    } else {
        Either::Right(g())
    }
}

} // verus!
