use siro::attr::{attribute, collect_attributes, AttrOp};
use siro::decimal::{i32_to_decimal, u64_to_decimal};
use siro::html::attr::{autofocus, checked, href, id, label_for, name, placeholder, value};
use siro::svg::{
    circle, cx, points, stroke_dasharray, stroke_width, svg, viewbox, SVG_NAMESPACE_URI,
};
use siro::types::{number_equals, Attribute, Either, Property};

fn s(v: &str) -> String {
    v.to_string()
}

fn string_value(a: &siro::attr::Attribute) -> String {
    match &a.value {
        Attribute::String(v) => v.clone(),
        Attribute::Bool(b) => panic!("boolean attribute {}", b),
    }
}

#[test]
fn decimal_notation() {
    assert_eq!(u64_to_decimal(0), "0");
    assert_eq!(u64_to_decimal(1234), "1234");
    assert_eq!(u64_to_decimal(u64::MAX), "18446744073709551615");
    assert_eq!(i32_to_decimal(0), "0");
    assert_eq!(i32_to_decimal(-45), "-45");
    assert_eq!(i32_to_decimal(i32::MAX), "2147483647");
    assert_eq!(i32_to_decimal(i32::MIN), "-2147483648");
}

#[test]
fn svg_viewbox() {
    let a = viewbox(0, 0, 100, 50);
    assert_eq!(a.name, "viewbox");
    assert_eq!(string_value(&a), "0 0 100 50");
    assert_eq!(string_value(&viewbox(-10, 5, 20, 30)), "-10 5 20 30");
}

#[test]
fn svg_points() {
    let a = points(vec![(0, 0), (10, -5), (3, 4)]);
    assert_eq!(a.name, "points");
    assert_eq!(string_value(&a), "0,0, 10,-5, 3,4");
    assert_eq!(string_value(&points(vec![])), "");
}

#[test]
fn svg_stroke_dasharray() {
    let a = stroke_dasharray(vec![5, 10, -1]);
    assert_eq!(a.name, "stroke-dasharray");
    assert_eq!(string_value(&a), "5 10 -1");
}

#[test]
fn svg_lengths() {
    assert_eq!(cx(12).name, "cx");
    assert_eq!(string_value(&cx(12)), "12");
    assert_eq!(stroke_width(-3).name, "stroke-width");
    assert_eq!(string_value(&stroke_width(-3)), "-3");
}

#[test]
fn svg_elements_have_the_svg_namespace() {
    let e = svg((), circle((), ()));
    assert_eq!(e.tag_name, "svg");
    assert_eq!(e.namespace_uri.as_deref(), Some(SVG_NAMESPACE_URI));
    assert_eq!(e.children.tag_name, "circle");
    assert_eq!(SVG_NAMESPACE_URI, "http://www.w3.org/2000/svg");
}

#[test]
fn html_attributes() {
    assert_eq!(autofocus(true).name, "autofocus");
    assert_eq!(autofocus(true).value, Attribute::Bool(true));
    assert_eq!(href(s("/a")).name, "href");
    assert_eq!(id(s("x")).name, "id");
    assert_eq!(label_for(s("x")).name, "for");
    assert_eq!(name(s("n")).name, "name");
    assert_eq!(placeholder(s("p")).name, "placeholder");
    assert_eq!(checked(true).name, "checked");
    assert_eq!(checked(true).value, Property::Bool(true));
    assert_eq!(value(Property::String(s("v"))).name, "value");
}

#[test]
fn property_numbers_compare_as_doubles() {
    let nan = f64::NAN.to_bits();
    let zero = 0.0f64.to_bits();
    let neg_zero = (-0.0f64).to_bits();
    let one = 1.0f64.to_bits();
    assert!(!number_equals(nan, nan));
    assert!(number_equals(zero, neg_zero));
    assert!(number_equals(one, one));
    assert!(!number_equals(one, zero));
    assert!(Property::Number(zero) == Property::Number(neg_zero));
    assert!(Property::Number(nan) != Property::Number(nan));
    assert!(Property::String(s("1")) != Property::Number(one));
    assert!(Property::from_bool(true).equals(&Property::Bool(true)));
}

#[test]
fn attributes_are_collected_in_order() {
    let ops: Vec<AttrOp<()>> = collect_attributes((
        attribute(s("a"), Attribute::String(s("1"))),
        Some(siro::attr::class(s("c"))),
        None::<siro::attr::Class>,
        Either::<siro::attr::Style, siro::attr::InnerHtml>::Left(siro::attr::style(s("k"), s("v"))),
    ));
    assert_eq!(ops.len(), 3);
    match &ops[0] {
        AttrOp::Attribute { name, value } => {
            assert_eq!(name, "a");
            assert_eq!(value, &Attribute::String(s("1")));
        }
        _ => panic!("expected an attribute"),
    }
    assert!(matches!(&ops[1], AttrOp::Class { class_name } if class_name == "c"));
    assert!(matches!(&ops[2], AttrOp::Style { name, value } if name == "k" && value == "v"));
}

#[test]
fn conditional_values() {
    assert_eq!(siro::types::if_then(true, || 3), Some(3));
    assert_eq!(siro::types::if_then(false, || 3), None);
    assert!(matches!(siro::types::if_else(true, || 1, || "b"), Either::Left(1)));
    assert!(matches!(siro::types::if_else(false, || 1, || "b"), Either::Right("b")));
}
