//! SVG elements and attributes.
use crate::attr::{attribute, Attribute, Attributes};
use crate::decimal::{decimal, i32_to_decimal};
use crate::node::{element, Element, Nodes};
use crate::render::{create_node_patches, join_items, join_strings, strings_view, PatchView};
use crate::types::{self, AttributeView};
use vstd::prelude::*;

verus! {

/// The namespace of SVG elements.
pub const SVG_NAMESPACE_URI: &'static str = "http://www.w3.org/2000/svg";

/// Create a `Nodes` of an SVG element: an element in the SVG namespace.
pub fn svg_element<A, C>(tag_name: String, attr: A, children: C) -> (r: Element<A, C>)
    ensures
        r.tag_name == tag_name,
        r.namespace_uri matches Some(ns) && ns@ == SVG_NAMESPACE_URI@,
        r.attr == attr,
        r.children == children,
{
    element(tag_name, Some(SVG_NAMESPACE_URI.to_owned()), attr, children)
}

/// Create a `Nodes` of a [`<circle>`](https://developer.mozilla.org/en-US/docs/Web/SVG/Element/circle) element.
pub fn circle<A, C>(attr: A, children: C) -> (r: Element<A, C>)
    ensures
        r.tag_name@ == "circle"@,
        r.namespace_uri matches Some(ns) && ns@ == SVG_NAMESPACE_URI@,
        r.attr == attr,
        r.children == children,
{
    svg_element("circle".to_owned(), attr, children)
}

/// Create a `Nodes` of a [`<rect>`](https://developer.mozilla.org/en-US/docs/Web/SVG/Element/rect) element.
pub fn rect<A, C>(attr: A, children: C) -> (r: Element<A, C>)
    ensures
        r.tag_name@ == "rect"@,
        r.namespace_uri matches Some(ns) && ns@ == SVG_NAMESPACE_URI@,
        r.attr == attr,
        r.children == children,
{
    svg_element("rect".to_owned(), attr, children)
}

/// Create a `Nodes` of a [`<line>`](https://developer.mozilla.org/en-US/docs/Web/SVG/Element/line) element.
pub fn line<A, C>(attr: A, children: C) -> (r: Element<A, C>)
    ensures
        r.tag_name@ == "line"@,
        r.namespace_uri matches Some(ns) && ns@ == SVG_NAMESPACE_URI@,
        r.attr == attr,
        r.children == children,
{
    svg_element("line".to_owned(), attr, children)
}

/// Create a `Nodes` of a [`<polyline>`](https://developer.mozilla.org/en-US/docs/Web/SVG/Element/polyline) element.
pub fn polyline<A, C>(attr: A, children: C) -> (r: Element<A, C>)
    ensures
        r.tag_name@ == "polyline"@,
        r.namespace_uri matches Some(ns) && ns@ == SVG_NAMESPACE_URI@,
        r.attr == attr,
        r.children == children,
{
    svg_element("polyline".to_owned(), attr, children)
}

/// Create a `Nodes` of a [`<text>`](https://developer.mozilla.org/en-US/docs/Web/SVG/Element/text) element.
pub fn text<A, C>(attr: A, children: C) -> (r: Element<A, C>)
    ensures
        r.tag_name@ == "text"@,
        r.namespace_uri matches Some(ns) && ns@ == SVG_NAMESPACE_URI@,
        r.attr == attr,
        r.children == children,
{
    svg_element("text".to_owned(), attr, children)
}

/// Create a `Nodes` of an [`<svg>`](https://developer.mozilla.org/en-US/docs/Web/SVG/Element/svg) element.
pub fn svg<A, C>(attr: A, children: C) -> (r: Element<A, C>)
    ensures
        r.tag_name@ == "svg"@,
        r.namespace_uri matches Some(ns) && ns@ == SVG_NAMESPACE_URI@,
        r.attr == attr,
        r.children == children,
{
    svg_element("svg".to_owned(), attr, children)
}

/// The `viewbox` attribute: `min_x min_y width height`.
pub fn viewbox(min_x: i32, min_y: i32, width: i32, height: i32) -> (r: Attribute)
    ensures
        r.name@ == "viewbox"@,
        r.value@ == AttributeView::String(
            decimal(min_x as int) + " "@ + decimal(min_y as int) + " "@ + decimal(width as int)
                + " "@ + decimal(height as int),
        ),
{
    let mut s = i32_to_decimal(min_x);
    s.append(" ");
    s.append(i32_to_decimal(min_y).as_str());
    s.append(" ");
    s.append(i32_to_decimal(width).as_str());
    s.append(" ");
    s.append(i32_to_decimal(height).as_str());
    attribute("viewbox".to_owned(), types::Attribute::String(s))
}

/// The items `x,y` of a list of points.
pub open spec fn point_items(points: Seq<(i32, i32)>) -> Seq<Seq<char>> {
    Seq::new(points.len(), |i: int| decimal(points[i].0 as int) + ","@ + decimal(points[i].1 as int))
}

/// The `points` attribute: the points `x,y` separated by `, `.
pub fn points(pts: Vec<(i32, i32)>) -> (r: Attribute)
    ensures
        r.name@ == "points"@,
        r.value@ == AttributeView::String(join_items(point_items(pts@), ", "@)),
{
    let mut items: Vec<String> = Vec::new();
    let mut i: usize = 0;
    while i < pts.len()
        invariant
            i <= pts@.len(),
            items@.len() == i,
            forall|j: int| 0 <= j < i ==> (#[trigger] items@[j])@ == point_items(pts@)[j],
        decreases pts@.len() - i,
    {
        let (x, y) = pts[i];
        let mut item = i32_to_decimal(x);
        item.append(",");
        item.append(i32_to_decimal(y).as_str());
        items.push(item);
        i = i + 1;
    }
    assert(strings_view(items@) =~= point_items(pts@));
    attribute("points".to_owned(), types::Attribute::String(join_strings(&items, ", ")))
}

/// The decimal notation of each value.
pub open spec fn decimal_items(values: Seq<i32>) -> Seq<Seq<char>> {
    Seq::new(values.len(), |i: int| decimal(values[i] as int))
}

/// The `stroke-dasharray` attribute: the values separated by spaces.
pub fn stroke_dasharray(values: Vec<i32>) -> (r: Attribute)
    ensures
        r.name@ == "stroke-dasharray"@,
        r.value@ == AttributeView::String(join_items(decimal_items(values@), " "@)),
{
    let mut items: Vec<String> = Vec::new();
    let mut i: usize = 0;
    while i < values.len()
        invariant
            i <= values@.len(),
            items@.len() == i,
            forall|j: int| 0 <= j < i ==> (#[trigger] items@[j])@ == decimal_items(values@)[j],
        decreases values@.len() - i,
    {
        items.push(i32_to_decimal(values[i]));
        i = i + 1;
    }
    assert(strings_view(items@) =~= decimal_items(values@));
    attribute("stroke-dasharray".to_owned(), types::Attribute::String(join_strings(&items, " ")))
}

/// An attribute holding the decimal notation of a length.
fn length_attribute(name: &str, val: i32) -> (r: Attribute)
    ensures
        r.name@ == name@,
        r.value@ == AttributeView::String(decimal(val as int)),
{
    attribute(name.to_owned(), types::Attribute::String(i32_to_decimal(val)))
}

/// The `width` attribute.
pub fn width(val: i32) -> (r: Attribute)
    ensures
        r.name@ == "width"@,
        r.value@ == AttributeView::String(decimal(val as int)),
{
    length_attribute("width", val)
}

/// The `height` attribute.
pub fn height(val: i32) -> (r: Attribute)
    ensures
        r.name@ == "height"@,
        r.value@ == AttributeView::String(decimal(val as int)),
{
    length_attribute("height", val)
}

/// The `x` attribute.
pub fn x(val: i32) -> (r: Attribute)
    ensures
        r.name@ == "x"@,
        r.value@ == AttributeView::String(decimal(val as int)),
{
    length_attribute("x", val)
}

/// The `y` attribute.
pub fn y(val: i32) -> (r: Attribute)
    ensures
        r.name@ == "y"@,
        r.value@ == AttributeView::String(decimal(val as int)),
{
    length_attribute("y", val)
}

/// The `x1` attribute.
pub fn x1(val: i32) -> (r: Attribute)
    ensures
        r.name@ == "x1"@,
        r.value@ == AttributeView::String(decimal(val as int)),
{
    length_attribute("x1", val)
}

/// The `y1` attribute.
pub fn y1(val: i32) -> (r: Attribute)
    ensures
        r.name@ == "y1"@,
        r.value@ == AttributeView::String(decimal(val as int)),
{
    length_attribute("y1", val)
}

/// The `x2` attribute.
pub fn x2(val: i32) -> (r: Attribute)
    ensures
        r.name@ == "x2"@,
        r.value@ == AttributeView::String(decimal(val as int)),
{
    length_attribute("x2", val)
}

/// The `y2` attribute.
pub fn y2(val: i32) -> (r: Attribute)
    ensures
        r.name@ == "y2"@,
        r.value@ == AttributeView::String(decimal(val as int)),
{
    length_attribute("y2", val)
}

/// The `cx` attribute.
pub fn cx(val: i32) -> (r: Attribute)
    ensures
        r.name@ == "cx"@,
        r.value@ == AttributeView::String(decimal(val as int)),
{
    length_attribute("cx", val)
}

/// The `cy` attribute.
pub fn cy(val: i32) -> (r: Attribute)
    ensures
        r.name@ == "cy"@,
        r.value@ == AttributeView::String(decimal(val as int)),
{
    length_attribute("cy", val)
}

/// The `r` attribute.
pub fn r(val: i32) -> (res: Attribute)
    ensures
        res.name@ == "r"@,
        res.value@ == AttributeView::String(decimal(val as int)),
{
    length_attribute("r", val)
}

/// The `stroke-width` attribute.
pub fn stroke_width(val: i32) -> (r: Attribute)
    ensures
        r.name@ == "stroke-width"@,
        r.value@ == AttributeView::String(decimal(val as int)),
{
    length_attribute("stroke-width", val)
}

/// An attribute holding a string.
fn string_attribute(name: &str, val: String) -> (r: Attribute)
    ensures
        r.name@ == name@,
        r.value@ == AttributeView::String(val@),
{
    attribute(name.to_owned(), types::Attribute::String(val))
}

/// The `fill` attribute.
pub fn fill(val: String) -> (r: Attribute)
    ensures
        r.name@ == "fill"@,
        r.value@ == AttributeView::String(val@),
{
    string_attribute("fill", val)
}

/// The `stroke` attribute.
pub fn stroke(val: String) -> (r: Attribute)
    ensures
        r.name@ == "stroke"@,
        r.value@ == AttributeView::String(val@),
{
    string_attribute("stroke", val)
}

/// The `text-anchor` attribute.
pub fn text_anchor(val: String) -> (r: Attribute)
    ensures
        r.name@ == "text-anchor"@,
        r.value@ == AttributeView::String(val@),
{
    string_attribute("text-anchor", val)
}

/// The `dominant-baseline` attribute.
pub fn dominant_baseline(val: String) -> (r: Attribute)
    ensures
        r.name@ == "dominant-baseline"@,
        r.value@ == AttributeView::String(val@),
{
    string_attribute("dominant-baseline", val)
}

/// The `stroke-linecap` attribute.
pub fn stroke_linecap(val: String) -> (r: Attribute)
    ensures
        r.name@ == "stroke-linecap"@,
        r.value@ == AttributeView::String(val@),
{
    string_attribute("stroke-linecap", val)
}

/// The `transform` attribute.
pub fn transform(val: String) -> (r: Attribute)
    ensures
        r.name@ == "transform"@,
        r.value@ == AttributeView::String(val@),
{
    string_attribute("transform", val)
}

/// An element in the SVG namespace is drawn as SVG: it renders to one node in
/// that namespace, and creating that node begins with creating an element of
/// its tag name in the SVG namespace.
pub proof fn law_svg_elements_are_created_in_svg_namespace<D, A: Attributes<D>, C: Nodes<D>>(
    e: Element<A, C>,
    parent: nat,
    id: nat,
)
    requires
        e.namespace_uri matches Some(ns) && ns@ == SVG_NAMESPACE_URI@,
    ensures
        e.nodes().len() == 1,
        create_node_patches(e.nodes()[0], parent, id).0.len() > 0,
        create_node_patches(e.nodes()[0], parent, id).0[0] == (PatchView::<D>::CreateElement {
            node: id,
            tag_name: e.tag_name@,
            namespace_uri: Some(SVG_NAMESPACE_URI@),
        }),
{
}

} // verus!
