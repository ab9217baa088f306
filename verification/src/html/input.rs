//! `<input>` elements with a specific type.
use crate::attr::{attribute, Attribute};
use crate::html::html_element;
use crate::node::Element;
use crate::types::{self, AttributeView};
use vstd::prelude::*;

verus! {

/// An `<input>` element of type `input_type`, with no children.
fn typed_input<A>(input_type: &str, attr: A) -> (r: Element<(Attribute, A), ()>)
    ensures
        r.tag_name@ == "input"@,
        r.namespace_uri is None,
        r.attr.0.name@ == "type"@,
        r.attr.0.value@ == AttributeView::String(input_type@),
        r.attr.1 == attr,
{
    html_element(
        "input".to_owned(),
        (attribute("type".to_owned(), types::Attribute::String(input_type.to_owned())), attr),
        (),
    )
}

/// Create a `Nodes` of an [`<input type="button">`](https://developer.mozilla.org/en-US/docs/Web/HTML/Element/input/button) element.
pub fn button<A>(attributes: A) -> (r: Element<(Attribute, A), ()>)
    ensures
        r.tag_name@ == "input"@,
        r.namespace_uri is None,
        r.attr.0.name@ == "type"@,
        r.attr.0.value@ == AttributeView::String("button"@),
        r.attr.1 == attributes,
{
    typed_input("button", attributes)
}

/// Create a `Nodes` of an [`<input type="checkbox">`](https://developer.mozilla.org/en-US/docs/Web/HTML/Element/input/checkbox) element.
pub fn checkbox<A>(attributes: A) -> (r: Element<(Attribute, A), ()>)
    ensures
        r.tag_name@ == "input"@,
        r.namespace_uri is None,
        r.attr.0.name@ == "type"@,
        r.attr.0.value@ == AttributeView::String("checkbox"@),
        r.attr.1 == attributes,
{
    typed_input("checkbox", attributes)
}

/// Create a `Nodes` of an [`<input type="color">`](https://developer.mozilla.org/en-US/docs/Web/HTML/Element/input/color) element.
pub fn color<A>(attributes: A) -> (r: Element<(Attribute, A), ()>)
    ensures
        r.tag_name@ == "input"@,
        r.namespace_uri is None,
        r.attr.0.name@ == "type"@,
        r.attr.0.value@ == AttributeView::String("color"@),
        r.attr.1 == attributes,
{
    typed_input("color", attributes)
}

/// Create a `Nodes` of an [`<input type="date">`](https://developer.mozilla.org/en-US/docs/Web/HTML/Element/input/date) element.
pub fn date<A>(attributes: A) -> (r: Element<(Attribute, A), ()>)
    ensures
        r.tag_name@ == "input"@,
        r.namespace_uri is None,
        r.attr.0.name@ == "type"@,
        r.attr.0.value@ == AttributeView::String("date"@),
        r.attr.1 == attributes,
{
    typed_input("date", attributes)
}

/// Create a `Nodes` of an [`<input type="email">`](https://developer.mozilla.org/en-US/docs/Web/HTML/Element/input/email) element.
pub fn email<A>(attributes: A) -> (r: Element<(Attribute, A), ()>)
    ensures
        r.tag_name@ == "input"@,
        r.namespace_uri is None,
        r.attr.0.name@ == "type"@,
        r.attr.0.value@ == AttributeView::String("email"@),
        r.attr.1 == attributes,
{
    typed_input("email", attributes)
}

/// Create a `Nodes` of an [`<input type="file">`](https://developer.mozilla.org/en-US/docs/Web/HTML/Element/input/file) element.
pub fn file<A>(attributes: A) -> (r: Element<(Attribute, A), ()>)
    ensures
        r.tag_name@ == "input"@,
        r.namespace_uri is None,
        r.attr.0.name@ == "type"@,
        r.attr.0.value@ == AttributeView::String("file"@),
        r.attr.1 == attributes,
{
    typed_input("file", attributes)
}

/// Create a `Nodes` of an [`<input type="hidden">`](https://developer.mozilla.org/en-US/docs/Web/HTML/Element/input/hidden) element.
pub fn hidden<A>(attributes: A) -> (r: Element<(Attribute, A), ()>)
    ensures
        r.tag_name@ == "input"@,
        r.namespace_uri is None,
        r.attr.0.name@ == "type"@,
        r.attr.0.value@ == AttributeView::String("hidden"@),
        r.attr.1 == attributes,
{
    typed_input("hidden", attributes)
}

/// Create a `Nodes` of an [`<input type="image">`](https://developer.mozilla.org/en-US/docs/Web/HTML/Element/input/image) element.
pub fn image<A>(attributes: A) -> (r: Element<(Attribute, A), ()>)
    ensures
        r.tag_name@ == "input"@,
        r.namespace_uri is None,
        r.attr.0.name@ == "type"@,
        r.attr.0.value@ == AttributeView::String("image"@),
        r.attr.1 == attributes,
{
    typed_input("image", attributes)
}

/// Create a `Nodes` of an [`<input type="month">`](https://developer.mozilla.org/en-US/docs/Web/HTML/Element/input/month) element.
pub fn month<A>(attributes: A) -> (r: Element<(Attribute, A), ()>)
    ensures
        r.tag_name@ == "input"@,
        r.namespace_uri is None,
        r.attr.0.name@ == "type"@,
        r.attr.0.value@ == AttributeView::String("month"@),
        r.attr.1 == attributes,
{
    typed_input("month", attributes)
}

/// Create a `Nodes` of an [`<input type="number">`](https://developer.mozilla.org/en-US/docs/Web/HTML/Element/input/number) element.
pub fn number<A>(attributes: A) -> (r: Element<(Attribute, A), ()>)
    ensures
        r.tag_name@ == "input"@,
        r.namespace_uri is None,
        r.attr.0.name@ == "type"@,
        r.attr.0.value@ == AttributeView::String("number"@),
        r.attr.1 == attributes,
{
    typed_input("number", attributes)
}

/// Create a `Nodes` of an [`<input type="password">`](https://developer.mozilla.org/en-US/docs/Web/HTML/Element/input/password) element.
pub fn password<A>(attributes: A) -> (r: Element<(Attribute, A), ()>)
    ensures
        r.tag_name@ == "input"@,
        r.namespace_uri is None,
        r.attr.0.name@ == "type"@,
        r.attr.0.value@ == AttributeView::String("password"@),
        r.attr.1 == attributes,
{
    typed_input("password", attributes)
}

/// Create a `Nodes` of an [`<input type="radio">`](https://developer.mozilla.org/en-US/docs/Web/HTML/Element/input/radio) element.
pub fn radio<A>(attributes: A) -> (r: Element<(Attribute, A), ()>)
    ensures
        r.tag_name@ == "input"@,
        r.namespace_uri is None,
        r.attr.0.name@ == "type"@,
        r.attr.0.value@ == AttributeView::String("radio"@),
        r.attr.1 == attributes,
{
    typed_input("radio", attributes)
}

/// Create a `Nodes` of an [`<input type="range">`](https://developer.mozilla.org/en-US/docs/Web/HTML/Element/input/range) element.
pub fn range<A>(attributes: A) -> (r: Element<(Attribute, A), ()>)
    ensures
        r.tag_name@ == "input"@,
        r.namespace_uri is None,
        r.attr.0.name@ == "type"@,
        r.attr.0.value@ == AttributeView::String("range"@),
        r.attr.1 == attributes,
{
    typed_input("range", attributes)
}

/// Create a `Nodes` of an [`<input type="reset">`](https://developer.mozilla.org/en-US/docs/Web/HTML/Element/input/reset) element.
pub fn reset<A>(attributes: A) -> (r: Element<(Attribute, A), ()>)
    ensures
        r.tag_name@ == "input"@,
        r.namespace_uri is None,
        r.attr.0.name@ == "type"@,
        r.attr.0.value@ == AttributeView::String("reset"@),
        r.attr.1 == attributes,
{
    typed_input("reset", attributes)
}

/// Create a `Nodes` of an [`<input type="search">`](https://developer.mozilla.org/en-US/docs/Web/HTML/Element/input/search) element.
pub fn search<A>(attributes: A) -> (r: Element<(Attribute, A), ()>)
    ensures
        r.tag_name@ == "input"@,
        r.namespace_uri is None,
        r.attr.0.name@ == "type"@,
        r.attr.0.value@ == AttributeView::String("search"@),
        r.attr.1 == attributes,
{
    typed_input("search", attributes)
}

/// Create a `Nodes` of an [`<input type="submit">`](https://developer.mozilla.org/en-US/docs/Web/HTML/Element/input/submit) element.
pub fn submit<A>(attributes: A) -> (r: Element<(Attribute, A), ()>)
    ensures
        r.tag_name@ == "input"@,
        r.namespace_uri is None,
        r.attr.0.name@ == "type"@,
        r.attr.0.value@ == AttributeView::String("submit"@),
        r.attr.1 == attributes,
{
    typed_input("submit", attributes)
}

/// Create a `Nodes` of an [`<input type="tel">`](https://developer.mozilla.org/en-US/docs/Web/HTML/Element/input/tel) element.
pub fn tel<A>(attributes: A) -> (r: Element<(Attribute, A), ()>)
    ensures
        r.tag_name@ == "input"@,
        r.namespace_uri is None,
        r.attr.0.name@ == "type"@,
        r.attr.0.value@ == AttributeView::String("tel"@),
        r.attr.1 == attributes,
{
    typed_input("tel", attributes)
}

/// Create a `Nodes` of an [`<input type="text">`](https://developer.mozilla.org/en-US/docs/Web/HTML/Element/input/text) element.
pub fn text<A>(attributes: A) -> (r: Element<(Attribute, A), ()>)
    ensures
        r.tag_name@ == "input"@,
        r.namespace_uri is None,
        r.attr.0.name@ == "type"@,
        r.attr.0.value@ == AttributeView::String("text"@),
        r.attr.1 == attributes,
{
    typed_input("text", attributes)
}

/// Create a `Nodes` of an [`<input type="time">`](https://developer.mozilla.org/en-US/docs/Web/HTML/Element/input/time) element.
pub fn time<A>(attributes: A) -> (r: Element<(Attribute, A), ()>)
    ensures
        r.tag_name@ == "input"@,
        r.namespace_uri is None,
        r.attr.0.name@ == "type"@,
        r.attr.0.value@ == AttributeView::String("time"@),
        r.attr.1 == attributes,
{
    typed_input("time", attributes)
}

/// Create a `Nodes` of an [`<input type="url">`](https://developer.mozilla.org/en-US/docs/Web/HTML/Element/input/url) element.
pub fn url<A>(attributes: A) -> (r: Element<(Attribute, A), ()>)
    ensures
        r.tag_name@ == "input"@,
        r.namespace_uri is None,
        r.attr.0.name@ == "type"@,
        r.attr.0.value@ == AttributeView::String("url"@),
        r.attr.1 == attributes,
{
    typed_input("url", attributes)
}

/// Create a `Nodes` of an [`<input type="week">`](https://developer.mozilla.org/en-US/docs/Web/HTML/Element/input/week) element.
pub fn week<A>(attributes: A) -> (r: Element<(Attribute, A), ()>)
    ensures
        r.tag_name@ == "input"@,
        r.namespace_uri is None,
        r.attr.0.name@ == "type"@,
        r.attr.0.value@ == AttributeView::String("week"@),
        r.attr.1 == attributes,
{
    typed_input("week", attributes)
}

/// Create a `Nodes` of an [`<input type="datetime-local">`](https://developer.mozilla.org/en-US/docs/Web/HTML/Element/input/datetime-local) element.
pub fn datetime_local<A>(attributes: A) -> (r: Element<(Attribute, A), ()>)
    ensures
        r.tag_name@ == "input"@,
        r.namespace_uri is None,
        r.attr.0.name@ == "type"@,
        r.attr.0.value@ == AttributeView::String("datetime-local"@),
        r.attr.1 == attributes,
{
    typed_input("datetime-local", attributes)
}

} // verus!
