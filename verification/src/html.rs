//! HTML elements, attributes and events.
pub mod attr;
pub mod event;
pub mod input;

use crate::node::{element, Element};
use vstd::prelude::*;

verus! {

/// Create a `Nodes` of an HTML element: an element with no namespace.
pub fn html_element<A, C>(tag_name: String, attr: A, children: C) -> (r: Element<A, C>)
    ensures
        r.tag_name == tag_name,
        r.namespace_uri is None,
        r.attr == attr,
        r.children == children,
{
    element(tag_name, None, attr, children)
}

/// Create a `Nodes` of a [`<abbr>`](https://developer.mozilla.org/en-US/docs/Web/HTML/Element/abbr) element.
pub fn abbr<A, C>(attributes: A, children: C) -> (r: Element<A, C>)
    ensures
        r.tag_name@ == "abbr"@,
        r.namespace_uri is None,
        r.attr == attributes,
        r.children == children,
{
    html_element("abbr".to_owned(), attributes, children)
}

/// Create a `Nodes` of a [`<address>`](https://developer.mozilla.org/en-US/docs/Web/HTML/Element/address) element.
pub fn address<A, C>(attributes: A, children: C) -> (r: Element<A, C>)
    ensures
        r.tag_name@ == "address"@,
        r.namespace_uri is None,
        r.attr == attributes,
        r.children == children,
{
    html_element("address".to_owned(), attributes, children)
}

/// Create a `Nodes` of a [`<article>`](https://developer.mozilla.org/en-US/docs/Web/HTML/Element/article) element.
pub fn article<A, C>(attributes: A, children: C) -> (r: Element<A, C>)
    ensures
        r.tag_name@ == "article"@,
        r.namespace_uri is None,
        r.attr == attributes,
        r.children == children,
{
    html_element("article".to_owned(), attributes, children)
}

/// Create a `Nodes` of a [`<aside>`](https://developer.mozilla.org/en-US/docs/Web/HTML/Element/aside) element.
pub fn aside<A, C>(attributes: A, children: C) -> (r: Element<A, C>)
    ensures
        r.tag_name@ == "aside"@,
        r.namespace_uri is None,
        r.attr == attributes,
        r.children == children,
{
    html_element("aside".to_owned(), attributes, children)
}

/// Create a `Nodes` of a [`<b>`](https://developer.mozilla.org/en-US/docs/Web/HTML/Element/b) element.
pub fn b<A, C>(attributes: A, children: C) -> (r: Element<A, C>)
    ensures
        r.tag_name@ == "b"@,
        r.namespace_uri is None,
        r.attr == attributes,
        r.children == children,
{
    html_element("b".to_owned(), attributes, children)
}

/// Create a `Nodes` of a [`<bdi>`](https://developer.mozilla.org/en-US/docs/Web/HTML/Element/bdi) element.
pub fn bdi<A, C>(attributes: A, children: C) -> (r: Element<A, C>)
    ensures
        r.tag_name@ == "bdi"@,
        r.namespace_uri is None,
        r.attr == attributes,
        r.children == children,
{
    html_element("bdi".to_owned(), attributes, children)
}

/// Create a `Nodes` of a [`<bdo>`](https://developer.mozilla.org/en-US/docs/Web/HTML/Element/bdo) element.
pub fn bdo<A, C>(attributes: A, children: C) -> (r: Element<A, C>)
    ensures
        r.tag_name@ == "bdo"@,
        r.namespace_uri is None,
        r.attr == attributes,
        r.children == children,
{
    html_element("bdo".to_owned(), attributes, children)
}

/// Create a `Nodes` of a [`<cite>`](https://developer.mozilla.org/en-US/docs/Web/HTML/Element/cite) element.
pub fn cite<A, C>(attributes: A, children: C) -> (r: Element<A, C>)
    ensures
        r.tag_name@ == "cite"@,
        r.namespace_uri is None,
        r.attr == attributes,
        r.children == children,
{
    html_element("cite".to_owned(), attributes, children)
}

/// Create a `Nodes` of a [`<code>`](https://developer.mozilla.org/en-US/docs/Web/HTML/Element/code) element.
pub fn code<A, C>(attributes: A, children: C) -> (r: Element<A, C>)
    ensures
        r.tag_name@ == "code"@,
        r.namespace_uri is None,
        r.attr == attributes,
        r.children == children,
{
    html_element("code".to_owned(), attributes, children)
}

/// Create a `Nodes` of a [`<dd>`](https://developer.mozilla.org/en-US/docs/Web/HTML/Element/dd) element.
pub fn dd<A, C>(attributes: A, children: C) -> (r: Element<A, C>)
    ensures
        r.tag_name@ == "dd"@,
        r.namespace_uri is None,
        r.attr == attributes,
        r.children == children,
{
    html_element("dd".to_owned(), attributes, children)
}

/// Create a `Nodes` of a [`<dfn>`](https://developer.mozilla.org/en-US/docs/Web/HTML/Element/dfn) element.
pub fn dfn<A, C>(attributes: A, children: C) -> (r: Element<A, C>)
    ensures
        r.tag_name@ == "dfn"@,
        r.namespace_uri is None,
        r.attr == attributes,
        r.children == children,
{
    html_element("dfn".to_owned(), attributes, children)
}

/// Create a `Nodes` of a [`<dt>`](https://developer.mozilla.org/en-US/docs/Web/HTML/Element/dt) element.
pub fn dt<A, C>(attributes: A, children: C) -> (r: Element<A, C>)
    ensures
        r.tag_name@ == "dt"@,
        r.namespace_uri is None,
        r.attr == attributes,
        r.children == children,
{
    html_element("dt".to_owned(), attributes, children)
}

/// Create a `Nodes` of a [`<em>`](https://developer.mozilla.org/en-US/docs/Web/HTML/Element/em) element.
pub fn em<A, C>(attributes: A, children: C) -> (r: Element<A, C>)
    ensures
        r.tag_name@ == "em"@,
        r.namespace_uri is None,
        r.attr == attributes,
        r.children == children,
{
    html_element("em".to_owned(), attributes, children)
}

/// Create a `Nodes` of a [`<figcaption>`](https://developer.mozilla.org/en-US/docs/Web/HTML/Element/figcaption) element.
pub fn figcaption<A, C>(attributes: A, children: C) -> (r: Element<A, C>)
    ensures
        r.tag_name@ == "figcaption"@,
        r.namespace_uri is None,
        r.attr == attributes,
        r.children == children,
{
    html_element("figcaption".to_owned(), attributes, children)
}

/// Create a `Nodes` of a [`<figure>`](https://developer.mozilla.org/en-US/docs/Web/HTML/Element/figure) element.
pub fn figure<A, C>(attributes: A, children: C) -> (r: Element<A, C>)
    ensures
        r.tag_name@ == "figure"@,
        r.namespace_uri is None,
        r.attr == attributes,
        r.children == children,
{
    html_element("figure".to_owned(), attributes, children)
}

/// Create a `Nodes` of a [`<footer>`](https://developer.mozilla.org/en-US/docs/Web/HTML/Element/footer) element.
pub fn footer<A, C>(attributes: A, children: C) -> (r: Element<A, C>)
    ensures
        r.tag_name@ == "footer"@,
        r.namespace_uri is None,
        r.attr == attributes,
        r.children == children,
{
    html_element("footer".to_owned(), attributes, children)
}

/// Create a `Nodes` of a [`<header>`](https://developer.mozilla.org/en-US/docs/Web/HTML/Element/header) element.
pub fn header<A, C>(attributes: A, children: C) -> (r: Element<A, C>)
    ensures
        r.tag_name@ == "header"@,
        r.namespace_uri is None,
        r.attr == attributes,
        r.children == children,
{
    html_element("header".to_owned(), attributes, children)
}

/// Create a `Nodes` of a [`<i>`](https://developer.mozilla.org/en-US/docs/Web/HTML/Element/i) element.
pub fn i<A, C>(attributes: A, children: C) -> (r: Element<A, C>)
    ensures
        r.tag_name@ == "i"@,
        r.namespace_uri is None,
        r.attr == attributes,
        r.children == children,
{
    html_element("i".to_owned(), attributes, children)
}

/// Create a `Nodes` of a [`<kbd>`](https://developer.mozilla.org/en-US/docs/Web/HTML/Element/kbd) element.
pub fn kbd<A, C>(attributes: A, children: C) -> (r: Element<A, C>)
    ensures
        r.tag_name@ == "kbd"@,
        r.namespace_uri is None,
        r.attr == attributes,
        r.children == children,
{
    html_element("kbd".to_owned(), attributes, children)
}

/// Create a `Nodes` of a [`<link>`](https://developer.mozilla.org/en-US/docs/Web/HTML/Element/link) element.
pub fn link<A, C>(attributes: A, children: C) -> (r: Element<A, C>)
    ensures
        r.tag_name@ == "link"@,
        r.namespace_uri is None,
        r.attr == attributes,
        r.children == children,
{
    html_element("link".to_owned(), attributes, children)
}

/// Create a `Nodes` of a [`<main>`](https://developer.mozilla.org/en-US/docs/Web/HTML/Element/main) element.
pub fn main<A, C>(attributes: A, children: C) -> (r: Element<A, C>)
    ensures
        r.tag_name@ == "main"@,
        r.namespace_uri is None,
        r.attr == attributes,
        r.children == children,
{
    html_element("main".to_owned(), attributes, children)
}

/// Create a `Nodes` of a [`<mark>`](https://developer.mozilla.org/en-US/docs/Web/HTML/Element/mark) element.
pub fn mark<A, C>(attributes: A, children: C) -> (r: Element<A, C>)
    ensures
        r.tag_name@ == "mark"@,
        r.namespace_uri is None,
        r.attr == attributes,
        r.children == children,
{
    html_element("mark".to_owned(), attributes, children)
}

/// Create a `Nodes` of a [`<nav>`](https://developer.mozilla.org/en-US/docs/Web/HTML/Element/nav) element.
pub fn nav<A, C>(attributes: A, children: C) -> (r: Element<A, C>)
    ensures
        r.tag_name@ == "nav"@,
        r.namespace_uri is None,
        r.attr == attributes,
        r.children == children,
{
    html_element("nav".to_owned(), attributes, children)
}

/// Create a `Nodes` of a [`<noscript>`](https://developer.mozilla.org/en-US/docs/Web/HTML/Element/noscript) element.
pub fn noscript<A, C>(attributes: A, children: C) -> (r: Element<A, C>)
    ensures
        r.tag_name@ == "noscript"@,
        r.namespace_uri is None,
        r.attr == attributes,
        r.children == children,
{
    html_element("noscript".to_owned(), attributes, children)
}

/// Create a `Nodes` of a [`<rb>`](https://developer.mozilla.org/en-US/docs/Web/HTML/Element/rb) element.
pub fn rb<A, C>(attributes: A, children: C) -> (r: Element<A, C>)
    ensures
        r.tag_name@ == "rb"@,
        r.namespace_uri is None,
        r.attr == attributes,
        r.children == children,
{
    html_element("rb".to_owned(), attributes, children)
}

/// Create a `Nodes` of a [`<rp>`](https://developer.mozilla.org/en-US/docs/Web/HTML/Element/rp) element.
pub fn rp<A, C>(attributes: A, children: C) -> (r: Element<A, C>)
    ensures
        r.tag_name@ == "rp"@,
        r.namespace_uri is None,
        r.attr == attributes,
        r.children == children,
{
    html_element("rp".to_owned(), attributes, children)
}

/// Create a `Nodes` of a [`<rt>`](https://developer.mozilla.org/en-US/docs/Web/HTML/Element/rt) element.
pub fn rt<A, C>(attributes: A, children: C) -> (r: Element<A, C>)
    ensures
        r.tag_name@ == "rt"@,
        r.namespace_uri is None,
        r.attr == attributes,
        r.children == children,
{
    html_element("rt".to_owned(), attributes, children)
}

/// Create a `Nodes` of a [`<rtc>`](https://developer.mozilla.org/en-US/docs/Web/HTML/Element/rtc) element.
pub fn rtc<A, C>(attributes: A, children: C) -> (r: Element<A, C>)
    ensures
        r.tag_name@ == "rtc"@,
        r.namespace_uri is None,
        r.attr == attributes,
        r.children == children,
{
    html_element("rtc".to_owned(), attributes, children)
}

/// Create a `Nodes` of a [`<ruby>`](https://developer.mozilla.org/en-US/docs/Web/HTML/Element/ruby) element.
pub fn ruby<A, C>(attributes: A, children: C) -> (r: Element<A, C>)
    ensures
        r.tag_name@ == "ruby"@,
        r.namespace_uri is None,
        r.attr == attributes,
        r.children == children,
{
    html_element("ruby".to_owned(), attributes, children)
}

/// Create a `Nodes` of a [`<s>`](https://developer.mozilla.org/en-US/docs/Web/HTML/Element/s) element.
pub fn s<A, C>(attributes: A, children: C) -> (r: Element<A, C>)
    ensures
        r.tag_name@ == "s"@,
        r.namespace_uri is None,
        r.attr == attributes,
        r.children == children,
{
    html_element("s".to_owned(), attributes, children)
}

/// Create a `Nodes` of a [`<samp>`](https://developer.mozilla.org/en-US/docs/Web/HTML/Element/samp) element.
pub fn samp<A, C>(attributes: A, children: C) -> (r: Element<A, C>)
    ensures
        r.tag_name@ == "samp"@,
        r.namespace_uri is None,
        r.attr == attributes,
        r.children == children,
{
    html_element("samp".to_owned(), attributes, children)
}

/// Create a `Nodes` of a [`<section>`](https://developer.mozilla.org/en-US/docs/Web/HTML/Element/section) element.
pub fn section<A, C>(attributes: A, children: C) -> (r: Element<A, C>)
    ensures
        r.tag_name@ == "section"@,
        r.namespace_uri is None,
        r.attr == attributes,
        r.children == children,
{
    html_element("section".to_owned(), attributes, children)
}

/// Create a `Nodes` of a [`<small>`](https://developer.mozilla.org/en-US/docs/Web/HTML/Element/small) element.
pub fn small<A, C>(attributes: A, children: C) -> (r: Element<A, C>)
    ensures
        r.tag_name@ == "small"@,
        r.namespace_uri is None,
        r.attr == attributes,
        r.children == children,
{
    html_element("small".to_owned(), attributes, children)
}

/// Create a `Nodes` of a [`<strong>`](https://developer.mozilla.org/en-US/docs/Web/HTML/Element/strong) element.
pub fn strong<A, C>(attributes: A, children: C) -> (r: Element<A, C>)
    ensures
        r.tag_name@ == "strong"@,
        r.namespace_uri is None,
        r.attr == attributes,
        r.children == children,
{
    html_element("strong".to_owned(), attributes, children)
}

/// Create a `Nodes` of a [`<sub>`](https://developer.mozilla.org/en-US/docs/Web/HTML/Element/sub) element.
pub fn sub<A, C>(attributes: A, children: C) -> (r: Element<A, C>)
    ensures
        r.tag_name@ == "sub"@,
        r.namespace_uri is None,
        r.attr == attributes,
        r.children == children,
{
    html_element("sub".to_owned(), attributes, children)
}

/// Create a `Nodes` of a [`<summary>`](https://developer.mozilla.org/en-US/docs/Web/HTML/Element/summary) element.
pub fn summary<A, C>(attributes: A, children: C) -> (r: Element<A, C>)
    ensures
        r.tag_name@ == "summary"@,
        r.namespace_uri is None,
        r.attr == attributes,
        r.children == children,
{
    html_element("summary".to_owned(), attributes, children)
}

/// Create a `Nodes` of a [`<sup>`](https://developer.mozilla.org/en-US/docs/Web/HTML/Element/sup) element.
pub fn sup<A, C>(attributes: A, children: C) -> (r: Element<A, C>)
    ensures
        r.tag_name@ == "sup"@,
        r.namespace_uri is None,
        r.attr == attributes,
        r.children == children,
{
    html_element("sup".to_owned(), attributes, children)
}

/// Create a `Nodes` of a [`<u>`](https://developer.mozilla.org/en-US/docs/Web/HTML/Element/u) element.
pub fn u<A, C>(attributes: A, children: C) -> (r: Element<A, C>)
    ensures
        r.tag_name@ == "u"@,
        r.namespace_uri is None,
        r.attr == attributes,
        r.children == children,
{
    html_element("u".to_owned(), attributes, children)
}

/// Create a `Nodes` of a [`<var>`](https://developer.mozilla.org/en-US/docs/Web/HTML/Element/var) element.
pub fn var<A, C>(attributes: A, children: C) -> (r: Element<A, C>)
    ensures
        r.tag_name@ == "var"@,
        r.namespace_uri is None,
        r.attr == attributes,
        r.children == children,
{
    html_element("var".to_owned(), attributes, children)
}

/// Create a `Nodes` of a [`<wbr>`](https://developer.mozilla.org/en-US/docs/Web/HTML/Element/wbr) element.
pub fn wbr<A, C>(attributes: A, children: C) -> (r: Element<A, C>)
    ensures
        r.tag_name@ == "wbr"@,
        r.namespace_uri is None,
        r.attr == attributes,
        r.children == children,
{
    html_element("wbr".to_owned(), attributes, children)
}

/// Create a `Nodes` of a [`<a>`](https://developer.mozilla.org/en-US/docs/Web/HTML/Element/a) element.
pub fn a<A, C>(attributes: A, children: C) -> (r: Element<A, C>)
    ensures
        r.tag_name@ == "a"@,
        r.namespace_uri is None,
        r.attr == attributes,
        r.children == children,
{
    html_element("a".to_owned(), attributes, children)
}

/// Create a `Nodes` of a [`<area>`](https://developer.mozilla.org/en-US/docs/Web/HTML/Element/area) element.
pub fn area<A, C>(attributes: A, children: C) -> (r: Element<A, C>)
    ensures
        r.tag_name@ == "area"@,
        r.namespace_uri is None,
        r.attr == attributes,
        r.children == children,
{
    html_element("area".to_owned(), attributes, children)
}

/// Create a `Nodes` of a [`<audio>`](https://developer.mozilla.org/en-US/docs/Web/HTML/Element/audio) element.
pub fn audio<A, C>(attributes: A, children: C) -> (r: Element<A, C>)
    ensures
        r.tag_name@ == "audio"@,
        r.namespace_uri is None,
        r.attr == attributes,
        r.children == children,
{
    html_element("audio".to_owned(), attributes, children)
}

/// Create a `Nodes` of a [`<blockquote>`](https://developer.mozilla.org/en-US/docs/Web/HTML/Element/blockquote) element.
pub fn blockquote<A, C>(attributes: A, children: C) -> (r: Element<A, C>)
    ensures
        r.tag_name@ == "blockquote"@,
        r.namespace_uri is None,
        r.attr == attributes,
        r.children == children,
{
    html_element("blockquote".to_owned(), attributes, children)
}

/// Create a `Nodes` of a [`<br>`](https://developer.mozilla.org/en-US/docs/Web/HTML/Element/br) element.
pub fn br<A, C>(attributes: A, children: C) -> (r: Element<A, C>)
    ensures
        r.tag_name@ == "br"@,
        r.namespace_uri is None,
        r.attr == attributes,
        r.children == children,
{
    html_element("br".to_owned(), attributes, children)
}

/// Create a `Nodes` of a [`<button>`](https://developer.mozilla.org/en-US/docs/Web/HTML/Element/button) element.
pub fn button<A, C>(attributes: A, children: C) -> (r: Element<A, C>)
    ensures
        r.tag_name@ == "button"@,
        r.namespace_uri is None,
        r.attr == attributes,
        r.children == children,
{
    html_element("button".to_owned(), attributes, children)
}

/// Create a `Nodes` of a [`<canvas>`](https://developer.mozilla.org/en-US/docs/Web/HTML/Element/canvas) element.
pub fn canvas<A, C>(attributes: A, children: C) -> (r: Element<A, C>)
    ensures
        r.tag_name@ == "canvas"@,
        r.namespace_uri is None,
        r.attr == attributes,
        r.children == children,
{
    html_element("canvas".to_owned(), attributes, children)
}

/// Create a `Nodes` of a [`<caption>`](https://developer.mozilla.org/en-US/docs/Web/HTML/Element/caption) element.
pub fn caption<A, C>(attributes: A, children: C) -> (r: Element<A, C>)
    ensures
        r.tag_name@ == "caption"@,
        r.namespace_uri is None,
        r.attr == attributes,
        r.children == children,
{
    html_element("caption".to_owned(), attributes, children)
}

/// Create a `Nodes` of a [`<col>`](https://developer.mozilla.org/en-US/docs/Web/HTML/Element/col) element.
pub fn col<A, C>(attributes: A, children: C) -> (r: Element<A, C>)
    ensures
        r.tag_name@ == "col"@,
        r.namespace_uri is None,
        r.attr == attributes,
        r.children == children,
{
    html_element("col".to_owned(), attributes, children)
}

/// Create a `Nodes` of a [`<colgroup>`](https://developer.mozilla.org/en-US/docs/Web/HTML/Element/colgroup) element.
pub fn colgroup<A, C>(attributes: A, children: C) -> (r: Element<A, C>)
    ensures
        r.tag_name@ == "colgroup"@,
        r.namespace_uri is None,
        r.attr == attributes,
        r.children == children,
{
    html_element("colgroup".to_owned(), attributes, children)
}

/// Create a `Nodes` of a [`<data>`](https://developer.mozilla.org/en-US/docs/Web/HTML/Element/data) element.
pub fn data<A, C>(attributes: A, children: C) -> (r: Element<A, C>)
    ensures
        r.tag_name@ == "data"@,
        r.namespace_uri is None,
        r.attr == attributes,
        r.children == children,
{
    html_element("data".to_owned(), attributes, children)
}

/// Create a `Nodes` of a [`<datalist>`](https://developer.mozilla.org/en-US/docs/Web/HTML/Element/datalist) element.
pub fn datalist<A, C>(attributes: A, children: C) -> (r: Element<A, C>)
    ensures
        r.tag_name@ == "datalist"@,
        r.namespace_uri is None,
        r.attr == attributes,
        r.children == children,
{
    html_element("datalist".to_owned(), attributes, children)
}

/// Create a `Nodes` of a [`<del>`](https://developer.mozilla.org/en-US/docs/Web/HTML/Element/del) element.
pub fn del<A, C>(attributes: A, children: C) -> (r: Element<A, C>)
    ensures
        r.tag_name@ == "del"@,
        r.namespace_uri is None,
        r.attr == attributes,
        r.children == children,
{
    html_element("del".to_owned(), attributes, children)
}

/// Create a `Nodes` of a [`<ins>`](https://developer.mozilla.org/en-US/docs/Web/HTML/Element/ins) element.
pub fn ins<A, C>(attributes: A, children: C) -> (r: Element<A, C>)
    ensures
        r.tag_name@ == "ins"@,
        r.namespace_uri is None,
        r.attr == attributes,
        r.children == children,
{
    html_element("ins".to_owned(), attributes, children)
}

/// Create a `Nodes` of a [`<details>`](https://developer.mozilla.org/en-US/docs/Web/HTML/Element/details) element.
pub fn details<A, C>(attributes: A, children: C) -> (r: Element<A, C>)
    ensures
        r.tag_name@ == "details"@,
        r.namespace_uri is None,
        r.attr == attributes,
        r.children == children,
{
    html_element("details".to_owned(), attributes, children)
}

/// Create a `Nodes` of a [`<dialog>`](https://developer.mozilla.org/en-US/docs/Web/HTML/Element/dialog) element.
pub fn dialog<A, C>(attributes: A, children: C) -> (r: Element<A, C>)
    ensures
        r.tag_name@ == "dialog"@,
        r.namespace_uri is None,
        r.attr == attributes,
        r.children == children,
{
    html_element("dialog".to_owned(), attributes, children)
}

/// Create a `Nodes` of a [`<div>`](https://developer.mozilla.org/en-US/docs/Web/HTML/Element/div) element.
pub fn div<A, C>(attributes: A, children: C) -> (r: Element<A, C>)
    ensures
        r.tag_name@ == "div"@,
        r.namespace_uri is None,
        r.attr == attributes,
        r.children == children,
{
    html_element("div".to_owned(), attributes, children)
}

/// Create a `Nodes` of a [`<dl>`](https://developer.mozilla.org/en-US/docs/Web/HTML/Element/dl) element.
pub fn dl<A, C>(attributes: A, children: C) -> (r: Element<A, C>)
    ensures
        r.tag_name@ == "dl"@,
        r.namespace_uri is None,
        r.attr == attributes,
        r.children == children,
{
    html_element("dl".to_owned(), attributes, children)
}

/// Create a `Nodes` of a [`<embed>`](https://developer.mozilla.org/en-US/docs/Web/HTML/Element/embed) element.
pub fn embed<A, C>(attributes: A, children: C) -> (r: Element<A, C>)
    ensures
        r.tag_name@ == "embed"@,
        r.namespace_uri is None,
        r.attr == attributes,
        r.children == children,
{
    html_element("embed".to_owned(), attributes, children)
}

/// Create a `Nodes` of a [`<fieldset>`](https://developer.mozilla.org/en-US/docs/Web/HTML/Element/fieldset) element.
pub fn fieldset<A, C>(attributes: A, children: C) -> (r: Element<A, C>)
    ensures
        r.tag_name@ == "fieldset"@,
        r.namespace_uri is None,
        r.attr == attributes,
        r.children == children,
{
    html_element("fieldset".to_owned(), attributes, children)
}

/// Create a `Nodes` of a [`<form>`](https://developer.mozilla.org/en-US/docs/Web/HTML/Element/form) element.
pub fn form<A, C>(attributes: A, children: C) -> (r: Element<A, C>)
    ensures
        r.tag_name@ == "form"@,
        r.namespace_uri is None,
        r.attr == attributes,
        r.children == children,
{
    html_element("form".to_owned(), attributes, children)
}

/// Create a `Nodes` of a [`<h1>`](https://developer.mozilla.org/en-US/docs/Web/HTML/Element/h1) element.
pub fn h1<A, C>(attributes: A, children: C) -> (r: Element<A, C>)
    ensures
        r.tag_name@ == "h1"@,
        r.namespace_uri is None,
        r.attr == attributes,
        r.children == children,
{
    html_element("h1".to_owned(), attributes, children)
}

/// Create a `Nodes` of a [`<h2>`](https://developer.mozilla.org/en-US/docs/Web/HTML/Element/h2) element.
pub fn h2<A, C>(attributes: A, children: C) -> (r: Element<A, C>)
    ensures
        r.tag_name@ == "h2"@,
        r.namespace_uri is None,
        r.attr == attributes,
        r.children == children,
{
    html_element("h2".to_owned(), attributes, children)
}

/// Create a `Nodes` of a [`<h3>`](https://developer.mozilla.org/en-US/docs/Web/HTML/Element/h3) element.
pub fn h3<A, C>(attributes: A, children: C) -> (r: Element<A, C>)
    ensures
        r.tag_name@ == "h3"@,
        r.namespace_uri is None,
        r.attr == attributes,
        r.children == children,
{
    html_element("h3".to_owned(), attributes, children)
}

/// Create a `Nodes` of a [`<h4>`](https://developer.mozilla.org/en-US/docs/Web/HTML/Element/h4) element.
pub fn h4<A, C>(attributes: A, children: C) -> (r: Element<A, C>)
    ensures
        r.tag_name@ == "h4"@,
        r.namespace_uri is None,
        r.attr == attributes,
        r.children == children,
{
    html_element("h4".to_owned(), attributes, children)
}

/// Create a `Nodes` of a [`<h5>`](https://developer.mozilla.org/en-US/docs/Web/HTML/Element/h5) element.
pub fn h5<A, C>(attributes: A, children: C) -> (r: Element<A, C>)
    ensures
        r.tag_name@ == "h5"@,
        r.namespace_uri is None,
        r.attr == attributes,
        r.children == children,
{
    html_element("h5".to_owned(), attributes, children)
}

/// Create a `Nodes` of a [`<h6>`](https://developer.mozilla.org/en-US/docs/Web/HTML/Element/h6) element.
pub fn h6<A, C>(attributes: A, children: C) -> (r: Element<A, C>)
    ensures
        r.tag_name@ == "h6"@,
        r.namespace_uri is None,
        r.attr == attributes,
        r.children == children,
{
    html_element("h6".to_owned(), attributes, children)
}

/// Create a `Nodes` of a [`<hr>`](https://developer.mozilla.org/en-US/docs/Web/HTML/Element/hr) element.
pub fn hr<A, C>(attributes: A, children: C) -> (r: Element<A, C>)
    ensures
        r.tag_name@ == "hr"@,
        r.namespace_uri is None,
        r.attr == attributes,
        r.children == children,
{
    html_element("hr".to_owned(), attributes, children)
}

/// Create a `Nodes` of a [`<iframe>`](https://developer.mozilla.org/en-US/docs/Web/HTML/Element/iframe) element.
pub fn iframe<A, C>(attributes: A, children: C) -> (r: Element<A, C>)
    ensures
        r.tag_name@ == "iframe"@,
        r.namespace_uri is None,
        r.attr == attributes,
        r.children == children,
{
    html_element("iframe".to_owned(), attributes, children)
}

/// Create a `Nodes` of a [`<img>`](https://developer.mozilla.org/en-US/docs/Web/HTML/Element/img) element.
pub fn img<A, C>(attributes: A, children: C) -> (r: Element<A, C>)
    ensures
        r.tag_name@ == "img"@,
        r.namespace_uri is None,
        r.attr == attributes,
        r.children == children,
{
    html_element("img".to_owned(), attributes, children)
}

/// Create a `Nodes` of a [`<input>`](https://developer.mozilla.org/en-US/docs/Web/HTML/Element/input) element.
pub fn input<A, C>(attributes: A, children: C) -> (r: Element<A, C>)
    ensures
        r.tag_name@ == "input"@,
        r.namespace_uri is None,
        r.attr == attributes,
        r.children == children,
{
    html_element("input".to_owned(), attributes, children)
}

/// Create a `Nodes` of a [`<label>`](https://developer.mozilla.org/en-US/docs/Web/HTML/Element/label) element.
pub fn label<A, C>(attributes: A, children: C) -> (r: Element<A, C>)
    ensures
        r.tag_name@ == "label"@,
        r.namespace_uri is None,
        r.attr == attributes,
        r.children == children,
{
    html_element("label".to_owned(), attributes, children)
}

/// Create a `Nodes` of a [`<legend>`](https://developer.mozilla.org/en-US/docs/Web/HTML/Element/legend) element.
pub fn legend<A, C>(attributes: A, children: C) -> (r: Element<A, C>)
    ensures
        r.tag_name@ == "legend"@,
        r.namespace_uri is None,
        r.attr == attributes,
        r.children == children,
{
    html_element("legend".to_owned(), attributes, children)
}

/// Create a `Nodes` of a [`<li>`](https://developer.mozilla.org/en-US/docs/Web/HTML/Element/li) element.
pub fn li<A, C>(attributes: A, children: C) -> (r: Element<A, C>)
    ensures
        r.tag_name@ == "li"@,
        r.namespace_uri is None,
        r.attr == attributes,
        r.children == children,
{
    html_element("li".to_owned(), attributes, children)
}

/// Create a `Nodes` of a [`<map>`](https://developer.mozilla.org/en-US/docs/Web/HTML/Element/map) element.
pub fn map<A, C>(attributes: A, children: C) -> (r: Element<A, C>)
    ensures
        r.tag_name@ == "map"@,
        r.namespace_uri is None,
        r.attr == attributes,
        r.children == children,
{
    html_element("map".to_owned(), attributes, children)
}

/// Create a `Nodes` of a [`<meter>`](https://developer.mozilla.org/en-US/docs/Web/HTML/Element/meter) element.
pub fn meter<A, C>(attributes: A, children: C) -> (r: Element<A, C>)
    ensures
        r.tag_name@ == "meter"@,
        r.namespace_uri is None,
        r.attr == attributes,
        r.children == children,
{
    html_element("meter".to_owned(), attributes, children)
}

/// Create a `Nodes` of a [`<object>`](https://developer.mozilla.org/en-US/docs/Web/HTML/Element/object) element.
pub fn object<A, C>(attributes: A, children: C) -> (r: Element<A, C>)
    ensures
        r.tag_name@ == "object"@,
        r.namespace_uri is None,
        r.attr == attributes,
        r.children == children,
{
    html_element("object".to_owned(), attributes, children)
}

/// Create a `Nodes` of a [`<ol>`](https://developer.mozilla.org/en-US/docs/Web/HTML/Element/ol) element.
pub fn ol<A, C>(attributes: A, children: C) -> (r: Element<A, C>)
    ensures
        r.tag_name@ == "ol"@,
        r.namespace_uri is None,
        r.attr == attributes,
        r.children == children,
{
    html_element("ol".to_owned(), attributes, children)
}

/// Create a `Nodes` of a [`<optgroup>`](https://developer.mozilla.org/en-US/docs/Web/HTML/Element/optgroup) element.
pub fn optgroup<A, C>(attributes: A, children: C) -> (r: Element<A, C>)
    ensures
        r.tag_name@ == "optgroup"@,
        r.namespace_uri is None,
        r.attr == attributes,
        r.children == children,
{
    html_element("optgroup".to_owned(), attributes, children)
}

/// Create a `Nodes` of a [`<option>`](https://developer.mozilla.org/en-US/docs/Web/HTML/Element/option) element.
pub fn option<A, C>(attributes: A, children: C) -> (r: Element<A, C>)
    ensures
        r.tag_name@ == "option"@,
        r.namespace_uri is None,
        r.attr == attributes,
        r.children == children,
{
    html_element("option".to_owned(), attributes, children)
}

/// Create a `Nodes` of a [`<output>`](https://developer.mozilla.org/en-US/docs/Web/HTML/Element/output) element.
pub fn output<A, C>(attributes: A, children: C) -> (r: Element<A, C>)
    ensures
        r.tag_name@ == "output"@,
        r.namespace_uri is None,
        r.attr == attributes,
        r.children == children,
{
    html_element("output".to_owned(), attributes, children)
}

/// Create a `Nodes` of a [`<p>`](https://developer.mozilla.org/en-US/docs/Web/HTML/Element/p) element.
pub fn p<A, C>(attributes: A, children: C) -> (r: Element<A, C>)
    ensures
        r.tag_name@ == "p"@,
        r.namespace_uri is None,
        r.attr == attributes,
        r.children == children,
{
    html_element("p".to_owned(), attributes, children)
}

/// Create a `Nodes` of a [`<param>`](https://developer.mozilla.org/en-US/docs/Web/HTML/Element/param) element.
pub fn param<A, C>(attributes: A, children: C) -> (r: Element<A, C>)
    ensures
        r.tag_name@ == "param"@,
        r.namespace_uri is None,
        r.attr == attributes,
        r.children == children,
{
    html_element("param".to_owned(), attributes, children)
}

/// Create a `Nodes` of a [`<picture>`](https://developer.mozilla.org/en-US/docs/Web/HTML/Element/picture) element.
pub fn picture<A, C>(attributes: A, children: C) -> (r: Element<A, C>)
    ensures
        r.tag_name@ == "picture"@,
        r.namespace_uri is None,
        r.attr == attributes,
        r.children == children,
{
    html_element("picture".to_owned(), attributes, children)
}

/// Create a `Nodes` of a [`<pre>`](https://developer.mozilla.org/en-US/docs/Web/HTML/Element/pre) element.
pub fn pre<A, C>(attributes: A, children: C) -> (r: Element<A, C>)
    ensures
        r.tag_name@ == "pre"@,
        r.namespace_uri is None,
        r.attr == attributes,
        r.children == children,
{
    html_element("pre".to_owned(), attributes, children)
}

/// Create a `Nodes` of a [`<progress>`](https://developer.mozilla.org/en-US/docs/Web/HTML/Element/progress) element.
pub fn progress<A, C>(attributes: A, children: C) -> (r: Element<A, C>)
    ensures
        r.tag_name@ == "progress"@,
        r.namespace_uri is None,
        r.attr == attributes,
        r.children == children,
{
    html_element("progress".to_owned(), attributes, children)
}

/// Create a `Nodes` of a [`<q>`](https://developer.mozilla.org/en-US/docs/Web/HTML/Element/q) element.
pub fn q<A, C>(attributes: A, children: C) -> (r: Element<A, C>)
    ensures
        r.tag_name@ == "q"@,
        r.namespace_uri is None,
        r.attr == attributes,
        r.children == children,
{
    html_element("q".to_owned(), attributes, children)
}

/// Create a `Nodes` of a [`<select>`](https://developer.mozilla.org/en-US/docs/Web/HTML/Element/select) element.
pub fn select<A, C>(attributes: A, children: C) -> (r: Element<A, C>)
    ensures
        r.tag_name@ == "select"@,
        r.namespace_uri is None,
        r.attr == attributes,
        r.children == children,
{
    html_element("select".to_owned(), attributes, children)
}

/// Create a `Nodes` of a [`<source>`](https://developer.mozilla.org/en-US/docs/Web/HTML/Element/source) element.
pub fn source<A, C>(attributes: A, children: C) -> (r: Element<A, C>)
    ensures
        r.tag_name@ == "source"@,
        r.namespace_uri is None,
        r.attr == attributes,
        r.children == children,
{
    html_element("source".to_owned(), attributes, children)
}

/// Create a `Nodes` of a [`<span>`](https://developer.mozilla.org/en-US/docs/Web/HTML/Element/span) element.
pub fn span<A, C>(attributes: A, children: C) -> (r: Element<A, C>)
    ensures
        r.tag_name@ == "span"@,
        r.namespace_uri is None,
        r.attr == attributes,
        r.children == children,
{
    html_element("span".to_owned(), attributes, children)
}

/// Create a `Nodes` of a [`<table>`](https://developer.mozilla.org/en-US/docs/Web/HTML/Element/table) element.
pub fn table<A, C>(attributes: A, children: C) -> (r: Element<A, C>)
    ensures
        r.tag_name@ == "table"@,
        r.namespace_uri is None,
        r.attr == attributes,
        r.children == children,
{
    html_element("table".to_owned(), attributes, children)
}

/// Create a `Nodes` of a [`<tbody>`](https://developer.mozilla.org/en-US/docs/Web/HTML/Element/tbody) element.
pub fn tbody<A, C>(attributes: A, children: C) -> (r: Element<A, C>)
    ensures
        r.tag_name@ == "tbody"@,
        r.namespace_uri is None,
        r.attr == attributes,
        r.children == children,
{
    html_element("tbody".to_owned(), attributes, children)
}

/// Create a `Nodes` of a [`<td>`](https://developer.mozilla.org/en-US/docs/Web/HTML/Element/td) element.
pub fn td<A, C>(attributes: A, children: C) -> (r: Element<A, C>)
    ensures
        r.tag_name@ == "td"@,
        r.namespace_uri is None,
        r.attr == attributes,
        r.children == children,
{
    html_element("td".to_owned(), attributes, children)
}

/// Create a `Nodes` of a [`<template>`](https://developer.mozilla.org/en-US/docs/Web/HTML/Element/template) element.
pub fn template<A, C>(attributes: A, children: C) -> (r: Element<A, C>)
    ensures
        r.tag_name@ == "template"@,
        r.namespace_uri is None,
        r.attr == attributes,
        r.children == children,
{
    html_element("template".to_owned(), attributes, children)
}

/// Create a `Nodes` of a [`<textarea>`](https://developer.mozilla.org/en-US/docs/Web/HTML/Element/textarea) element.
pub fn textarea<A, C>(attributes: A, children: C) -> (r: Element<A, C>)
    ensures
        r.tag_name@ == "textarea"@,
        r.namespace_uri is None,
        r.attr == attributes,
        r.children == children,
{
    html_element("textarea".to_owned(), attributes, children)
}

/// Create a `Nodes` of a [`<tfoot>`](https://developer.mozilla.org/en-US/docs/Web/HTML/Element/tfoot) element.
pub fn tfoot<A, C>(attributes: A, children: C) -> (r: Element<A, C>)
    ensures
        r.tag_name@ == "tfoot"@,
        r.namespace_uri is None,
        r.attr == attributes,
        r.children == children,
{
    html_element("tfoot".to_owned(), attributes, children)
}

/// Create a `Nodes` of a [`<thead>`](https://developer.mozilla.org/en-US/docs/Web/HTML/Element/thead) element.
pub fn thead<A, C>(attributes: A, children: C) -> (r: Element<A, C>)
    ensures
        r.tag_name@ == "thead"@,
        r.namespace_uri is None,
        r.attr == attributes,
        r.children == children,
{
    html_element("thead".to_owned(), attributes, children)
}

/// Create a `Nodes` of a [`<th>`](https://developer.mozilla.org/en-US/docs/Web/HTML/Element/th) element.
pub fn th<A, C>(attributes: A, children: C) -> (r: Element<A, C>)
    ensures
        r.tag_name@ == "th"@,
        r.namespace_uri is None,
        r.attr == attributes,
        r.children == children,
{
    html_element("th".to_owned(), attributes, children)
}

/// Create a `Nodes` of a [`<time>`](https://developer.mozilla.org/en-US/docs/Web/HTML/Element/time) element.
pub fn time<A, C>(attributes: A, children: C) -> (r: Element<A, C>)
    ensures
        r.tag_name@ == "time"@,
        r.namespace_uri is None,
        r.attr == attributes,
        r.children == children,
{
    html_element("time".to_owned(), attributes, children)
}

/// Create a `Nodes` of a [`<tr>`](https://developer.mozilla.org/en-US/docs/Web/HTML/Element/tr) element.
pub fn tr<A, C>(attributes: A, children: C) -> (r: Element<A, C>)
    ensures
        r.tag_name@ == "tr"@,
        r.namespace_uri is None,
        r.attr == attributes,
        r.children == children,
{
    html_element("tr".to_owned(), attributes, children)
}

/// Create a `Nodes` of a [`<track>`](https://developer.mozilla.org/en-US/docs/Web/HTML/Element/track) element.
pub fn track<A, C>(attributes: A, children: C) -> (r: Element<A, C>)
    ensures
        r.tag_name@ == "track"@,
        r.namespace_uri is None,
        r.attr == attributes,
        r.children == children,
{
    html_element("track".to_owned(), attributes, children)
}

/// Create a `Nodes` of a [`<ul>`](https://developer.mozilla.org/en-US/docs/Web/HTML/Element/ul) element.
pub fn ul<A, C>(attributes: A, children: C) -> (r: Element<A, C>)
    ensures
        r.tag_name@ == "ul"@,
        r.namespace_uri is None,
        r.attr == attributes,
        r.children == children,
{
    html_element("ul".to_owned(), attributes, children)
}

/// Create a `Nodes` of a [`<video>`](https://developer.mozilla.org/en-US/docs/Web/HTML/Element/video) element.
pub fn video<A, C>(attributes: A, children: C) -> (r: Element<A, C>)
    ensures
        r.tag_name@ == "video"@,
        r.namespace_uri is None,
        r.attr == attributes,
        r.children == children,
{
    html_element("video".to_owned(), attributes, children)
}

} // verus!
