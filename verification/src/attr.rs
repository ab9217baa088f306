//! Attributes of DOM elements, and the trait of the values that describe a
//! collection of them.
use crate::types::{self, Either};
use vstd::prelude::*;

verus! {

/// One annotation of an element, in the order in which it was given.
#[allow(inconsistent_fields)]
pub enum AttrOp<D> {
    /// Set an attribute, like `domNode.setAttribute(name, value)`.
    Attribute { name: String, value: types::Attribute },
    /// Set a property, like `domNode.name = value`.
    Property { name: String, value: types::Property },
    /// Add a CSS class name.
    Class { class_name: String },
    /// Add an inline style.
    Style { name: String, value: String },
    /// Set the content of inner HTML.
    InnerHtml { inner_html: String },
    /// Register an event listener with the decoder that turns events into messages.
    Event { event_type: String, decoder: D },
}

/// The mathematical value of an [`AttrOp`].
#[allow(inconsistent_fields)]
pub enum AttrOpView<D> {
    Attribute { name: Seq<char>, value: types::AttributeView },
    Property { name: Seq<char>, value: types::PropertyView },
    Class { class_name: Seq<char> },
    Style { name: Seq<char>, value: Seq<char> },
    InnerHtml { inner_html: Seq<char> },
    Event { event_type: Seq<char>, decoder: D },
}

impl<D> View for AttrOp<D> {
    type V = AttrOpView<D>;

    open spec fn view(&self) -> AttrOpView<D> {
        match self {
            AttrOp::Attribute { name, value } => AttrOpView::Attribute { name: name@, value: value@ },
            AttrOp::Property { name, value } => AttrOpView::Property { name: name@, value: value@ },
            AttrOp::Class { class_name } => AttrOpView::Class { class_name: class_name@ },
            AttrOp::Style { name, value } => AttrOpView::Style { name: name@, value: value@ },
            AttrOp::InnerHtml { inner_html } => AttrOpView::InnerHtml { inner_html: inner_html@ },
            AttrOp::Event { event_type, decoder } => AttrOpView::Event {
                event_type: event_type@,
                decoder: *decoder,
            },
        }
    }
}

/// The views of a sequence of annotations.
pub open spec fn ops_view<D>(ops: Seq<AttrOp<D>>) -> Seq<AttrOpView<D>> {
    ops.map_values(|o: AttrOp<D>| o@)
}

/// A collection of DOM attributes.
pub trait Attributes<D>: Sized {
    /// The annotations that this collection stands for, in order.
    spec fn ops(&self) -> Seq<AttrOp<D>>;

    /// Append the annotations of this collection to `out`.
    fn render_attributes(self, out: &mut Vec<AttrOp<D>>)
        ensures
            final(out)@ == old(out)@ + self.ops(),
    ;
}

impl<D> Attributes<D> for () {
    open spec fn ops(&self) -> Seq<AttrOp<D>> {
        Seq::empty()
    }

    fn render_attributes(self, out: &mut Vec<AttrOp<D>>) {
        assert(out@ == out@ + Seq::<AttrOp<D>>::empty());
    }
}

impl<D> Attributes<D> for AttrOp<D> {
    open spec fn ops(&self) -> Seq<AttrOp<D>> {
        seq![*self]
    }

    fn render_attributes(self, out: &mut Vec<AttrOp<D>>) {
        out.push(self);
    }
}

impl<D, A: Attributes<D>> Attributes<D> for Option<A> {
    open spec fn ops(&self) -> Seq<AttrOp<D>> {
        match self {
            Some(a) => a.ops(),
            None => Seq::empty(),
        }
    }

    fn render_attributes(self, out: &mut Vec<AttrOp<D>>) {
        match self {
            Some(a) => a.render_attributes(out),
            None => {
                assert(out@ == out@ + Seq::<AttrOp<D>>::empty());
            },
        }
    }
}

impl<D, L: Attributes<D>, R: Attributes<D>> Attributes<D> for Either<L, R> {
    open spec fn ops(&self) -> Seq<AttrOp<D>> {
        match self {
            Either::Left(l) => l.ops(),
            Either::Right(r) => r.ops(),
        }
    }

    fn render_attributes(self, out: &mut Vec<AttrOp<D>>) {
        match self {
            Either::Left(l) => l.render_attributes(out),
            Either::Right(r) => r.render_attributes(out),
        }
    }
}

impl<D, A1: Attributes<D>> Attributes<D> for (A1,) {
    open spec fn ops(&self) -> Seq<AttrOp<D>> {
        self.0.ops()
    }

    fn render_attributes(self, out: &mut Vec<AttrOp<D>>) {
        self.0.render_attributes(out);
    }
}

impl<D, A1: Attributes<D>, A2: Attributes<D>> Attributes<D> for (A1, A2) {
    open spec fn ops(&self) -> Seq<AttrOp<D>> {
        self.0.ops() + self.1.ops()
    }

    fn render_attributes(self, out: &mut Vec<AttrOp<D>>) {
        let (a1, a2) = self;
        let ghost start = out@;
        a1.render_attributes(out);
        a2.render_attributes(out);
        assert(out@ == start + (a1.ops() + a2.ops()));
    }
}

impl<D, A1: Attributes<D>, A2: Attributes<D>, A3: Attributes<D>> Attributes<D> for (A1, A2, A3) {
    open spec fn ops(&self) -> Seq<AttrOp<D>> {
        self.0.ops() + self.1.ops() + self.2.ops()
    }

    fn render_attributes(self, out: &mut Vec<AttrOp<D>>) {
        let (a1, a2, a3) = self;
        let ghost start = out@;
        a1.render_attributes(out);
        a2.render_attributes(out);
        a3.render_attributes(out);
        assert(out@ == start + (a1.ops() + a2.ops() + a3.ops()));
    }
}

impl<
    D,
    A1: Attributes<D>,
    A2: Attributes<D>,
    A3: Attributes<D>,
    A4: Attributes<D>,
> Attributes<D> for (A1, A2, A3, A4) {
    open spec fn ops(&self) -> Seq<AttrOp<D>> {
        self.0.ops() + self.1.ops() + self.2.ops() + self.3.ops()
    }

    fn render_attributes(self, out: &mut Vec<AttrOp<D>>) {
        let (a1, a2, a3, a4) = self;
        let ghost start = out@;
        a1.render_attributes(out);
        a2.render_attributes(out);
        a3.render_attributes(out);
        a4.render_attributes(out);
        assert(out@ == start + (a1.ops() + a2.ops() + a3.ops() + a4.ops()));
    }
}

impl<
    D,
    A1: Attributes<D>,
    A2: Attributes<D>,
    A3: Attributes<D>,
    A4: Attributes<D>,
    A5: Attributes<D>,
> Attributes<D> for (A1, A2, A3, A4, A5) {
    open spec fn ops(&self) -> Seq<AttrOp<D>> {
        self.0.ops() + self.1.ops() + self.2.ops() + self.3.ops() + self.4.ops()
    }

    fn render_attributes(self, out: &mut Vec<AttrOp<D>>) {
        let (a1, a2, a3, a4, a5) = self;
        let ghost start = out@;
        a1.render_attributes(out);
        a2.render_attributes(out);
        a3.render_attributes(out);
        a4.render_attributes(out);
        a5.render_attributes(out);
        assert(out@ == start + (a1.ops() + a2.ops() + a3.ops() + a4.ops() + a5.ops()));
    }
}

impl<
    D,
    A1: Attributes<D>,
    A2: Attributes<D>,
    A3: Attributes<D>,
    A4: Attributes<D>,
    A5: Attributes<D>,
    A6: Attributes<D>,
> Attributes<D> for (A1, A2, A3, A4, A5, A6) {
    open spec fn ops(&self) -> Seq<AttrOp<D>> {
        self.0.ops() + self.1.ops() + self.2.ops() + self.3.ops() + self.4.ops() + self.5.ops()
    }

    fn render_attributes(self, out: &mut Vec<AttrOp<D>>) {
        let (a1, a2, a3, a4, a5, a6) = self;
        let ghost start = out@;
        a1.render_attributes(out);
        a2.render_attributes(out);
        a3.render_attributes(out);
        a4.render_attributes(out);
        a5.render_attributes(out);
        a6.render_attributes(out);
        assert(out@ == start + (a1.ops() + a2.ops() + a3.ops() + a4.ops() + a5.ops() + a6.ops()));
    }
}

/// An `Attributes` that sets an arbitrary attribute value, like
/// `domNode.setAttribute(name, value)`.
#[derive(Debug, Clone, PartialEq)]
pub struct Attribute {
    pub name: String,
    pub value: types::Attribute,
}

/// Create an `Attributes` that specifies an arbitrary attribute value.
pub fn attribute(name: String, value: types::Attribute) -> (r: Attribute)
    ensures
        r.name == name,
        r.value == value,
{
    Attribute { name, value }
}

impl<D> Attributes<D> for Attribute {
    open spec fn ops(&self) -> Seq<AttrOp<D>> {
        seq![AttrOp::Attribute { name: self.name, value: self.value }]
    }

    fn render_attributes(self, out: &mut Vec<AttrOp<D>>) {
        out.push(AttrOp::Attribute { name: self.name, value: self.value });
    }
}

/// An `Attributes` that sets an arbitrary property value, like
/// `domNode.name = value`.
#[derive(Debug, Clone, PartialEq)]
pub struct Property {
    pub name: String,
    pub value: types::Property,
}

/// Create an `Attributes` that specifies an arbitrary property value.
pub fn property(name: String, value: types::Property) -> (r: Property)
    ensures
        r.name == name,
        r.value == value,
{
    Property { name, value }
}

impl<D> Attributes<D> for Property {
    open spec fn ops(&self) -> Seq<AttrOp<D>> {
        seq![AttrOp::Property { name: self.name, value: self.value }]
    }

    fn render_attributes(self, out: &mut Vec<AttrOp<D>>) {
        out.push(AttrOp::Property { name: self.name, value: self.value });
    }
}

/// An `Attributes` that adds a CSS class name.
pub struct Class {
    pub class_name: String,
}

/// Create an `Attributes` that specifies a CSS class name.
pub fn class(class_name: String) -> (r: Class)
    ensures
        r.class_name == class_name,
{
    Class { class_name }
}

impl<D> Attributes<D> for Class {
    open spec fn ops(&self) -> Seq<AttrOp<D>> {
        seq![AttrOp::Class { class_name: self.class_name }]
    }

    fn render_attributes(self, out: &mut Vec<AttrOp<D>>) {
        out.push(AttrOp::Class { class_name: self.class_name });
    }
}

/// An `Attributes` that adds an inline style.
pub struct Style {
    pub name: String,
    pub value: String,
}

/// Create an `Attributes` that specifies an inline style.
pub fn style(name: String, value: String) -> (r: Style)
    ensures
        r.name == name,
        r.value == value,
{
    Style { name, value }
}

impl<D> Attributes<D> for Style {
    open spec fn ops(&self) -> Seq<AttrOp<D>> {
        seq![AttrOp::Style { name: self.name, value: self.value }]
    }

    fn render_attributes(self, out: &mut Vec<AttrOp<D>>) {
        out.push(AttrOp::Style { name: self.name, value: self.value });
    }
}

/// An `Attributes` that sets the inner HTML content of the element.
pub struct InnerHtml {
    pub inner_html: String,
}

/// Create an `Attributes` that specifies the inner HTML content of the element.
pub fn inner_html(html: String) -> (r: InnerHtml)
    ensures
        r.inner_html == html,
{
    InnerHtml { inner_html: html }
}

impl<D> Attributes<D> for InnerHtml {
    open spec fn ops(&self) -> Seq<AttrOp<D>> {
        seq![AttrOp::InnerHtml { inner_html: self.inner_html }]
    }

    fn render_attributes(self, out: &mut Vec<AttrOp<D>>) {
        out.push(AttrOp::InnerHtml { inner_html: self.inner_html });
    }
}

/// An `Attributes` that registers an event listener.
pub struct Event<D> {
    pub event_type: String,
    pub decoder: D,
}

/// Create an `Attributes` that registers `decoder` for events of `event_type`.
pub fn event<D>(event_type: String, decoder: D) -> (r: Event<D>)
    ensures
        r.event_type == event_type,
        r.decoder == decoder,
{
    Event { event_type, decoder }
}

impl<D> Attributes<D> for Event<D> {
    open spec fn ops(&self) -> Seq<AttrOp<D>> {
        seq![AttrOp::Event { event_type: self.event_type, decoder: self.decoder }]
    }

    fn render_attributes(self, out: &mut Vec<AttrOp<D>>) {
        out.push(AttrOp::Event { event_type: self.event_type, decoder: self.decoder });
    }
}

/// Collect the annotations of an `Attributes` value, in order.
pub fn collect_attributes<D, A: Attributes<D>>(attrs: A) -> (r: Vec<AttrOp<D>>)
    ensures
        r@ == attrs.ops(),
{
    let mut out: Vec<AttrOp<D>> = Vec::new();
    attrs.render_attributes(&mut out);
    assert(out@ =~= attrs.ops());
    out
}

/// Attributes given as a tuple stand for the annotations of each component,
/// one component after the other, in the order of the tuple.
pub proof fn law_attribute_tuples_in_order<
    D,
    A1: Attributes<D>,
    A2: Attributes<D>,
    A3: Attributes<D>,
    A4: Attributes<D>,
    A5: Attributes<D>,
    A6: Attributes<D>,
>(a1: A1, a2: A2, a3: A3, a4: A4, a5: A5, a6: A6)
    ensures
        (a1,).ops() == a1.ops(),
        (a1, a2).ops() == a1.ops() + a2.ops(),
        (a1, a2, a3).ops() == a1.ops() + a2.ops() + a3.ops(),
        (a1, a2, a3, a4).ops() == a1.ops() + a2.ops() + a3.ops() + a4.ops(),
        (a1, a2, a3, a4, a5).ops() == a1.ops() + a2.ops() + a3.ops() + a4.ops() + a5.ops(),
        (a1, a2, a3, a4, a5, a6).ops() == a1.ops() + a2.ops() + a3.ops() + a4.ops() + a5.ops() + a6.ops(),
{
}

/// Optional attributes stand for the present ones, or for nothing; either
/// of two kinds of attributes stands for the one given; no attributes stand
/// for nothing.
pub proof fn law_attribute_choices<D, A: Attributes<D>, L: Attributes<D>, R: Attributes<D>>(a: A, l: L, r: R)
    ensures
        Some(a).ops() == a.ops(),
        Attributes::<D>::ops(&None::<A>) == Seq::<AttrOp<D>>::empty(),
        Either::<L, R>::Left(l).ops() == l.ops(),
        Either::<L, R>::Right(r).ops() == r.ops(),
        Attributes::<D>::ops(&()) == Seq::<AttrOp<D>>::empty(),
{
}

/// Each single attribute stands for exactly one annotation, which carries
/// what it was made with: the attribute's name and value, the property's
/// name and value, the class name, the style's name and value, the inner
/// HTML, the listener's event type and decoder.
pub proof fn law_single_annotations<D>(
    a: Attribute,
    p: Property,
    c: Class,
    s: Style,
    h: InnerHtml,
    e: Event<D>,
    op: AttrOp<D>,
)
    ensures
        Attributes::<D>::ops(&a).len() == 1 && Attributes::<D>::ops(&a)[0]@ == (AttrOpView::<D>::Attribute {
            name: a.name@,
            value: a.value@,
        }),
        Attributes::<D>::ops(&p).len() == 1 && Attributes::<D>::ops(&p)[0]@ == (AttrOpView::<D>::Property {
            name: p.name@,
            value: p.value@,
        }),
        Attributes::<D>::ops(&c).len() == 1 && Attributes::<D>::ops(&c)[0]@ == (AttrOpView::<D>::Class {
            class_name: c.class_name@,
        }),
        Attributes::<D>::ops(&s).len() == 1 && Attributes::<D>::ops(&s)[0]@ == (AttrOpView::<D>::Style {
            name: s.name@,
            value: s.value@,
        }),
        Attributes::<D>::ops(&h).len() == 1 && Attributes::<D>::ops(&h)[0]@ == (AttrOpView::<D>::InnerHtml {
            inner_html: h.inner_html@,
        }),
        e.ops().len() == 1 && e.ops()[0]@ == (AttrOpView::<D>::Event {
            event_type: e.event_type@,
            decoder: e.decoder,
        }),
        op.ops() == seq![op],
{
}

} // verus!
