//! Descriptions of DOM nodes, and the trait of the values that describe a
//! sequence of them.
use crate::attr::{AttrOp, AttrOpView, Attributes, ops_view};
use crate::types::Either;
use vstd::prelude::*;

verus! {

/// A description of an element node.
pub struct ElementNode<D> {
    pub tag_name: String,
    pub namespace_uri: Option<String>,
    pub attrs: Vec<AttrOp<D>>,
    pub children: Vec<Node<D>>,
}

/// A description of a DOM node: what a view renders to.
pub enum Node<D> {
    Element(ElementNode<D>),
    Text(String),
}

/// The mathematical value of a [`Node`].
pub enum NodeView<D> {
    Element {
        tag_name: Seq<char>,
        namespace_uri: Option<Seq<char>>,
        attrs: Seq<AttrOpView<D>>,
        children: Seq<NodeView<D>>,
    },
    Text { data: Seq<char> },
}

/// The view of an optional string.
pub open spec fn opt_view(s: Option<String>) -> Option<Seq<char>> {
    match s {
        Some(s) => Some(s@),
        None => None,
    }
}

/// The view of a node description.
pub open spec fn node_view<D>(n: Node<D>) -> NodeView<D>
    decreases n,
{
    match n {
        Node::Element(e) => NodeView::Element {
            tag_name: e.tag_name@,
            namespace_uri: opt_view(e.namespace_uri),
            attrs: ops_view(e.attrs@),
            children: Seq::new(
                e.children@.len(),
                |i: int|
                    if 0 <= i < e.children@.len() {
                        node_view(e.children@[i])
                    } else {
                        NodeView::Text { data: Seq::empty() }
                    },
            ),
        },
        Node::Text(s) => NodeView::Text { data: s@ },
    }
}

/// The views of a sequence of node descriptions.
pub open spec fn nodes_view<D>(s: Seq<Node<D>>) -> Seq<NodeView<D>> {
    s.map_values(|n: Node<D>| node_view(n))
}

impl<D> View for Node<D> {
    type V = NodeView<D>;

    open spec fn view(&self) -> NodeView<D> {
        node_view(*self)
    }
}

pub proof fn lemma_element_children_view<D>(e: ElementNode<D>)
    ensures
        node_view(Node::Element(e)) == (NodeView::Element {
            tag_name: e.tag_name@,
            namespace_uri: opt_view(e.namespace_uri),
            attrs: ops_view(e.attrs@),
            children: nodes_view(e.children@),
        }),
{
    let v = node_view(Node::Element(e));
    if let NodeView::Element { children, .. } = v {
        assert(children =~= nodes_view(e.children@));
    }
}

/// A sequence of DOM nodes.
pub trait Nodes<D>: Sized {
    /// The nodes that this value stands for, in order.
    spec fn nodes(&self) -> Seq<NodeView<D>>;

    /// Append the nodes of this value to `out`.
    fn render_nodes(self, out: &mut Vec<Node<D>>)
        ensures
            nodes_view(final(out)@) == nodes_view(old(out)@) + self.nodes(),
    ;
}

pub proof fn lemma_nodes_view_push<D>(s: Seq<Node<D>>, n: Node<D>)
    ensures
        nodes_view(s.push(n)) == nodes_view(s).push(node_view(n)),
{
    assert(nodes_view(s.push(n)) =~= nodes_view(s).push(node_view(n)));
}

impl<D> Nodes<D> for () {
    open spec fn nodes(&self) -> Seq<NodeView<D>> {
        Seq::empty()
    }

    fn render_nodes(self, out: &mut Vec<Node<D>>) {
        assert(nodes_view(out@) =~= nodes_view(out@) + Seq::<NodeView<D>>::empty());
    }
}

impl<D> Nodes<D> for Node<D> {
    open spec fn nodes(&self) -> Seq<NodeView<D>> {
        seq![node_view(*self)]
    }

    fn render_nodes(self, out: &mut Vec<Node<D>>) {
        let ghost n = self;
        proof {
            lemma_nodes_view_push(out@, n);
        }
        out.push(self);
        assert(nodes_view(out@) =~= nodes_view(old(out)@) + seq![node_view(n)]);
    }
}

impl<D> Nodes<D> for String {
    open spec fn nodes(&self) -> Seq<NodeView<D>> {
        seq![NodeView::Text { data: self@ }]
    }

    fn render_nodes(self, out: &mut Vec<Node<D>>) {
        text::<D>(self).render_nodes(out);
    }
}

impl<D, N: Nodes<D>> Nodes<D> for Option<N> {
    open spec fn nodes(&self) -> Seq<NodeView<D>> {
        match self {
            Some(n) => n.nodes(),
            None => Seq::empty(),
        }
    }

    fn render_nodes(self, out: &mut Vec<Node<D>>) {
        match self {
            Some(n) => n.render_nodes(out),
            None => {
                assert(nodes_view(out@) =~= nodes_view(out@) + Seq::<NodeView<D>>::empty());
            },
        }
    }
}

impl<D, L: Nodes<D>, R: Nodes<D>> Nodes<D> for Either<L, R> {
    open spec fn nodes(&self) -> Seq<NodeView<D>> {
        match self {
            Either::Left(l) => l.nodes(),
            Either::Right(r) => r.nodes(),
        }
    }

    fn render_nodes(self, out: &mut Vec<Node<D>>) {
        match self {
            Either::Left(l) => l.render_nodes(out),
            Either::Right(r) => r.render_nodes(out),
        }
    }
}

impl<D, N1: Nodes<D>> Nodes<D> for (N1,) {
    open spec fn nodes(&self) -> Seq<NodeView<D>> {
        self.0.nodes()
    }

    fn render_nodes(self, out: &mut Vec<Node<D>>) {
        self.0.render_nodes(out);
    }
}

impl<D, N1: Nodes<D>, N2: Nodes<D>> Nodes<D> for (N1, N2) {
    open spec fn nodes(&self) -> Seq<NodeView<D>> {
        self.0.nodes() + self.1.nodes()
    }

    fn render_nodes(self, out: &mut Vec<Node<D>>) {
        let (n1, n2) = self;
        let ghost start = nodes_view(out@);
        n1.render_nodes(out);
        n2.render_nodes(out);
        assert(nodes_view(out@) =~= start + (n1.nodes() + n2.nodes()));
    }
}

impl<D, N1: Nodes<D>, N2: Nodes<D>, N3: Nodes<D>> Nodes<D> for (N1, N2, N3) {
    open spec fn nodes(&self) -> Seq<NodeView<D>> {
        self.0.nodes() + self.1.nodes() + self.2.nodes()
    }

    fn render_nodes(self, out: &mut Vec<Node<D>>) {
        let (n1, n2, n3) = self;
        let ghost start = nodes_view(out@);
        n1.render_nodes(out);
        n2.render_nodes(out);
        n3.render_nodes(out);
        assert(nodes_view(out@) =~= start + (n1.nodes() + n2.nodes() + n3.nodes()));
    }
}

impl<D, N1: Nodes<D>, N2: Nodes<D>, N3: Nodes<D>, N4: Nodes<D>> Nodes<D> for (N1, N2, N3, N4) {
    open spec fn nodes(&self) -> Seq<NodeView<D>> {
        self.0.nodes() + self.1.nodes() + self.2.nodes() + self.3.nodes()
    }

    fn render_nodes(self, out: &mut Vec<Node<D>>) {
        let (n1, n2, n3, n4) = self;
        let ghost start = nodes_view(out@);
        n1.render_nodes(out);
        n2.render_nodes(out);
        n3.render_nodes(out);
        n4.render_nodes(out);
        assert(nodes_view(out@) =~= start + (n1.nodes() + n2.nodes() + n3.nodes() + n4.nodes()));
    }
}

impl<D, N1: Nodes<D>, N2: Nodes<D>, N3: Nodes<D>, N4: Nodes<D>, N5: Nodes<D>> Nodes<D> for (
    N1,
    N2,
    N3,
    N4,
    N5,
) {
    open spec fn nodes(&self) -> Seq<NodeView<D>> {
        self.0.nodes() + self.1.nodes() + self.2.nodes() + self.3.nodes() + self.4.nodes()
    }

    fn render_nodes(self, out: &mut Vec<Node<D>>) {
        let (n1, n2, n3, n4, n5) = self;
        let ghost start = nodes_view(out@);
        n1.render_nodes(out);
        n2.render_nodes(out);
        n3.render_nodes(out);
        n4.render_nodes(out);
        n5.render_nodes(out);
        assert(nodes_view(out@) =~= start + (n1.nodes() + n2.nodes() + n3.nodes() + n4.nodes()
            + n5.nodes()));
    }
}

/// A `Nodes` rendered as a text node.
pub struct Text {
    pub value: String,
}

/// Create a `Nodes` rendered as a text node holding `value`.
pub fn text<D>(value: String) -> (r: Node<D>)
    ensures
        r@ == (NodeView::<D>::Text { data: value@ }),
{
    Node::Text(value)
}

/// A `Nodes` rendered as a DOM element.
pub struct Element<A, C> {
    pub tag_name: String,
    pub namespace_uri: Option<String>,
    pub attr: A,
    pub children: C,
}

/// Create a `Nodes` rendered as a DOM element.
pub fn element<A, C>(tag_name: String, namespace_uri: Option<String>, attr: A, children: C) -> (r:
    Element<A, C>)
    ensures
        r.tag_name == tag_name,
        r.namespace_uri == namespace_uri,
        r.attr == attr,
        r.children == children,
{
    Element { tag_name, namespace_uri, attr, children }
}

impl<D, A: Attributes<D>, C: Nodes<D>> Nodes<D> for Element<A, C> {
    open spec fn nodes(&self) -> Seq<NodeView<D>> {
        seq![
            NodeView::Element {
                tag_name: self.tag_name@,
                namespace_uri: opt_view(self.namespace_uri),
                attrs: ops_view(self.attr.ops()),
                children: self.children.nodes(),
            },
        ]
    }

    fn render_nodes(self, out: &mut Vec<Node<D>>) {
        let Element { tag_name, namespace_uri, attr, children } = self;
        let mut attrs: Vec<AttrOp<D>> = Vec::new();
        attr.render_attributes(&mut attrs);
        let mut nodes: Vec<Node<D>> = Vec::new();
        children.render_nodes(&mut nodes);
        assert(attrs@ =~= attr.ops());
        assert(nodes_view(nodes@) =~= children.nodes());
        let e = ElementNode { tag_name, namespace_uri, attrs, children: nodes };
        proof {
            lemma_element_children_view(e);
        }
        Node::Element(e).render_nodes(out);
    }
}

/// A `Nodes` made of the nodes of each item of a vector, in order.
pub struct Iter<N> {
    pub items: Vec<N>,
}

/// Create a `Nodes` from the items of a vector.
pub fn iter<N>(items: Vec<N>) -> (r: Iter<N>)
    ensures
        r.items == items,
{
    Iter { items }
}

/// The concatenation of the nodes of each item.
pub open spec fn concat_nodes<D, N: Nodes<D>>(items: Seq<N>) -> Seq<NodeView<D>>
    decreases items.len(),
{
    if items.len() == 0 {
        Seq::empty()
    } else {
        concat_nodes(items.drop_last()) + items.last().nodes()
    }
}

impl<D, N: Nodes<D>> Nodes<D> for Iter<N> {
    open spec fn nodes(&self) -> Seq<NodeView<D>> {
        concat_nodes::<D, N>(self.items@)
    }

    fn render_nodes(self, out: &mut Vec<Node<D>>) {
        let ghost items = self.items@;
        let ghost start = nodes_view(out@);
        let len = self.items.len();
        let mut rest = reversed(self.items);
        let mut k: usize = 0;
        assert(items.take(0) =~= Seq::<N>::empty());
        while k < len
            invariant
                k <= len,
                len == items.len(),
                rest@ == items.skip(k as int).reverse(),
                nodes_view(out@) == start + concat_nodes::<D, N>(items.take(k as int)),
            decreases items.len() - k,
        {
            assert(rest@.len() == items.len() - k);
            let item = rest.pop().unwrap();
            assert(item == items[k as int]);
            item.render_nodes(out);
            assert(items.take(k + 1).drop_last() =~= items.take(k as int));
            assert(rest@ =~= items.skip(k + 1).reverse());
            k = k + 1;
        }
        assert(items.take(items.len() as int) =~= items);
    }
}

/// The items of `v` in reverse order.
pub fn reversed<T>(v: Vec<T>) -> (r: Vec<T>)
    ensures
        r@ == v@.reverse(),
{
    let mut v = v;
    let ghost orig = v@;
    let mut r: Vec<T> = Vec::new();
    while v.len() > 0
        invariant
            v@ == orig.take(v@.len() as int),
            r@ == orig.skip(v@.len() as int).reverse(),
            v@.len() <= orig.len(),
        decreases v@.len(),
    {
        let ghost n = v@.len();
        let x = v.pop().unwrap();
        r.push(x);
        assert(v@ =~= orig.take(n - 1));
        assert(r@ =~= orig.skip(n - 1).reverse());
    }
    assert(orig.skip(0) =~= orig);
    r
}

/// Collect the nodes of a `Nodes` value, in order.
pub fn collect_nodes<D, N: Nodes<D>>(nodes: N) -> (r: Vec<Node<D>>)
    ensures
        nodes_view(r@) == nodes.nodes(),
{
    let mut out: Vec<Node<D>> = Vec::new();
    assert(nodes_view(out@) =~= Seq::<NodeView<D>>::empty());
    nodes.render_nodes(&mut out);
    assert(nodes_view(out@) =~= nodes.nodes());
    out
}

/// An element renders to exactly one element node, which carries the
/// element's own tag name and namespace (so an element built in the SVG
/// namespace is created in it), the annotations of its attributes in order,
/// and the nodes of its children in order.
pub proof fn law_element_renders_itself<D, A: Attributes<D>, C: Nodes<D>>(e: Element<A, C>)
    ensures
        e.nodes().len() == 1,
        e.nodes()[0] matches NodeView::Element { tag_name, namespace_uri, attrs, children } && tag_name
            == e.tag_name@ && namespace_uri == opt_view(e.namespace_uri) && attrs == ops_view(e.attr.ops())
            && children == e.children.nodes(),
{
}

/// A text or a node description renders to itself, alone.
pub proof fn law_single_nodes_render_themselves<D>(t: String, n: Node<D>)
    ensures
        Nodes::<D>::nodes(&t) == seq![NodeView::<D>::Text { data: t@ }],
        n.nodes() == seq![n@],
        Nodes::<D>::nodes(&()) == Seq::<NodeView<D>>::empty(),
{
}

/// Children given as a tuple render as the children of each component, one
/// component after the other, in the order of the tuple.
pub proof fn law_tuples_render_in_order<D, N1: Nodes<D>, N2: Nodes<D>, N3: Nodes<D>, N4: Nodes<D>, N5: Nodes<D>>(
    x1: N1,
    x2: N2,
    x3: N3,
    x4: N4,
    x5: N5,
)
    ensures
        (x1,).nodes() == x1.nodes(),
        (x1, x2).nodes() == x1.nodes() + x2.nodes(),
        (x1, x2, x3).nodes() == x1.nodes() + x2.nodes() + x3.nodes(),
        (x1, x2, x3, x4).nodes() == x1.nodes() + x2.nodes() + x3.nodes() + x4.nodes(),
        (x1, x2, x3, x4, x5).nodes() == x1.nodes() + x2.nodes() + x3.nodes() + x4.nodes() + x5.nodes(),
{
}

/// Optional children render as the present ones, or as nothing; either of
/// two kinds of children renders as the one given.
pub proof fn law_choices_render_the_choice<D, N: Nodes<D>, L: Nodes<D>, R: Nodes<D>>(x: N, l: L, r: R)
    ensures
        Some(x).nodes() == x.nodes(),
        Nodes::<D>::nodes(&None::<N>) == Seq::<NodeView<D>>::empty(),
        Either::<L, R>::Left(l).nodes() == l.nodes(),
        Either::<L, R>::Right(r).nodes() == r.nodes(),
{
}

/// Children given by the items of a vector render as the children of each
/// item, one item after the other: the items of a joined vector render as
/// the first part followed by the second, a single item as itself, and no
/// item as nothing.
pub proof fn law_items_render_in_order<D, N: Nodes<D>>(a: Iter<N>, b: Iter<N>, c: Iter<N>, x: N)
    ensures
        c.items@ == a.items@ + b.items@ ==> c.nodes() == a.nodes() + b.nodes(),
        a.items@ == seq![x] ==> a.nodes() == x.nodes(),
        a.items@.len() == 0 ==> a.nodes() == Seq::<NodeView<D>>::empty(),
{
    if c.items@ == a.items@ + b.items@ {
        lemma_concat_nodes_append::<D, N>(a.items@, b.items@);
    }
    if a.items@ == seq![x] {
        assert(a.items@.drop_last() =~= Seq::<N>::empty());
        assert(a.items@.last() == x);
        assert(concat_nodes::<D, N>(a.items@.drop_last()) == Seq::<NodeView<D>>::empty());
        assert(a.nodes() == concat_nodes::<D, N>(a.items@.drop_last()) + x.nodes());
        assert(Seq::<NodeView<D>>::empty() + x.nodes() =~= x.nodes());
    }
}

proof fn lemma_concat_nodes_append<D, N: Nodes<D>>(a: Seq<N>, b: Seq<N>)
    ensures
        concat_nodes::<D, N>(a + b) == concat_nodes::<D, N>(a) + concat_nodes::<D, N>(b),
    decreases b.len(),
{
    if b.len() == 0 {
        assert(a + b =~= a);
        assert(concat_nodes::<D, N>(a) + Seq::<NodeView<D>>::empty() =~= concat_nodes::<D, N>(a));
    } else {
        assert((a + b).drop_last() =~= a + b.drop_last());
        assert((a + b).last() == b.last());
        lemma_concat_nodes_append::<D, N>(a, b.drop_last());
        assert(concat_nodes::<D, N>(a) + (concat_nodes::<D, N>(b.drop_last()) + b.last().nodes()) =~= (
        concat_nodes::<D, N>(a) + concat_nodes::<D, N>(b.drop_last())) + b.last().nodes());
    }
}

} // verus!
