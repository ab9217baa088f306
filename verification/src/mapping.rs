//! Mapping the messages of nodes: every listener's decoder of a tree is
//! wrapped so that its message `msg` becomes `f(msg)`; everything else is
//! rendered as it was.
use crate::attr::{AttrOp, AttrOpView, ops_view};
use crate::mailbox::MapDecoder;
use crate::node::{collect_nodes, lemma_element_children_view, lemma_nodes_view_push, reversed, ElementNode, Node, NodeView, Nodes, node_view, nodes_view};
use crate::render::{lemma_nodes_size_take, node_size, nodes_size};
use vstd::prelude::*;

verus! {

/// An annotation with its decoder, if any, wrapped by `f`.
pub open spec fn map_op_view<D, F>(op: AttrOpView<D>, f: F) -> AttrOpView<MapDecoder<D, F>> {
    match op {
        AttrOpView::Attribute { name, value } => AttrOpView::Attribute { name, value },
        AttrOpView::Property { name, value } => AttrOpView::Property { name, value },
        AttrOpView::Class { class_name } => AttrOpView::Class { class_name },
        AttrOpView::Style { name, value } => AttrOpView::Style { name, value },
        AttrOpView::InnerHtml { inner_html } => AttrOpView::InnerHtml { inner_html },
        AttrOpView::Event { event_type, decoder } => AttrOpView::Event {
            event_type,
            decoder: MapDecoder { decoder, f },
        },
    }
}

/// A node with the decoders of its tree wrapped by `f`.
pub open spec fn map_node_view<D, F>(n: NodeView<D>, f: F) -> NodeView<MapDecoder<D, F>>
    decreases n,
{
    match n {
        NodeView::Element { tag_name, namespace_uri, attrs, children } => NodeView::Element {
            tag_name,
            namespace_uri,
            attrs: attrs.map_values(|o: AttrOpView<D>| map_op_view(o, f)),
            children: Seq::new(
                children.len(),
                |i: int|
                    if 0 <= i < children.len() {
                        map_node_view(children[i], f)
                    } else {
                        NodeView::Text { data: Seq::empty() }
                    },
            ),
        },
        NodeView::Text { data } => NodeView::Text { data },
    }
}

/// Nodes with the decoders of their trees wrapped by `f`.
pub open spec fn map_nodes_view<D, F>(s: Seq<NodeView<D>>, f: F) -> Seq<NodeView<MapDecoder<D, F>>> {
    s.map_values(|n: NodeView<D>| map_node_view(n, f))
}

/// The renderer of mapped elements: it wraps the decoder of each listener
/// of a tree with `f`.
pub struct MapElementRenderer<F> {
    pub f: F,
}

/// The renderer of mapped elements of the virtual DOM: the same mapping.
pub type MapElementContext<F> = MapElementRenderer<F>;

impl<F: Copy> MapElementRenderer<F> {
    /// The annotation `op` with its decoder, if any, wrapped.
    pub fn attr_op<D>(&self, op: AttrOp<D>) -> (r: AttrOp<MapDecoder<D, F>>)
        ensures
            r@ == map_op_view(op@, self.f),
    {
        match op {
            AttrOp::Attribute { name, value } => AttrOp::Attribute { name, value },
            AttrOp::Property { name, value } => AttrOp::Property { name, value },
            AttrOp::Class { class_name } => AttrOp::Class { class_name },
            AttrOp::Style { name, value } => AttrOp::Style { name, value },
            AttrOp::InnerHtml { inner_html } => AttrOp::InnerHtml { inner_html },
            AttrOp::Event { event_type, decoder } => AttrOp::Event {
                event_type,
                decoder: MapDecoder { decoder, f: self.f },
            },
        }
    }

    /// The node `n` with the decoders of its tree wrapped.
    pub fn node<D>(&self, n: Node<D>) -> (r: Node<MapDecoder<D, F>>)
        ensures
            r@ == map_node_view(n@, self.f),
        decreases node_size(n@),
    {
        let ghost gn = n;
        match n {
            Node::Text(data) => Node::Text(data),
            Node::Element(e) => {
                let ghost ge = e;
                proof {
                    lemma_element_children_view(e);
                }
                let ElementNode { tag_name, namespace_uri, attrs, children } = e;
                let ghost ops = ops_view(attrs@);
                let ghost cs = nodes_view(children@);
                let n_attrs = attrs.len();
                let mut rest_attrs = reversed(attrs);
                let mut new_attrs: Vec<AttrOp<MapDecoder<D, F>>> = Vec::new();
                let mut k: usize = 0;
                while k < n_attrs
                    invariant
                        k <= n_attrs,
                        n_attrs == ge.attrs@.len(),
                        ops == ops_view(ge.attrs@),
                        rest_attrs@ == ge.attrs@.skip(k as int).reverse(),
                        ops_view(new_attrs@) == ops.take(k as int).map_values(
                            |o: AttrOpView<D>| map_op_view(o, self.f),
                        ),
                    decreases n_attrs - k,
                {
                    assert(rest_attrs@.len() == n_attrs - k);
                    let op = rest_attrs.pop().unwrap();
                    assert(op == ge.attrs@[k as int]);
                    assert(rest_attrs@ =~= ge.attrs@.skip(k + 1).reverse());
                    let ghost before = new_attrs@;
                    new_attrs.push(self.attr_op(op));
                    assert(ops_view(new_attrs@) =~= ops_view(before).push(map_op_view(op@, self.f)));
                    assert(ops.take(k + 1).map_values(|o: AttrOpView<D>| map_op_view(o, self.f))
                        =~= ops.take(k as int).map_values(|o: AttrOpView<D>| map_op_view(o, self.f)).push(
                        map_op_view(op@, self.f),
                    ));
                    k = k + 1;
                }
                assert(ops.take(n_attrs as int) =~= ops);
                let len = children.len();
                let mut rest = reversed(children);
                let mut kids: Vec<Node<MapDecoder<D, F>>> = Vec::new();
                let mut j: usize = 0;
                while j < len
                    invariant
                        j <= len,
                        len == ge.children@.len(),
                        cs == nodes_view(ge.children@),
                        gn == Node::Element(ge),
                        gn == n,
                        node_size(gn@) == 1 + nodes_size(cs),
                        rest@ == ge.children@.skip(j as int).reverse(),
                        nodes_view(kids@) == map_nodes_view(cs.take(j as int), self.f),
                    decreases len - j,
                {
                    assert(rest@.len() == len - j);
                    let child = rest.pop().unwrap();
                    assert(child == ge.children@[j as int]);
                    assert(rest@ =~= ge.children@.skip(j + 1).reverse());
                    proof {
                        lemma_nodes_size_take(cs, j as int + 1);
                        assert(cs.take(j + 1).drop_last() =~= cs.take(j as int));
                        assert(cs.take(j + 1).last() == child@);
                        assert(nodes_size(cs.take(j + 1)) == nodes_size(cs.take(j as int)) + node_size(child@));
                        assert(node_size(child@) < node_size(n@));
                    }
                    let ghost before = kids@;
                    let ghost child_view = child@;
                    let mapped = self.node(child);
                    kids.push(mapped);
                    proof {
                        lemma_nodes_view_push(before, mapped);
                    }
                    assert(map_nodes_view(cs.take(j + 1), self.f) =~= map_nodes_view(cs.take(j as int), self.f).push(
                        map_node_view(child_view, self.f),
                    ));
                    j = j + 1;
                }
                assert(cs.take(len as int) =~= cs);
                let ne = ElementNode { tag_name, namespace_uri, attrs: new_attrs, children: kids };
                proof {
                    lemma_element_children_view(ne);
                    let v = map_node_view(gn@, self.f);
                    if let NodeView::Element { children: mc, attrs: ma, .. } = v {
                        assert(mc =~= map_nodes_view(cs, self.f));
                        assert(ma =~= ops.map_values(|o: AttrOpView<D>| map_op_view(o, self.f)));
                    }
                }
                Node::Element(ne)
            },
        }
    }
}

/// Nodes whose messages are mapped by `f`, like `Node::map`.
pub struct MapNodes<N, F> {
    pub nodes: N,
    pub f: F,
}

/// Map the messages of `nodes` by `f`: the decoder of each listener in their
/// trees is wrapped by `f`.
pub fn map_nodes<N, F>(nodes: N, f: F) -> (r: MapNodes<N, F>)
    ensures
        r.nodes == nodes,
        r.f == f,
{
    MapNodes { nodes, f }
}

impl<D, N: Nodes<D>, F: Copy> Nodes<MapDecoder<D, F>> for MapNodes<N, F> {
    open spec fn nodes(&self) -> Seq<NodeView<MapDecoder<D, F>>> {
        map_nodes_view(self.nodes.nodes(), self.f)
    }

    fn render_nodes(self, out: &mut Vec<Node<MapDecoder<D, F>>>) {
        let ghost start = nodes_view(out@);
        let ghost descs = self.nodes.nodes();
        let f = self.f;
        let inner = collect_nodes(self.nodes);
        let renderer = MapElementRenderer { f };
        let len = inner.len();
        let ghost orig = inner@;
        let mut rest = reversed(inner);
        let mut k: usize = 0;
        assert(map_nodes_view(descs.take(0), f) =~= Seq::<NodeView<MapDecoder<D, F>>>::empty());
        assert(nodes_view(out@) =~= start + map_nodes_view(descs.take(0), f));
        while k < len
            invariant
                k <= len,
                len == orig.len(),
                nodes_view(orig) == descs,
                renderer.f == f,
                rest@ == orig.skip(k as int).reverse(),
                nodes_view(out@) == start + map_nodes_view(descs.take(k as int), f),
            decreases len - k,
        {
            assert(rest@.len() == len - k);
            let n = rest.pop().unwrap();
            assert(n == orig[k as int]);
            assert(rest@ =~= orig.skip(k + 1).reverse());
            assert(descs[k as int] == n@);
            let ghost before = out@;
            let mapped = renderer.node(n);
            out.push(mapped);
            proof {
                lemma_nodes_view_push(before, mapped);
            }
            assert(map_nodes_view(descs.take(k + 1), f) =~= map_nodes_view(descs.take(k as int), f).push(
                mapped@,
            ));
            assert(nodes_view(out@) =~= start + map_nodes_view(descs.take(k + 1), f));
            k = k + 1;
        }
        assert(descs.take(len as int) =~= descs);
    }
}

/// An annotation with its decoder, if any, left out: what it says of the
/// element apart from the listener it calls.
pub open spec fn erase_op<D>(op: AttrOpView<D>) -> AttrOpView<()> {
    match op {
        AttrOpView::Attribute { name, value } => AttrOpView::Attribute { name, value },
        AttrOpView::Property { name, value } => AttrOpView::Property { name, value },
        AttrOpView::Class { class_name } => AttrOpView::Class { class_name },
        AttrOpView::Style { name, value } => AttrOpView::Style { name, value },
        AttrOpView::InnerHtml { inner_html } => AttrOpView::InnerHtml { inner_html },
        AttrOpView::Event { event_type, decoder } => AttrOpView::Event { event_type, decoder: () },
    }
}

/// A tree with every decoder left out: its tag names, namespaces,
/// annotations, texts and shape.
pub open spec fn erase_node<D>(n: NodeView<D>) -> NodeView<()>
    decreases n,
{
    match n {
        NodeView::Element { tag_name, namespace_uri, attrs, children } => NodeView::Element {
            tag_name,
            namespace_uri,
            attrs: attrs.map_values(|o: AttrOpView<D>| erase_op(o)),
            children: Seq::new(
                children.len(),
                |i: int|
                    if 0 <= i < children.len() {
                        erase_node(children[i])
                    } else {
                        NodeView::Text { data: Seq::empty() }
                    },
            ),
        },
        NodeView::Text { data } => NodeView::Text { data },
    }
}

/// Mapping the messages of a tree changes its decoders and nothing else:
/// with the decoders left out, the mapped tree is the tree itself (the same
/// tag names, namespaces, annotations, texts and children, in order), and
/// each listener of the mapped tree decodes by the original decoder
/// followed by `f`.
pub proof fn law_mapping_keeps_the_tree<D, F>(n: NodeView<D>, f: F)
    ensures
        erase_node(map_node_view(n, f)) == erase_node(n),
        n is Element ==> ({
            let attrs = n->attrs;
            let mapped = map_node_view(n, f)->attrs;
            &&& map_node_view(n, f) is Element
            &&& mapped.len() == attrs.len()
            &&& forall|i: int|
                0 <= i < attrs.len() && (#[trigger] attrs[i]) is Event ==> mapped[i] is Event && mapped[i]->decoder
                    == (MapDecoder { decoder: attrs[i]->decoder, f })
        }),
    decreases n,
{
    match n {
        NodeView::Element { tag_name, namespace_uri, attrs, children } => {
            assert forall|i: int| 0 <= i < children.len() implies erase_node(map_node_view(children[i], f))
                == erase_node(children[i]) by {
                law_mapping_keeps_the_tree(children[i], f);
            }
            let m = map_node_view(n, f);
            let em = erase_node(m);
            let en = erase_node(n);
            if let NodeView::Element { attrs: ma, children: mc, .. } = m {
                if let NodeView::Element { attrs: ema, children: emc, .. } = em {
                    if let NodeView::Element { attrs: ena, children: enc, .. } = en {
                        assert(mc.len() == children.len());
                        assert forall|i: int| 0 <= i < children.len() implies mc[i] == map_node_view(
                            children[i],
                            f,
                        ) by {}
                        assert(ema =~= ena);
                        assert(emc =~= enc);
                    }
                }
            }
        },
        NodeView::Text { .. } => {},
    }
}

/// Mapping the messages of nodes maps each of them, in order: with the
/// decoders left out, the mapped nodes are the nodes themselves.
pub proof fn law_mapped_nodes_keep_their_trees<D, N: Nodes<D>, F: Copy>(m: MapNodes<N, F>)
    ensures
        m.nodes().len() == m.nodes.nodes().len(),
        forall|i: int|
            0 <= i < m.nodes().len() ==> erase_node(#[trigger] m.nodes()[i]) == erase_node(m.nodes.nodes()[i]),
{
    assert forall|i: int| 0 <= i < m.nodes().len() implies erase_node(#[trigger] m.nodes()[i]) == erase_node(
        m.nodes.nodes()[i],
    ) by {
        law_mapping_keeps_the_tree(m.nodes.nodes()[i], m.f);
    }
}

} // verus!
