//! A model of the document that the operations of the rendering engine act
//! on, and what it means for the document to show a description. DOM nodes
//! are named by their handles; a node holds its kind, attributes, properties,
//! listeners, inner HTML and the handles of its children.
use crate::attr::AttrOpView;
use crate::node::NodeView;
use crate::ordered::{
    entry_value, key_index, keys_unique, lemma_key_index, lemma_swap_remove_unique,
    lemma_swap_remove_value,
};
use crate::render::{
    class_value, create_children_patches, create_node_patches, diff_node_patches, diff_op, diff_ops,
    diff_children_patches, diff_prefix_patches, end_patches, remove_child_patches,
    fold_ops, last_attr,
    last_inner, last_prop, lemma_fold_entries, new_op_patches, new_ops_patches,
    remove_attribute_patches, remove_property_patches, style_value, element_state, ElementState,
    PatchView, VElement, VNode, node_id, Shape, create_shape, create_children_shape, diff_shape,
    diff_prefix_shape, vnode_shape, vnodes_shape, vnode_model, vnodes_model, desc_model, descs_model,
    lemma_vnode_model_element, lemma_vnode_shape_element, lemma_desc_model_element, Scene,
};
use crate::node::opt_view;
use crate::ordered::{attribute_entries, property_entries};
use crate::types::{AttributeView, PropertyView, property_eq};
use vstd::prelude::*;

verus! {

/// What a DOM node is: an element of a tag name and namespace, or a text
/// node holding its data.
pub enum DomKind {
    Element { tag_name: Seq<char>, namespace_uri: Option<Seq<char>> },
    Text { data: Seq<char> },
}

/// A DOM node.
pub struct DomNode<D> {
    pub kind: DomKind,
    pub attributes: Map<Seq<char>, Seq<char>>,
    pub properties: Map<Seq<char>, PropertyView>,
    pub listeners: Map<Seq<char>, D>,
    pub inner_html: Option<Seq<char>>,
    pub children: Seq<nat>,
}

/// A node of `kind` just created: no attributes, properties, listeners, inner
/// HTML or children.
pub open spec fn new_dom_node<D>(kind: DomKind) -> DomNode<D> {
    DomNode {
        kind,
        attributes: Map::empty(),
        properties: Map::empty(),
        listeners: Map::empty(),
        inner_html: None,
        children: Seq::empty(),
    }
}

/// The handles `s` without the last occurrence of `x`.
pub open spec fn remove_value(s: Seq<nat>, x: nat) -> Seq<nat>
    decreases s.len(),
{
    if s.len() == 0 {
        s
    } else if s.last() == x {
        s.drop_last()
    } else {
        remove_value(s.drop_last(), x).push(s.last())
    }
}

/// The node that an operation other than a creation acts on.
pub open spec fn patch_target<D>(p: PatchView<D>) -> nat {
    match p {
        PatchView::CreateElement { node, .. } => node,
        PatchView::CreateTextNode { node, .. } => node,
        PatchView::AppendChild { parent, .. } => parent,
        PatchView::RemoveChild { parent, .. } => parent,
        PatchView::SetAttribute { node, .. } => node,
        PatchView::RemoveAttribute { node, .. } => node,
        PatchView::SetProperty { node, .. } => node,
        PatchView::RemoveProperty { node, .. } => node,
        PatchView::SetInnerHtml { node, .. } => node,
        PatchView::SetData { node, .. } => node,
        PatchView::ClearListeners { node } => node,
        PatchView::AddListener { node, .. } => node,
    }
}

/// What an operation other than a creation does to the node it acts on.
pub open spec fn node_effect<D>(nd: DomNode<D>, p: PatchView<D>) -> DomNode<D> {
    match p {
        PatchView::AppendChild { child, .. } => DomNode { children: nd.children.push(child), ..nd },
        PatchView::RemoveChild { child, .. } => DomNode { children: remove_value(nd.children, child), ..nd },
        PatchView::SetAttribute { name, value, .. } => DomNode {
            attributes: nd.attributes.insert(name, value),
            ..nd
        },
        PatchView::RemoveAttribute { name, .. } => DomNode { attributes: nd.attributes.remove(name), ..nd },
        PatchView::SetProperty { name, value, .. } => DomNode {
            properties: nd.properties.insert(name, value),
            ..nd
        },
        PatchView::RemoveProperty { name, .. } => DomNode { properties: nd.properties.remove(name), ..nd },
        PatchView::SetInnerHtml { inner_html, .. } => DomNode { inner_html: Some(inner_html), ..nd },
        PatchView::SetData { data, .. } => DomNode { kind: DomKind::Text { data }, ..nd },
        PatchView::ClearListeners { .. } => DomNode { listeners: Map::empty(), ..nd },
        PatchView::AddListener { event_type, decoder, .. } => DomNode {
            listeners: nd.listeners.insert(event_type, decoder),
            ..nd
        },
        _ => nd,
    }
}

/// The document after one operation. An operation on a node that the
/// document lacks does nothing.
pub open spec fn apply_patch<D>(dom: Map<nat, DomNode<D>>, p: PatchView<D>) -> Map<nat, DomNode<D>> {
    match p {
        PatchView::CreateElement { node, tag_name, namespace_uri } => dom.insert(
            node,
            new_dom_node(DomKind::Element { tag_name, namespace_uri }),
        ),
        PatchView::CreateTextNode { node, data } => dom.insert(node, new_dom_node(DomKind::Text { data })),
        _ => if dom.contains_key(patch_target(p)) {
            dom.insert(patch_target(p), node_effect(dom[patch_target(p)], p))
        } else {
            dom
        },
    }
}

/// The document after the operations `ps`, in order.
pub open spec fn apply_patches<D>(dom: Map<nat, DomNode<D>>, ps: Seq<PatchView<D>>) -> Map<nat, DomNode<D>>
    decreases ps.len(),
{
    if ps.len() == 0 {
        dom
    } else {
        apply_patch(apply_patches(dom, ps.drop_last()), ps.last())
    }
}

pub proof fn lemma_apply_concat<D>(dom: Map<nat, DomNode<D>>, a: Seq<PatchView<D>>, b: Seq<PatchView<D>>)
    ensures
        apply_patches(dom, a + b) == apply_patches(apply_patches(dom, a), b),
    decreases b.len(),
{
    if b.len() == 0 {
        assert(a + b =~= a);
    } else {
        assert((a + b).drop_last() =~= a + b.drop_last());
        assert((a + b).last() == b.last());
        lemma_apply_concat(dom, a, b.drop_last());
    }
}

// ==== what the document shows ====

/// The text of an attribute value in the document: a string as it is, `true`
/// as the empty string, and `false` as no attribute.
pub open spec fn attribute_text(v: Option<AttributeView>) -> Option<Seq<char>> {
    match v {
        Some(AttributeView::String(s)) => Some(s),
        Some(AttributeView::Bool(true)) => Some(Seq::empty()),
        _ => None,
    }
}

/// The text under `x` of an optional text.
pub open spec fn text_of(v: Option<Seq<char>>) -> Seq<char> {
    match v {
        Some(s) => s,
        None => Seq::empty(),
    }
}

/// The attributes that the document shows for an element in state `st`: its
/// attributes, then the `class` and `style` attributes over them.
pub open spec fn shown_attributes(st: ElementState) -> Map<Seq<char>, Seq<char>> {
    Map::new(
        |x: Seq<char>| attribute_text(entry_value(st.attributes, x)) is Some,
        |x: Seq<char>| text_of(attribute_text(entry_value(st.attributes, x))),
    ).insert("class"@, class_value(st)).insert("style"@, style_value(st))
}

/// A property value in the document stands for `v`: it is `v`, or equal to it
/// as properties compare.
pub open spec fn prop_matches(a: PropertyView, v: PropertyView) -> bool {
    a == v || property_eq(a, v)
}

/// The properties of the document stand for the properties `entries`.
pub open spec fn props_shown(m: Map<Seq<char>, PropertyView>, entries: Seq<(Seq<char>, PropertyView)>) -> bool {
    forall|x: Seq<char>|
        #![trigger m.contains_key(x)]
        #![trigger entry_value(entries, x)]
        match entry_value(entries, x) {
            Some(v) => m.contains_key(x) && prop_matches(m[x], v),
            None => !m.contains_key(x),
        }
}

/// The listeners that the annotations register: the last decoder for each
/// event type.
pub open spec fn listeners_of<D>(ops: Seq<AttrOpView<D>>) -> Map<Seq<char>, D>
    decreases ops.len(),
{
    if ops.len() == 0 {
        Map::empty()
    } else {
        match ops.last() {
            AttrOpView::Event { event_type, decoder } => listeners_of(ops.drop_last()).insert(event_type, decoder),
            _ => listeners_of(ops.drop_last()),
        }
    }
}

/// The DOM node `h` shows the description `n`: its kind, attributes,
/// properties, listeners and inner HTML are those of `n`, and its children
/// show the children of `n` in order (an element with inner HTML has none).
pub open spec fn shows<D>(dom: Map<nat, DomNode<D>>, h: nat, n: NodeView<D>) -> bool
    decreases n,
{
    &&& dom.contains_key(h)
    &&& match n {
        NodeView::Text { data } => dom[h].kind == DomKind::Text { data },
        NodeView::Element { tag_name, namespace_uri, attrs, children } => {
            let st = fold_ops(attrs);
            &&& dom[h].kind == DomKind::Element { tag_name, namespace_uri }
            &&& dom[h].attributes == shown_attributes(st)
            &&& props_shown(dom[h].properties, st.properties)
            &&& dom[h].listeners == listeners_of(attrs)
            &&& dom[h].inner_html == st.inner_html
            &&& if st.inner_html is Some {
                dom[h].children.len() == 0
            } else {
                shows_all(dom, dom[h].children, children)
            }
        },
    }
}

/// The DOM nodes `hs` show the descriptions `cs`, one by one.
pub open spec fn shows_all<D>(dom: Map<nat, DomNode<D>>, hs: Seq<nat>, cs: Seq<NodeView<D>>) -> bool
    decreases cs,
{
    &&& hs.len() == cs.len()
    &&& cs.len() > 0 ==> shows_all(dom, hs.drop_last(), cs.drop_last()) && shows(dom, hs.last(), cs.last())
}

/// The DOM nodes that `shows(dom, h, n)` reads.
pub open spec fn footprint<D>(dom: Map<nat, DomNode<D>>, h: nat, n: NodeView<D>) -> Set<nat>
    decreases n,
{
    if !dom.contains_key(h) {
        Set::empty().insert(h)
    } else {
        match n {
            NodeView::Text { .. } => Set::empty().insert(h),
            NodeView::Element { children, .. } => footprint_all(dom, dom[h].children, children).insert(h),
        }
    }
}

/// The DOM nodes that `shows_all(dom, hs, cs)` reads.
pub open spec fn footprint_all<D>(dom: Map<nat, DomNode<D>>, hs: Seq<nat>, cs: Seq<NodeView<D>>) -> Set<nat>
    decreases cs,
{
    if cs.len() == 0 || hs.len() == 0 {
        Set::empty()
    } else {
        footprint_all(dom, hs.drop_last(), cs.drop_last()).union(footprint(dom, hs.last(), cs.last()))
    }
}

/// Two documents agree on the nodes `s`.
pub open spec fn agree_on<D>(a: Map<nat, DomNode<D>>, b: Map<nat, DomNode<D>>, s: Set<nat>) -> bool {
    forall|x: nat|
        #[trigger] s.contains(x) ==> (a.contains_key(x) <==> b.contains_key(x)) && (a.contains_key(x) ==> a[x]
            == b[x])
}

/// What a document shows depends only on the nodes of its footprint.
pub proof fn lemma_shows_frame<D>(a: Map<nat, DomNode<D>>, b: Map<nat, DomNode<D>>, h: nat, n: NodeView<D>)
    requires
        agree_on(a, b, footprint(a, h, n)),
    ensures
        shows(a, h, n) == shows(b, h, n),
        footprint(a, h, n) == footprint(b, h, n),
    decreases n,
{
    assert(footprint(a, h, n).contains(h));
    match n {
        NodeView::Text { .. } => {},
        NodeView::Element { children, .. } => {
            if a.contains_key(h) {
                let fa = footprint_all(a, a[h].children, children);
                assert forall|x: nat| #[trigger] fa.contains(x) implies footprint(a, h, n).contains(x) by {}
                lemma_shows_all_frame(a, b, a[h].children, children);
            }
        },
    }
}

pub proof fn lemma_shows_all_frame<D>(a: Map<nat, DomNode<D>>, b: Map<nat, DomNode<D>>, hs: Seq<nat>, cs: Seq<NodeView<D>>)
    requires
        agree_on(a, b, footprint_all(a, hs, cs)),
    ensures
        shows_all(a, hs, cs) == shows_all(b, hs, cs),
        footprint_all(a, hs, cs) == footprint_all(b, hs, cs),
    decreases cs,
{
    if cs.len() > 0 && hs.len() > 0 {
        let f1 = footprint_all(a, hs.drop_last(), cs.drop_last());
        let f2 = footprint(a, hs.last(), cs.last());
        assert forall|x: nat| #[trigger] f1.contains(x) implies footprint_all(a, hs, cs).contains(x) by {}
        assert forall|x: nat| #[trigger] f2.contains(x) implies footprint_all(a, hs, cs).contains(x) by {}
        lemma_shows_all_frame(a, b, hs.drop_last(), cs.drop_last());
        lemma_shows_frame(a, b, hs.last(), cs.last());
    }
}

/// The handles of the shapes `shs`, in order.
pub open spec fn shape_handles(shs: Seq<Shape>) -> Seq<nat> {
    shs.map_values(|sh: Shape| sh.handle)
}

/// The DOM nodes that show the description `n` from the node `sh.handle` on
/// are arranged as `sh`: each element whose children are rendered has the
/// handles of the children of its shape as children.
pub open spec fn placed<D>(dom: Map<nat, DomNode<D>>, sh: Shape, n: NodeView<D>) -> bool
    decreases n,
{
    match n {
        NodeView::Text { .. } => sh.children.len() == 0,
        NodeView::Element { attrs, children, .. } => if fold_ops(attrs).inner_html is Some {
            sh.children.len() == 0
        } else {
            &&& dom.contains_key(sh.handle)
            &&& dom[sh.handle].children == shape_handles(sh.children)
            &&& placed_all(dom, sh.children, children)
        },
    }
}

/// The DOM nodes that show the descriptions `cs` are arranged as `shs`.
pub open spec fn placed_all<D>(dom: Map<nat, DomNode<D>>, shs: Seq<Shape>, cs: Seq<NodeView<D>>) -> bool
    decreases cs,
{
    &&& shs.len() == cs.len()
    &&& cs.len() > 0 ==> placed_all(dom, shs.drop_last(), cs.drop_last()) && placed(dom, shs.last(), cs.last())
}

/// The arrangement of the nodes that show a description is kept by whatever
/// leaves the nodes of its footprint alone.
pub proof fn lemma_placed_frame<D>(a: Map<nat, DomNode<D>>, b: Map<nat, DomNode<D>>, sh: Shape, n: NodeView<D>)
    requires
        placed(a, sh, n),
        agree_on(a, b, footprint(a, sh.handle, n)),
    ensures
        placed(b, sh, n),
    decreases n,
{
    assert(footprint(a, sh.handle, n).contains(sh.handle));
    match n {
        NodeView::Text { .. } => {},
        NodeView::Element { attrs, children, .. } => {
            if fold_ops(attrs).inner_html is None {
                let fa = footprint_all(a, a[sh.handle].children, children);
                assert forall|x: nat| #[trigger] fa.contains(x) implies footprint(a, sh.handle, n).contains(x) by {}
                lemma_placed_all_frame(a, b, sh.children, children);
            }
        },
    }
}

pub proof fn lemma_placed_all_frame<D>(a: Map<nat, DomNode<D>>, b: Map<nat, DomNode<D>>, shs: Seq<Shape>, cs: Seq<NodeView<D>>)
    requires
        placed_all(a, shs, cs),
        agree_on(a, b, footprint_all(a, shape_handles(shs), cs)),
    ensures
        placed_all(b, shs, cs),
    decreases cs,
{
    if cs.len() > 0 {
        let hs = shape_handles(shs);
        assert(hs.drop_last() =~= shape_handles(shs.drop_last()));
        assert(hs.last() == shs.last().handle);
        let f1 = footprint_all(a, hs.drop_last(), cs.drop_last());
        let f2 = footprint(a, hs.last(), cs.last());
        assert forall|x: nat| #[trigger] f1.contains(x) implies footprint_all(a, hs, cs).contains(x) by {}
        assert forall|x: nat| #[trigger] f2.contains(x) implies footprint_all(a, hs, cs).contains(x) by {}
        lemma_placed_all_frame(a, b, shs.drop_last(), cs.drop_last());
        lemma_placed_frame(a, b, shs.last(), cs.last());
    }
}

// ==== operations on a single node ====

/// The operation acts on an existing node rather than creating one.
pub open spec fn is_node_patch<D>(p: PatchView<D>) -> bool {
    !(p is CreateElement) && !(p is CreateTextNode)
}

/// What the operations `ps` do to a node they all act on.
pub open spec fn node_effects<D>(nd: DomNode<D>, ps: Seq<PatchView<D>>) -> DomNode<D>
    decreases ps.len(),
{
    if ps.len() == 0 {
        nd
    } else {
        node_effect(node_effects(nd, ps.drop_last()), ps.last())
    }
}

proof fn lemma_node_effects_concat<D>(nd: DomNode<D>, a: Seq<PatchView<D>>, b: Seq<PatchView<D>>)
    ensures
        node_effects(nd, a + b) == node_effects(node_effects(nd, a), b),
    decreases b.len(),
{
    if b.len() == 0 {
        assert(a + b =~= a);
    } else {
        assert((a + b).drop_last() =~= a + b.drop_last());
        assert((a + b).last() == b.last());
        lemma_node_effects_concat(nd, a, b.drop_last());
    }
}

/// Operations that all act on the existing node `t` change that node only.
proof fn lemma_apply_on_node<D>(dom: Map<nat, DomNode<D>>, ps: Seq<PatchView<D>>, t: nat)
    requires
        dom.contains_key(t),
        forall|i: int| 0 <= i < ps.len() ==> is_node_patch(#[trigger] ps[i]) && patch_target(ps[i]) == t,
    ensures
        apply_patches(dom, ps) == dom.insert(t, node_effects(dom[t], ps)),
    decreases ps.len(),
{
    if ps.len() == 0 {
        assert(dom.insert(t, dom[t]) =~= dom);
    } else {
        assert forall|i: int| 0 <= i < ps.drop_last().len() implies is_node_patch(#[trigger] ps.drop_last()[i])
            && patch_target(ps.drop_last()[i]) == t by {
            assert(ps.drop_last()[i] == ps[i]);
        }
        lemma_apply_on_node(dom, ps.drop_last(), t);
        let p = ps.last();
        assert(is_node_patch(p) && patch_target(p) == t);
        let d = dom.insert(t, node_effects(dom[t], ps.drop_last()));
        assert(apply_patch(d, p) =~= dom.insert(t, node_effects(dom[t], ps)));
    }
}

/// What the annotations of a new element do to its node.
proof fn lemma_new_ops_effect<D>(id: nat, ops: Seq<AttrOpView<D>>, kind: DomKind)
    ensures
        forall|i: int|
            0 <= i < new_ops_patches::<D>(id, ops).len() ==> is_node_patch(#[trigger] new_ops_patches::<D>(id, ops)[i])
                && patch_target(new_ops_patches::<D>(id, ops)[i]) == id,
        ({
            let r = node_effects(new_dom_node::<D>(kind), new_ops_patches(id, ops));
            &&& r.kind == kind
            &&& r.children == Seq::<nat>::empty()
            &&& forall|x: Seq<char>|
                #[trigger] r.attributes.contains_key(x) == (attribute_text(last_attr(ops, x)) is Some)
            &&& forall|x: Seq<char>|
                r.attributes.contains_key(x) ==> #[trigger] r.attributes[x] == text_of(attribute_text(last_attr(ops, x)))
            &&& forall|x: Seq<char>| #[trigger] r.properties.contains_key(x) == (last_prop(ops, x) is Some)
            &&& forall|x: Seq<char>|
                r.properties.contains_key(x) ==> Some(#[trigger] r.properties[x]) == last_prop(ops, x)
            &&& r.listeners == listeners_of(ops)
            &&& r.inner_html == last_inner(ops)
        }),
    decreases ops.len(),
{
    if ops.len() == 0 {
        assert(new_ops_patches::<D>(id, ops) =~= Seq::<PatchView<D>>::empty());
    } else {
        let rest = ops.drop_last();
        let op = ops.last();
        lemma_new_ops_effect::<D>(id, rest, kind);
        let a = new_ops_patches::<D>(id, rest);
        let b = new_op_patches::<D>(id, op);
        assert(new_ops_patches::<D>(id, ops) == a + b);
        lemma_node_effects_concat(new_dom_node::<D>(kind), a, b);
        let r0 = node_effects(new_dom_node::<D>(kind), a);
        let r = node_effects(new_dom_node::<D>(kind), a + b);
        assert forall|i: int| 0 <= i < (a + b).len() implies is_node_patch(#[trigger] (a + b)[i]) && patch_target(
            (a + b)[i],
        ) == id by {
            if i < a.len() {
                assert((a + b)[i] == a[i]);
            } else {
                assert((a + b)[i] == b[i - a.len()]);
            }
        }
        match op {
            AttrOpView::Attribute { name, value } => {
                assert(node_effects(r0, b) == node_effect(node_effects(r0, b.drop_last()), b.last()));
                assert(b.drop_last() =~= Seq::<PatchView<D>>::empty());
                assert forall|x: Seq<char>| #[trigger] r.attributes.contains_key(x) == (attribute_text(
                    last_attr(ops, x),
                ) is Some) && (r.attributes.contains_key(x) ==> r.attributes[x] == text_of(
                    attribute_text(last_attr(ops, x)),
                )) by {
                    if x != name {
                        assert(last_attr(ops, x) == last_attr(rest, x));
                    }
                }
                assert forall|x: Seq<char>|
                    r.attributes.contains_key(x) implies #[trigger] r.attributes[x] == text_of(
                    attribute_text(last_attr(ops, x)),
                ) by {
                    assert(r.attributes.contains_key(x) == (attribute_text(last_attr(ops, x)) is Some));
                }
                assert forall|x: Seq<char>| #[trigger] r.properties.contains_key(x) == (last_prop(ops, x) is Some) by {
                    assert(last_prop(ops, x) == last_prop(rest, x));
                }
                assert forall|x: Seq<char>|
                    r.properties.contains_key(x) implies Some(#[trigger] r.properties[x]) == last_prop(ops, x) by {
                    assert(last_prop(ops, x) == last_prop(rest, x));
                }
            },
            AttrOpView::Property { name, value } => {
                assert(node_effects(r0, b) == node_effect(node_effects(r0, b.drop_last()), b.last()));
                assert(b.drop_last() =~= Seq::<PatchView<D>>::empty());
                assert forall|x: Seq<char>| #[trigger] r.properties.contains_key(x) == (last_prop(ops, x) is Some) by {
                    if x != name {
                        assert(last_prop(ops, x) == last_prop(rest, x));
                    }
                }
                assert forall|x: Seq<char>|
                    r.properties.contains_key(x) implies Some(#[trigger] r.properties[x]) == last_prop(ops, x) by {
                    if x != name {
                        assert(last_prop(ops, x) == last_prop(rest, x));
                    }
                }
                assert forall|x: Seq<char>| #[trigger] r.attributes.contains_key(x) == (attribute_text(
                    last_attr(ops, x),
                ) is Some) by {
                    assert(last_attr(ops, x) == last_attr(rest, x));
                }
                assert forall|x: Seq<char>|
                    r.attributes.contains_key(x) implies #[trigger] r.attributes[x] == text_of(
                    attribute_text(last_attr(ops, x)),
                ) by {
                    assert(last_attr(ops, x) == last_attr(rest, x));
                }
            },
            AttrOpView::InnerHtml { .. } | AttrOpView::Event { .. } => {
                assert(node_effects(r0, b) == node_effect(node_effects(r0, b.drop_last()), b.last()));
                assert(b.drop_last() =~= Seq::<PatchView<D>>::empty());
                assert forall|x: Seq<char>| #[trigger] r.attributes.contains_key(x) == (attribute_text(
                    last_attr(ops, x),
                ) is Some) by {
                    assert(last_attr(ops, x) == last_attr(rest, x));
                }
                assert forall|x: Seq<char>|
                    r.attributes.contains_key(x) implies #[trigger] r.attributes[x] == text_of(
                    attribute_text(last_attr(ops, x)),
                ) by {
                    assert(last_attr(ops, x) == last_attr(rest, x));
                }
                assert forall|x: Seq<char>| #[trigger] r.properties.contains_key(x) == (last_prop(ops, x) is Some) by {
                    assert(last_prop(ops, x) == last_prop(rest, x));
                }
                assert forall|x: Seq<char>|
                    r.properties.contains_key(x) implies Some(#[trigger] r.properties[x]) == last_prop(ops, x) by {
                    assert(last_prop(ops, x) == last_prop(rest, x));
                }
            },
            _ => {
                assert(b =~= Seq::<PatchView<D>>::empty());
                assert(r == r0);
                assert forall|x: Seq<char>| #[trigger] r.attributes.contains_key(x) == (attribute_text(
                    last_attr(ops, x),
                ) is Some) by {
                    assert(last_attr(ops, x) == last_attr(rest, x));
                }
                assert forall|x: Seq<char>|
                    r.attributes.contains_key(x) implies #[trigger] r.attributes[x] == text_of(
                    attribute_text(last_attr(ops, x)),
                ) by {
                    assert(last_attr(ops, x) == last_attr(rest, x));
                }
                assert forall|x: Seq<char>| #[trigger] r.properties.contains_key(x) == (last_prop(ops, x) is Some) by {
                    assert(last_prop(ops, x) == last_prop(rest, x));
                }
                assert forall|x: Seq<char>|
                    r.properties.contains_key(x) implies Some(#[trigger] r.properties[x]) == last_prop(ops, x) by {
                    assert(last_prop(ops, x) == last_prop(rest, x));
                }
            },
        }
    }
}


/// The document has no node from the handle `id` on.
pub open spec fn fresh_from<D>(dom: Map<nat, DomNode<D>>, id: nat) -> bool {
    forall|h: nat| h >= id ==> !#[trigger] dom.contains_key(h)
}

/// The documents agree on every node but `except` and those of handles from
/// `lo` up to `hi`.
pub open spec fn unchanged_but<D>(a: Map<nat, DomNode<D>>, b: Map<nat, DomNode<D>>, except: nat, lo: nat, hi: nat) -> bool {
    forall|h: nat|
        h != except && !(lo <= h < hi) ==> (#[trigger] b.contains_key(h) <==> a.contains_key(h)) && (a.contains_key(h)
            ==> b[h] == a[h])
}

/// The node of an element just created and annotated shows the element, but
/// for its children.
proof fn lemma_annotated_node<D>(id: nat, tag_name: Seq<char>, namespace_uri: Option<Seq<char>>, attrs: Seq<AttrOpView<D>>)
    ensures
        ({
            let st = fold_ops(attrs);
            let ps = new_ops_patches::<D>(id, attrs) + end_patches::<D>(id, st);
            let r = node_effects(new_dom_node::<D>(DomKind::Element { tag_name, namespace_uri }), ps);
            &&& forall|i: int| 0 <= i < ps.len() ==> is_node_patch(#[trigger] ps[i]) && patch_target(ps[i]) == id
            &&& r.kind == (DomKind::Element { tag_name, namespace_uri })
            &&& r.children == Seq::<nat>::empty()
            &&& r.attributes == shown_attributes(st)
            &&& props_shown(r.properties, st.properties)
            &&& r.listeners == listeners_of(attrs)
            &&& r.inner_html == st.inner_html
        }),
{
    let st = fold_ops(attrs);
    let kind = DomKind::Element { tag_name, namespace_uri };
    let a = new_ops_patches::<D>(id, attrs);
    let e = end_patches::<D>(id, st);
    lemma_new_ops_effect::<D>(id, attrs, kind);
    lemma_fold_entries(attrs);
    lemma_node_effects_concat(new_dom_node::<D>(kind), a, e);
    let r0 = node_effects(new_dom_node::<D>(kind), a);
    let r = node_effects(new_dom_node::<D>(kind), a + e);
    assert(e.drop_last().drop_last() =~= Seq::<PatchView<D>>::empty());
    assert(node_effects(r0, e.drop_last().drop_last()) == r0);
    assert(e.drop_last().last() == e[0]);
    assert(node_effects(r0, e.drop_last()) == node_effect(r0, e[0]));
    assert(node_effects(r0, e) == node_effect(node_effect(r0, e[0]), e[1]));
    assert forall|i: int| 0 <= i < (a + e).len() implies is_node_patch(#[trigger] (a + e)[i]) && patch_target((a + e)[i])
        == id by {
        if i < a.len() {
            assert((a + e)[i] == a[i]);
        } else {
            assert((a + e)[i] == e[i - a.len()]);
        }
    }
    assert(r.attributes =~= shown_attributes(st));
    assert forall|x: Seq<char>| #![trigger r.properties.contains_key(x)] #![trigger entry_value(st.properties, x)]
        match entry_value(st.properties, x) {
            Some(v) => r.properties.contains_key(x) && prop_matches(r.properties[x], v),
            None => !r.properties.contains_key(x),
        } by {
        assert(entry_value(st.properties, x) == last_prop(attrs, x));
        assert(r.properties.contains_key(x) == r0.properties.contains_key(x));
    }
}

/// Creating a description makes a new DOM node that shows it, appended to
/// `parent`: where the document has `parent`, below the handle `id`, and no
/// node from `id` on, the operations that create `n` leave a document in
/// which the node `id` shows `n`, reading only nodes from `id` on; the
/// parent gets `id` as its last child, and no other node that was there
/// changes.
pub proof fn law_create_shows<D>(dom: Map<nat, DomNode<D>>, n: NodeView<D>, parent: nat, id: nat)
    requires
        dom.contains_key(parent),
        parent < id,
        fresh_from(dom, id),
    ensures
        ({
            let r = create_node_patches(n, parent, id);
            let d = apply_patches(dom, r.0);
            &&& shows(d, id, n)
            &&& placed(d, create_shape(n, parent, id), n)
            &&& forall|x: nat| #[trigger] footprint(d, id, n).contains(x) ==> id <= x < r.1
            &&& fresh_from(d, r.1)
            &&& d.contains_key(parent)
            &&& d[parent] == node_effect(dom[parent], PatchView::AppendChild { parent, child: id })
            &&& unchanged_but(dom, d, parent, id, r.1)
        }),
    decreases n,
{
    let r = create_node_patches(n, parent, id);
    crate::render::lemma_create_bounds(n, parent, id);
    match n {
        NodeView::Text { data } => {
            let p1 = PatchView::<D>::CreateTextNode { node: id, data };
            let p2 = PatchView::<D>::AppendChild { parent, child: id };
            assert(r.0.drop_last().drop_last() =~= Seq::<PatchView<D>>::empty());
            assert(apply_patches(dom, r.0.drop_last().drop_last()) == dom);
            assert(r.0.drop_last().last() == p1);
            assert(apply_patches(dom, r.0.drop_last()) == apply_patch(dom, p1));
            let d = apply_patches(dom, r.0);
            assert(d == apply_patch(apply_patch(dom, p1), p2));
            let d1 = dom.insert(id, new_dom_node::<D>(DomKind::Text { data }));
            assert(apply_patch(dom, p1) == d1);
            assert(d == d1.insert(parent, node_effect(d1[parent], p2)));
            assert(d1[parent] == dom[parent]);
            assert(shows(d, id, n));
            assert(footprint(d, id, n) =~= Set::<nat>::empty().insert(id));
            assert(fresh_from(d, id + 1));
            assert(unchanged_but(dom, d, parent, id, id + 1));
        },
        NodeView::Element { tag_name, namespace_uri, attrs, children } => {
            let st = fold_ops(attrs);
            let create = seq![PatchView::<D>::CreateElement { node: id, tag_name, namespace_uri }];
            let annotate = new_ops_patches::<D>(id, attrs) + end_patches::<D>(id, st);
            let c = if st.inner_html is None {
                create_children_patches(children, id, id + 1)
            } else {
                (Seq::<PatchView<D>>::empty(), id + 1)
            };
            let append = seq![PatchView::<D>::AppendChild { parent, child: id }];
            assert(r.0 == create + new_ops_patches::<D>(id, attrs) + end_patches::<D>(id, st) + c.0 + append);
            assert(r.0 =~= create + annotate + c.0 + append);
            lemma_apply_concat(dom, create + annotate + c.0, append);
            lemma_apply_concat(dom, create + annotate, c.0);
            lemma_apply_concat(dom, create, annotate);
            let d1 = apply_patches(dom, create);
            assert(create.drop_last() =~= Seq::<PatchView<D>>::empty());
            assert(apply_patches(dom, create.drop_last()) == dom);
            assert(d1 == dom.insert(id, new_dom_node::<D>(DomKind::Element { tag_name, namespace_uri })));
            lemma_annotated_node::<D>(id, tag_name, namespace_uri, attrs);
            lemma_apply_on_node(d1, annotate, id);
            let d2 = apply_patches(d1, annotate);
            let nd = node_effects(d1[id], annotate);
            assert(d2 == d1.insert(id, nd));
            let d3 = apply_patches(d2, c.0);
            if st.inner_html is None {
                lemma_create_children_shows(d2, children, id, id + 1);
                assert(d3[id].children.skip(0) =~= d3[id].children);
                assert(d3[id] == DomNode { children: d3[id].children, ..nd });
            } else {
                assert(d3 == d2);
            }
            assert(shows(d3, id, n));
            assert(placed(d3, create_shape(n, parent, id), n));
            assert forall|x: nat| #[trigger] footprint(d3, id, n).contains(x) implies id <= x < r.1 by {
                if x != id && st.inner_html is None {
                    assert(footprint_all(d3, d3[id].children, children).contains(x));
                }
                if st.inner_html is Some {
                    assert(d3[id].children.len() == 0);
                    assert(footprint_all(d3, d3[id].children, children) =~= Set::<nat>::empty());
                }
            }
            let d = apply_patches(d3, append);
            assert(append.drop_last() =~= Seq::<PatchView<D>>::empty());
            assert(apply_patches(d3, append.drop_last()) == d3);
            assert(d2.contains_key(parent) && d2[parent] == dom[parent]);
            assert(d3.contains_key(parent));
            assert(d3[parent] == dom[parent]);
            assert(d == d3.insert(parent, node_effect(d3[parent], append[0])));
            assert(agree_on(d3, d, footprint(d3, id, n)));
            lemma_shows_frame(d3, d, id, n);
            lemma_placed_frame(d3, d, create_shape(n, parent, id), n);
        },
    }
}

/// Creating descriptions under `parent` appends one new DOM node for each,
/// showing it.
pub proof fn lemma_create_children_shows<D>(dom: Map<nat, DomNode<D>>, cs: Seq<NodeView<D>>, parent: nat, id: nat)
    requires
        dom.contains_key(parent),
        parent < id,
        fresh_from(dom, id),
    ensures
        ({
            let r = create_children_patches(cs, parent, id);
            let d = apply_patches(dom, r.0);
            let k = dom[parent].children.len();
            &&& d.contains_key(parent)
            &&& d[parent] == DomNode { children: d[parent].children, ..dom[parent] }
            &&& d[parent].children.len() == k + cs.len()
            &&& d[parent].children.take(k as int) == dom[parent].children
            &&& shows_all(d, d[parent].children.skip(k as int), cs)
            &&& d[parent].children.skip(k as int) == shape_handles(create_children_shape(cs, parent, id))
            &&& placed_all(d, create_children_shape(cs, parent, id), cs)
            &&& forall|x: nat| #[trigger] footprint_all(d, d[parent].children.skip(k as int), cs).contains(x) ==> id <= x < r.1
            &&& fresh_from(d, r.1)
            &&& unchanged_but(dom, d, parent, id, r.1)
            &&& id <= r.1
        }),
    decreases cs,
{
    let r = create_children_patches(cs, parent, id);
    let k = dom[parent].children.len();
    crate::render::lemma_create_children_bounds(cs, parent, id);
    if cs.len() == 0 {
        assert(dom[parent].children.take(k as int) =~= dom[parent].children);
        assert(dom[parent].children.skip(k as int) =~= Seq::<nat>::empty());
        assert(shape_handles(create_children_shape(cs, parent, id)) =~= Seq::<nat>::empty());
    } else {
        let a = create_children_patches(cs.drop_last(), parent, id);
        let b = create_node_patches(cs.last(), parent, a.1);
        lemma_create_children_shows(dom, cs.drop_last(), parent, id);
        let da = apply_patches(dom, a.0);
        lemma_apply_concat(dom, a.0, b.0);
        law_create_shows(da, cs.last(), parent, a.1);
        let d = apply_patches(da, b.0);
        let hs_a = da[parent].children.skip(k as int);
        let hs = d[parent].children.skip(k as int);
        assert(d[parent].children == da[parent].children.push(a.1));
        assert(hs =~= hs_a.push(a.1));
        assert(hs.drop_last() =~= hs_a);
        assert(d[parent].children.take(k as int) =~= da[parent].children.take(k as int));
        assert(agree_on(da, d, footprint_all(da, hs_a, cs.drop_last())));
        lemma_shows_all_frame(da, d, hs_a, cs.drop_last());
        let shs = create_children_shape(cs, parent, id);
        assert(shs.drop_last() == create_children_shape(cs.drop_last(), parent, id));
        assert(shape_handles(shs) =~= shape_handles(shs.drop_last()).push(a.1));
        lemma_placed_all_frame(da, d, shs.drop_last(), cs.drop_last());
        assert forall|x: nat| #[trigger] footprint_all(d, hs, cs).contains(x) implies id <= x < r.1 by {
            assert(footprint_all(d, hs, cs) == footprint_all(d, hs_a, cs.drop_last()).union(footprint(d, a.1, cs.last())));
        }
    }
}


// ==== comparing annotations, on the document ====

/// The attribute value under `x` while comparing: that of the last
/// annotation so far that names `x`, else the previous one.
pub open spec fn cur_attr<D>(pre: Seq<AttrOpView<D>>, a: Seq<(Seq<char>, AttributeView)>, x: Seq<char>) -> Option<AttributeView> {
    if last_attr(pre, x) is Some {
        last_attr(pre, x)
    } else {
        entry_value(a, x)
    }
}

/// The property value under `x` while comparing.
pub open spec fn cur_prop<D>(pre: Seq<AttrOpView<D>>, p: Seq<(Seq<char>, PropertyView)>, x: Seq<char>) -> Option<PropertyView> {
    if last_prop(pre, x) is Some {
        last_prop(pre, x)
    } else {
        entry_value(p, x)
    }
}

/// The attributes of a node show `v` under every name but `class` and
/// `style`.
pub open spec fn attrs_show(m: Map<Seq<char>, Seq<char>>, v: spec_fn(Seq<char>) -> Option<AttributeView>) -> bool {
    forall|x: Seq<char>|
        x != "class"@ && x != "style"@ ==> (#[trigger] m.contains_key(x) == (attribute_text(v(x)) is Some)) && (
        m.contains_key(x) ==> m[x] == text_of(attribute_text(v(x))))
}

/// The properties of a node stand for `v` under every name.
pub open spec fn props_show(m: Map<Seq<char>, PropertyView>, v: spec_fn(Seq<char>) -> Option<PropertyView>) -> bool {
    forall|x: Seq<char>|
        (#[trigger] m.contains_key(x) == (v(x) is Some)) && (m.contains_key(x) ==> opt_prop_matches(m[x], v(x)))
}

/// A property value in the document stands for the value `v`, if any.
pub open spec fn opt_prop_matches(a: PropertyView, v: Option<PropertyView>) -> bool {
    match v {
        Some(w) => prop_matches(a, w),
        None => false,
    }
}

proof fn lemma_prop_matches_trans(a: PropertyView, b: PropertyView, c: PropertyView)
    requires
        prop_matches(a, b),
        property_eq(b, c),
    ensures
        prop_matches(a, c),
{
}

/// Comparing annotations acts on the node of the element only, registers
/// its listeners, and leaves each attribute and property at the value of the
/// last annotation naming it, or at its previous value.
proof fn lemma_diff_ops_dom<D>(
    node: nat,
    pre: Seq<AttrOpView<D>>,
    a: Seq<(Seq<char>, AttributeView)>,
    p: Seq<(Seq<char>, PropertyView)>,
    nd0: DomNode<D>,
)
    requires
        keys_unique(a),
        keys_unique(p),
        last_inner(pre) is None,
        nd0.listeners == Map::<Seq<char>, D>::empty(),
        attrs_show(nd0.attributes, |x: Seq<char>| entry_value(a, x)),
        props_show(nd0.properties, |x: Seq<char>| entry_value(p, x)),
    ensures
        ({
            let d = diff_ops(node, pre, a, p, None);
            let nd = node_effects(nd0, d.patches);
            &&& forall|i: int| 0 <= i < d.patches.len() ==> is_node_patch(#[trigger] d.patches[i]) && patch_target(
                d.patches[i],
            ) == node
            &&& keys_unique(d.old_attributes)
            &&& keys_unique(d.old_properties)
            &&& forall|x: Seq<char>|
                #[trigger] entry_value(d.old_attributes, x) == if last_attr(pre, x) is Some {
                    None
                } else {
                    entry_value(a, x)
                }
            &&& forall|x: Seq<char>|
                #[trigger] entry_value(d.old_properties, x) == if last_prop(pre, x) is Some {
                    None
                } else {
                    entry_value(p, x)
                }
            &&& nd.kind == nd0.kind
            &&& nd.children == nd0.children
            &&& nd.inner_html == nd0.inner_html
            &&& nd.listeners == listeners_of(pre)
            &&& attrs_show(nd.attributes, |x: Seq<char>| cur_attr(pre, a, x))
            &&& props_show(nd.properties, |x: Seq<char>| cur_prop(pre, p, x))
        }),
    decreases pre.len(),
{
    if pre.len() == 0 {
        assert(attrs_show(nd0.attributes, |x: Seq<char>| cur_attr(pre, a, x))) by {
            assert forall|x: Seq<char>| x != "class"@ && x != "style"@ implies (#[trigger] nd0.attributes.contains_key(x)
                == (attribute_text(cur_attr(pre, a, x)) is Some)) && (nd0.attributes.contains_key(x)
                ==> nd0.attributes[x] == text_of(attribute_text(cur_attr(pre, a, x)))) by {
                assert(cur_attr(pre, a, x) == entry_value(a, x));
            }
        }
        assert(props_show(nd0.properties, |x: Seq<char>| cur_prop(pre, p, x))) by {
            assert forall|x: Seq<char>| (#[trigger] nd0.properties.contains_key(x) == (cur_prop(pre, p, x) is Some)) && (
            nd0.properties.contains_key(x) ==> opt_prop_matches(nd0.properties[x], cur_prop(pre, p, x))) by {
                assert(cur_prop(pre, p, x) == entry_value(p, x));
            }
        }
    } else {
        let rest = pre.drop_last();
        let op = pre.last();
        assert(last_inner(rest) is None);
        lemma_diff_ops_dom(node, rest, a, p, nd0);
        let d0 = diff_ops(node, rest, a, p, None);
        let d = diff_ops(node, pre, a, p, None);
        let nd1 = node_effects(nd0, d0.patches);
        let nd = node_effects(nd0, d.patches);
        assert(d == diff_op(node, d0, op, None));
        if d.patches.len() > d0.patches.len() {
            assert(d.patches.drop_last() =~= d0.patches);
            assert(nd == node_effect(nd1, d.patches.last()));
            assert forall|i: int| 0 <= i < d.patches.len() implies is_node_patch(#[trigger] d.patches[i]) && patch_target(
                d.patches[i],
            ) == node by {
                if i < d0.patches.len() {
                    assert(d.patches[i] == d0.patches[i]);
                }
            }
        } else {
            assert(d.patches == d0.patches);
        }
        match op {
            AttrOpView::Attribute { name, value } => {
                lemma_key_index(d0.old_attributes, name);
                lemma_swap_remove_unique(d0.old_attributes, name);
                assert(entry_value(d0.old_attributes, name) == if last_attr(rest, name) is Some {
                    None
                } else {
                    entry_value(a, name)
                });
                assert forall|x: Seq<char>| #[trigger] entry_value(d.old_attributes, x) == if last_attr(pre, x) is Some {
                    None
                } else {
                    entry_value(a, x)
                } by {
                    lemma_swap_remove_value(d0.old_attributes, name, x);
                    if x != name {
                        assert(last_attr(pre, x) == last_attr(rest, x));
                    }
                }
                assert forall|x: Seq<char>| #[trigger] entry_value(d.old_properties, x) == if last_prop(pre, x) is Some {
                    None
                } else {
                    entry_value(p, x)
                } by {
                    assert(last_prop(pre, x) == last_prop(rest, x));
                }
                assert forall|x: Seq<char>| x != "class"@ && x != "style"@ implies (#[trigger] nd.attributes.contains_key(x)
                    == (attribute_text(cur_attr(pre, a, x)) is Some)) && (nd.attributes.contains_key(x)
                    ==> nd.attributes[x] == text_of(attribute_text(cur_attr(pre, a, x)))) by {
                    if x != name {
                        assert(last_attr(pre, x) == last_attr(rest, x));
                        assert(cur_attr(pre, a, x) == cur_attr(rest, a, x));
                        assert(nd1.attributes.contains_key(x) == (attribute_text(cur_attr(rest, a, x)) is Some));
                    } else {
                        assert(cur_attr(pre, a, x) == Some(value));
                        assert(nd1.attributes.contains_key(x) == (attribute_text(cur_attr(rest, a, x)) is Some));
                    }
                }
                assert forall|x: Seq<char>| (#[trigger] nd.properties.contains_key(x) == (cur_prop(pre, p, x) is Some)) && (
                nd.properties.contains_key(x) ==> opt_prop_matches(nd.properties[x], cur_prop(pre, p, x))) by {
                    assert(last_prop(pre, x) == last_prop(rest, x));
                    assert(cur_prop(pre, p, x) == cur_prop(rest, p, x));
                    assert(nd1.properties.contains_key(x) == (cur_prop(rest, p, x) is Some));
                }
            },
            AttrOpView::Property { name, value } => {
                lemma_key_index(d0.old_properties, name);
                lemma_swap_remove_unique(d0.old_properties, name);
                assert(entry_value(d0.old_properties, name) == if last_prop(rest, name) is Some {
                    None
                } else {
                    entry_value(p, name)
                });
                assert forall|x: Seq<char>| #[trigger] entry_value(d.old_properties, x) == if last_prop(pre, x) is Some {
                    None
                } else {
                    entry_value(p, x)
                } by {
                    lemma_swap_remove_value(d0.old_properties, name, x);
                    if x != name {
                        assert(last_prop(pre, x) == last_prop(rest, x));
                    }
                }
                assert forall|x: Seq<char>| #[trigger] entry_value(d.old_attributes, x) == if last_attr(pre, x) is Some {
                    None
                } else {
                    entry_value(a, x)
                } by {
                    assert(last_attr(pre, x) == last_attr(rest, x));
                }
                assert forall|x: Seq<char>| x != "class"@ && x != "style"@ implies (#[trigger] nd.attributes.contains_key(x)
                    == (attribute_text(cur_attr(pre, a, x)) is Some)) && (nd.attributes.contains_key(x)
                    ==> nd.attributes[x] == text_of(attribute_text(cur_attr(pre, a, x)))) by {
                    assert(last_attr(pre, x) == last_attr(rest, x));
                    assert(cur_attr(pre, a, x) == cur_attr(rest, a, x));
                    assert(nd1.attributes.contains_key(x) == (attribute_text(cur_attr(rest, a, x)) is Some));
                }
                assert forall|x: Seq<char>| (#[trigger] nd.properties.contains_key(x) == (cur_prop(pre, p, x) is Some)) && (
                nd.properties.contains_key(x) ==> opt_prop_matches(nd.properties[x], cur_prop(pre, p, x))) by {
                    assert(nd1.properties.contains_key(x) == (cur_prop(rest, p, x) is Some));
                    if x != name {
                        assert(last_prop(pre, x) == last_prop(rest, x));
                        assert(cur_prop(pre, p, x) == cur_prop(rest, p, x));
                    } else {
                        assert(cur_prop(pre, p, x) == Some(value));
                        if d.patches.len() == d0.patches.len() {
                            let i = key_index(d0.old_properties, name);
                            let old_v = d0.old_properties[i].1;
                            assert(property_eq(old_v, value));
                            assert(entry_value(d0.old_properties, name) == Some(old_v));
                            assert(cur_prop(rest, p, x) == Some(old_v));
                            lemma_prop_matches_trans(nd1.properties[x], old_v, value);
                        }
                    }
                }
            },
            _ => {
                assert forall|x: Seq<char>| #[trigger] entry_value(d.old_attributes, x) == if last_attr(pre, x) is Some {
                    None
                } else {
                    entry_value(a, x)
                } by {
                    assert(last_attr(pre, x) == last_attr(rest, x));
                }
                assert forall|x: Seq<char>| #[trigger] entry_value(d.old_properties, x) == if last_prop(pre, x) is Some {
                    None
                } else {
                    entry_value(p, x)
                } by {
                    assert(last_prop(pre, x) == last_prop(rest, x));
                }
                assert forall|x: Seq<char>| x != "class"@ && x != "style"@ implies (#[trigger] nd.attributes.contains_key(x)
                    == (attribute_text(cur_attr(pre, a, x)) is Some)) && (nd.attributes.contains_key(x)
                    ==> nd.attributes[x] == text_of(attribute_text(cur_attr(pre, a, x)))) by {
                    assert(last_attr(pre, x) == last_attr(rest, x));
                    assert(cur_attr(pre, a, x) == cur_attr(rest, a, x));
                    assert(nd1.attributes.contains_key(x) == (attribute_text(cur_attr(rest, a, x)) is Some));
                }
                assert forall|x: Seq<char>| (#[trigger] nd.properties.contains_key(x) == (cur_prop(pre, p, x) is Some)) && (
                nd.properties.contains_key(x) ==> opt_prop_matches(nd.properties[x], cur_prop(pre, p, x))) by {
                    assert(last_prop(pre, x) == last_prop(rest, x));
                    assert(cur_prop(pre, p, x) == cur_prop(rest, p, x));
                    assert(nd1.properties.contains_key(x) == (cur_prop(rest, p, x) is Some));
                }
            },
        }
    }
}


proof fn lemma_remove_attributes_effect<D>(node: nat, left: Seq<(Seq<char>, AttributeView)>, nd: DomNode<D>)
    ensures
        ({
            let ps = remove_attribute_patches::<D>(node, left);
            let r = node_effects(nd, ps);
            &&& forall|i: int| 0 <= i < ps.len() ==> is_node_patch(#[trigger] ps[i]) && patch_target(ps[i]) == node
            &&& r == DomNode { attributes: r.attributes, ..nd }
            &&& forall|x: Seq<char>|
                #[trigger] r.attributes.contains_key(x) == (nd.attributes.contains_key(x) && key_index(left, x) < 0)
            &&& forall|x: Seq<char>| r.attributes.contains_key(x) ==> #[trigger] r.attributes[x] == nd.attributes[x]
        }),
    decreases left.len(),
{
    let ps = remove_attribute_patches::<D>(node, left);
    if left.len() > 0 {
        lemma_remove_attributes_effect(node, left.drop_last(), nd);
        assert(ps.drop_last() =~= remove_attribute_patches::<D>(node, left.drop_last()));
    }
}

proof fn lemma_remove_properties_effect<D>(node: nat, left: Seq<(Seq<char>, PropertyView)>, nd: DomNode<D>)
    ensures
        ({
            let ps = remove_property_patches::<D>(node, left);
            let r = node_effects(nd, ps);
            &&& forall|i: int| 0 <= i < ps.len() ==> is_node_patch(#[trigger] ps[i]) && patch_target(ps[i]) == node
            &&& r == DomNode { properties: r.properties, ..nd }
            &&& forall|x: Seq<char>|
                #[trigger] r.properties.contains_key(x) == (nd.properties.contains_key(x) && key_index(left, x) < 0)
            &&& forall|x: Seq<char>| r.properties.contains_key(x) ==> #[trigger] r.properties[x] == nd.properties[x]
        }),
    decreases left.len(),
{
    let ps = remove_property_patches::<D>(node, left);
    if left.len() > 0 {
        lemma_remove_properties_effect(node, left.drop_last(), nd);
        assert(ps.drop_last() =~= remove_property_patches::<D>(node, left.drop_last()));
    }
}

/// The operations that bring the node of an element up to date, but for its
/// children.
pub open spec fn element_update_patches<D>(node: nat, ve: VElement, attrs: Seq<AttrOpView<D>>) -> Seq<PatchView<D>> {
    let d = diff_ops(
        node,
        attrs,
        attribute_entries(ve.attributes),
        property_entries(ve.properties),
        opt_view(ve.inner_html),
    );
    seq![PatchView::ClearListeners { node }] + d.patches + remove_attribute_patches(node, d.old_attributes)
        + remove_property_patches(node, d.old_properties) + end_patches(node, fold_ops(attrs))
}

/// Bringing the node of an element up to date: where it shows the state of
/// the previous rendering, with no inner HTML, and the annotations give none,
/// it then shows the annotations, with its children as they were.
proof fn lemma_element_update<D>(node: nat, ve: VElement, attrs: Seq<AttrOpView<D>>, nd0: DomNode<D>)
    requires
        nd0.attributes == shown_attributes(element_state(ve)),
        props_shown(nd0.properties, element_state(ve).properties),
        keys_unique(element_state(ve).attributes),
        keys_unique(element_state(ve).properties),
        ve.inner_html is None,
        last_inner(attrs) is None,
    ensures
        ({
            let ps = element_update_patches(node, ve, attrs);
            let nd = node_effects(nd0, ps);
            let st = fold_ops(attrs);
            &&& forall|i: int| 0 <= i < ps.len() ==> is_node_patch(#[trigger] ps[i]) && patch_target(ps[i]) == node
            &&& nd.kind == nd0.kind
            &&& nd.children == nd0.children
            &&& nd.inner_html == nd0.inner_html
            &&& nd.attributes == shown_attributes(st)
            &&& props_shown(nd.properties, st.properties)
            &&& nd.listeners == listeners_of(attrs)
        }),
{
    let a = attribute_entries(ve.attributes);
    let p = property_entries(ve.properties);
    let st = fold_ops(attrs);
    let d = diff_ops(node, attrs, a, p, opt_view(ve.inner_html));
    let clear = seq![PatchView::<D>::ClearListeners { node }];
    let ra = remove_attribute_patches::<D>(node, d.old_attributes);
    let rp = remove_property_patches::<D>(node, d.old_properties);
    let e = end_patches::<D>(node, st);
    let ps = element_update_patches(node, ve, attrs);
    assert(ps == clear + d.patches + ra + rp + e);
    lemma_fold_entries(attrs);
    // clearing the listeners
    assert(clear.drop_last() =~= Seq::<PatchView<D>>::empty());
    assert(node_effects(nd0, clear.drop_last()) == nd0);
    let n1 = node_effects(nd0, clear);
    assert(n1 == DomNode { listeners: Map::<Seq<char>, D>::empty(), ..nd0 });
    assert(attrs_show(n1.attributes, |x: Seq<char>| entry_value(a, x))) by {
        assert forall|x: Seq<char>| x != "class"@ && x != "style"@ implies (#[trigger] n1.attributes.contains_key(x)
            == (attribute_text(entry_value(a, x)) is Some)) && (n1.attributes.contains_key(x) ==> n1.attributes[x]
            == text_of(attribute_text(entry_value(a, x)))) by {
            assert(element_state(ve).attributes == a);
        }
    }
    assert(props_show(n1.properties, |x: Seq<char>| entry_value(p, x))) by {
        assert forall|x: Seq<char>| (#[trigger] n1.properties.contains_key(x) == (entry_value(p, x) is Some)) && (
        n1.properties.contains_key(x) ==> opt_prop_matches(n1.properties[x], entry_value(p, x))) by {
            assert(element_state(ve).properties == p);
            assert(n1.properties == nd0.properties);
            if nd0.properties.contains_key(x) {
                assert(entry_value(p, x) is Some);
            }
        }
    }
    // comparing the annotations
    lemma_diff_ops_dom(node, attrs, a, p, n1);
    let n2 = node_effects(n1, d.patches);
    // removing the attributes and properties left over
    lemma_remove_attributes_effect(node, d.old_attributes, n2);
    let n3 = node_effects(n2, ra);
    lemma_remove_properties_effect(node, d.old_properties, n3);
    let n4 = node_effects(n3, rp);
    // completing the annotations
    assert(e.drop_last().drop_last() =~= Seq::<PatchView<D>>::empty());
    assert(node_effects(n4, e.drop_last().drop_last()) == n4);
    assert(e.drop_last().last() == e[0]);
    assert(node_effects(n4, e.drop_last()) == node_effect(n4, e[0]));
    let n5 = node_effects(n4, e);
    lemma_node_effects_concat(nd0, clear, d.patches);
    lemma_node_effects_concat(nd0, clear + d.patches, ra);
    lemma_node_effects_concat(nd0, clear + d.patches + ra, rp);
    lemma_node_effects_concat(nd0, clear + d.patches + ra + rp, e);
    assert(node_effects(nd0, ps) == n5);
    assert forall|i: int| 0 <= i < ps.len() implies is_node_patch(#[trigger] ps[i]) && patch_target(ps[i]) == node by {
        let l1 = clear.len();
        let l2 = l1 + d.patches.len();
        let l3 = l2 + ra.len();
        let l4 = l3 + rp.len();
        if i < l1 {
            assert(ps[i] == clear[i]);
        } else if i < l2 {
            assert(ps[i] == d.patches[i - l1]);
        } else if i < l3 {
            assert(ps[i] == ra[i - l2]);
        } else if i < l4 {
            assert(ps[i] == rp[i - l3]);
        } else {
            assert(ps[i] == e[i - l4]);
        }
    }
    assert(n4.attributes == n3.attributes);
    assert(e[0] == PatchView::<D>::SetAttribute { node, name: "class"@, value: class_value(st) });
    assert(e[1] == PatchView::<D>::SetAttribute { node, name: "style"@, value: style_value(st) });
    assert(n5.attributes == n4.attributes.insert("class"@, class_value(st)).insert("style"@, style_value(st)));
    let shown = shown_attributes(st);
    assert forall|x: Seq<char>| #[trigger] n5.attributes.contains_key(x) == shown.contains_key(x) && (
    n5.attributes.contains_key(x) ==> n5.attributes[x] == shown[x]) by {
        if x != "class"@ && x != "style"@ {
            lemma_key_index(d.old_attributes, x);
            assert(entry_value(st.attributes, x) == last_attr(attrs, x));
            assert(n2.attributes.contains_key(x) == (attribute_text(cur_attr(attrs, a, x)) is Some));
            assert(n3.attributes.contains_key(x) == (n2.attributes.contains_key(x) && key_index(d.old_attributes, x) < 0));
            assert(entry_value(d.old_attributes, x) == if last_attr(attrs, x) is Some {
                None
            } else {
                entry_value(a, x)
            });
            assert(n5.attributes.contains_key(x) == n3.attributes.contains_key(x));
            assert(shown.contains_key(x) == (attribute_text(entry_value(st.attributes, x)) is Some));
            if n5.attributes.contains_key(x) {
                assert(n5.attributes[x] == n2.attributes[x]);
                assert(shown[x] == text_of(attribute_text(entry_value(st.attributes, x))));
            }
        }
    }
    assert(n5.attributes =~= shown);
    assert forall|x: Seq<char>| #![trigger n5.properties.contains_key(x)] #![trigger entry_value(st.properties, x)]
        match entry_value(st.properties, x) {
            Some(v) => n5.properties.contains_key(x) && prop_matches(n5.properties[x], v),
            None => !n5.properties.contains_key(x),
        } by {
        lemma_key_index(d.old_properties, x);
        assert(entry_value(st.properties, x) == last_prop(attrs, x));
        assert(n2.properties.contains_key(x) == (cur_prop(attrs, p, x) is Some));
        assert(n4.properties.contains_key(x) == (n2.properties.contains_key(x) && key_index(d.old_properties, x) < 0));
        assert(entry_value(d.old_properties, x) == if last_prop(attrs, x) is Some {
            None
        } else {
            entry_value(p, x)
        });
        if n2.properties.contains_key(x) {
            assert(opt_prop_matches(n2.properties[x], cur_prop(attrs, p, x)));
        }
    }
}


// ==== the document holding the previous rendering ====

/// The handles of the DOM nodes of a virtual tree.
pub open spec fn vnode_ids(v: VNode) -> Set<nat>
    decreases v,
{
    match v {
        VNode::Text(t) => Set::empty().insert(t.node as nat),
        VNode::Element(ve) => vnodes_ids(ve.children@).insert(ve.node as nat),
    }
}

/// The handles of the DOM nodes of a sequence of virtual trees.
pub open spec fn vnodes_ids(s: Seq<VNode>) -> Set<nat>
    decreases s,
{
    if s.len() == 0 {
        Set::empty()
    } else {
        vnodes_ids(s.drop_last()).union(vnode_ids(s.last()))
    }
}

/// No two nodes of the virtual tree share a handle.
pub open spec fn vnode_distinct(v: VNode) -> bool
    decreases v,
{
    match v {
        VNode::Text(_) => true,
        VNode::Element(ve) => !vnodes_ids(ve.children@).contains(ve.node as nat) && vnodes_distinct(ve.children@),
    }
}

/// No two nodes of the virtual trees share a handle.
pub open spec fn vnodes_distinct(s: Seq<VNode>) -> bool
    decreases s,
{
    if s.len() == 0 {
        true
    } else {
        &&& vnodes_distinct(s.drop_last())
        &&& vnode_distinct(s.last())
        &&& vnodes_ids(s.drop_last()).disjoint(vnode_ids(s.last()))
    }
}

/// The handles of the DOM nodes of the virtual trees, in order.
pub open spec fn child_handles(s: Seq<VNode>) -> Seq<nat> {
    s.map_values(|v: VNode| node_id(v))
}

/// The document holds the virtual tree `v`: each node of `v` has its DOM
/// node, of its kind, with its attributes and properties, no inner HTML, and
/// the DOM nodes of its children as children.
pub open spec fn holds<D>(dom: Map<nat, DomNode<D>>, v: VNode) -> bool
    decreases v,
{
    &&& dom.contains_key(node_id(v))
    &&& match v {
        VNode::Text(t) => dom[t.node as nat].kind == DomKind::Text { data: t.data@ },
        VNode::Element(ve) => {
            let st = element_state(ve);
            let nd = dom[ve.node as nat];
            &&& nd.kind == DomKind::Element { tag_name: ve.tag_name@, namespace_uri: opt_view(ve.namespace_uri) }
            &&& nd.attributes == shown_attributes(st)
            &&& props_shown(nd.properties, st.properties)
            &&& keys_unique(st.attributes)
            &&& keys_unique(st.properties)
            &&& ve.inner_html is None
            &&& nd.inner_html is None
            &&& nd.children == child_handles(ve.children@)
            &&& holds_all(dom, ve.children@)
        },
    }
}

/// The document holds each of the virtual trees `s`.
pub open spec fn holds_all<D>(dom: Map<nat, DomNode<D>>, s: Seq<VNode>) -> bool
    decreases s,
{
    s.len() > 0 ==> holds_all(dom, s.drop_last()) && holds(dom, s.last())
}

proof fn lemma_own_handle(v: VNode)
    ensures
        vnode_ids(v).contains(node_id(v)),
{
}

proof fn lemma_vnodes_ids_take(s: Seq<VNode>, i: int)
    requires
        0 <= i <= s.len(),
    ensures
        forall|x: nat| #[trigger] vnodes_ids(s.take(i)).contains(x) ==> vnodes_ids(s).contains(x),
        i < s.len() ==> vnodes_ids(s.take(i + 1)) == vnodes_ids(s.take(i)).union(vnode_ids(s[i])),
        i < s.len() ==> forall|x: nat| #[trigger] vnode_ids(s[i]).contains(x) ==> vnodes_ids(s).contains(x),
    decreases s.len() - i,
{
    if i < s.len() {
        assert(s.take(i + 1).drop_last() =~= s.take(i));
        assert(s.take(i + 1).last() == s[i]);
        lemma_vnodes_ids_take(s, i + 1);
        assert forall|x: nat| #[trigger] vnodes_ids(s.take(i)).contains(x) implies vnodes_ids(s).contains(x) by {
            assert(vnodes_ids(s.take(i + 1)).contains(x));
        }
        assert forall|x: nat| #[trigger] vnode_ids(s[i]).contains(x) implies vnodes_ids(s).contains(x) by {
            assert(vnodes_ids(s.take(i + 1)).contains(x));
        }
    } else {
        assert(s.take(i) =~= s);
    }
}

proof fn lemma_vnodes_distinct_elem(s: Seq<VNode>, i: int)
    requires
        0 <= i < s.len(),
        vnodes_distinct(s),
    ensures
        vnode_distinct(s[i]),
        vnodes_ids(s.take(i)).disjoint(vnode_ids(s[i])),
        vnodes_distinct(s.take(i)),
    decreases s.len(),
{
    if i == s.len() - 1 {
        assert(s.take(i) =~= s.drop_last());
    } else {
        assert(s.drop_last().take(i) =~= s.take(i));
        assert(s.drop_last()[i] == s[i]);
        lemma_vnodes_distinct_elem(s.drop_last(), i);
    }
}

proof fn lemma_holds_all_elem<D>(dom: Map<nat, DomNode<D>>, s: Seq<VNode>, i: int)
    requires
        0 <= i < s.len(),
        holds_all(dom, s),
    ensures
        holds(dom, s[i]),
    decreases s.len(),
{
    if i < s.len() - 1 {
        assert(s.drop_last()[i] == s[i]);
        lemma_holds_all_elem(dom, s.drop_last(), i);
    }
}

/// Whether the document holds a virtual tree depends only on the nodes of
/// the tree.
proof fn lemma_holds_frame<D>(a: Map<nat, DomNode<D>>, b: Map<nat, DomNode<D>>, v: VNode)
    requires
        agree_on(a, b, vnode_ids(v)),
    ensures
        holds(a, v) == holds(b, v),
    decreases v,
{
    lemma_own_handle(v);
    if let VNode::Element(ve) = v {
        assert forall|x: nat| #[trigger] vnodes_ids(ve.children@).contains(x) implies vnode_ids(v).contains(x) by {}
        lemma_holds_all_frame(a, b, ve.children@);
    }
}

proof fn lemma_holds_all_frame<D>(a: Map<nat, DomNode<D>>, b: Map<nat, DomNode<D>>, s: Seq<VNode>)
    requires
        agree_on(a, b, vnodes_ids(s)),
    ensures
        holds_all(a, s) == holds_all(b, s),
    decreases s,
{
    if s.len() > 0 {
        assert forall|x: nat| #[trigger] vnodes_ids(s.drop_last()).contains(x) implies vnodes_ids(s).contains(x) by {}
        assert forall|x: nat| #[trigger] vnode_ids(s.last()).contains(x) implies vnodes_ids(s).contains(x) by {}
        lemma_holds_all_frame(a, b, s.drop_last());
        lemma_holds_frame(a, b, s.last());
    }
}

/// Removing a handle that occurs once removes it from its place.
proof fn lemma_remove_value_at(s: Seq<nat>, i: int)
    requires
        0 <= i < s.len(),
        s.no_duplicates(),
    ensures
        remove_value(s, s[i]) == s.remove(i),
    decreases s.len(),
{
    if i == s.len() - 1 {
        assert(s.drop_last() =~= s.remove(i));
    } else {
        assert(s.last() != s[i]);
        assert(s.drop_last().no_duplicates());
        assert(s.drop_last()[i] == s[i]);
        lemma_remove_value_at(s.drop_last(), i);
        assert(s.drop_last().remove(i).push(s.last()) =~= s.remove(i));
    }
}


// ==== comparing in place ====

/// The description `n` is compared with the virtual tree `v` in place: both
/// are text nodes, or elements of the same tag name and namespace whose
/// annotations give no inner HTML and whose children are compared in place
/// wherever both have one.
pub open spec fn comparable<D>(v: VNode, n: NodeView<D>) -> bool
    decreases n,
{
    match n {
        NodeView::Text { .. } => v is Text,
        NodeView::Element { tag_name, namespace_uri, attrs, children } => match v {
            VNode::Element(ve) => {
                &&& ve.tag_name@ == tag_name
                &&& opt_view(ve.namespace_uri) == namespace_uri
                &&& last_inner(attrs) is None
                &&& comparable_all(ve.children@, children)
            },
            VNode::Text(_) => false,
        },
    }
}

/// Each description of `descs` that has a virtual tree of `olds` at its
/// position is compared with it in place.
pub open spec fn comparable_all<D>(olds: Seq<VNode>, descs: Seq<NodeView<D>>) -> bool
    decreases descs,
{
    descs.len() > 0 ==> comparable_all(olds, descs.drop_last()) && (descs.len() - 1 < olds.len() ==> comparable(
        olds[descs.len() - 1],
        descs.last(),
    ))
}

/// The documents agree on every node outside `s` and the handles from `lo`
/// up to `hi`.
pub open spec fn unchanged_outside<D>(a: Map<nat, DomNode<D>>, b: Map<nat, DomNode<D>>, s: Set<nat>, lo: nat, hi: nat) -> bool {
    forall|h: nat|
        !s.contains(h) && !(lo <= h < hi) ==> (#[trigger] b.contains_key(h) <==> a.contains_key(h)) && (
        a.contains_key(h) ==> b[h] == a[h])
}

proof fn lemma_child_handles_distinct(olds: Seq<VNode>)
    requires
        vnodes_distinct(olds),
    ensures
        child_handles(olds).no_duplicates(),
{
    let hs = child_handles(olds);
    assert forall|i: int, j: int| 0 <= i < hs.len() && 0 <= j < hs.len() && i != j implies hs[i] != hs[j] by {
        let (lo, hi) = if i < j { (i, j) } else { (j, i) };
        lemma_vnodes_distinct_elem(olds, hi);
        lemma_vnodes_ids_take(olds, hi);
        lemma_vnodes_ids_take(olds.take(hi), lo);
        assert(olds.take(hi)[lo] == olds[lo]);
        lemma_own_handle(olds[lo]);
        lemma_own_handle(olds[hi]);
        assert(vnodes_ids(olds.take(hi)).contains(node_id(olds[lo])));
    }
}

/// Removing the previous children from position `n` on leaves the first `n`.
proof fn lemma_remove_children<D>(nd: DomNode<D>, node: nat, olds: Seq<VNode>, n: nat, j: nat)
    requires
        n + j <= olds.len(),
        nd.children == child_handles(olds),
        child_handles(olds).no_duplicates(),
    ensures
        ({
            let ps = remove_child_patches::<D>(node, olds, n as int);
            &&& forall|i: int| 0 <= i < ps.len() ==> is_node_patch(#[trigger] ps[i]) && patch_target(ps[i]) == node
            &&& node_effects(nd, ps.take(j as int)) == DomNode {
                children: child_handles(olds).take(n as int) + child_handles(olds).skip((n + j) as int),
                ..nd
            }
        }),
    decreases j,
{
    let ps = remove_child_patches::<D>(node, olds, n as int);
    let hs = child_handles(olds);
    if j == 0 {
        assert(ps.take(0) =~= Seq::<PatchView<D>>::empty());
        assert(hs.take(n as int) + hs.skip(n as int) =~= hs);
    } else {
        lemma_remove_children(nd, node, olds, n, (j - 1) as nat);
        assert(ps.take(j as int).drop_last() =~= ps.take(j - 1));
        let l = hs.take(n as int) + hs.skip(n + j - 1);
        assert(ps[j - 1] == PatchView::<D>::RemoveChild { parent: node, child: node_id(olds[n + j - 1]) });
        assert(l[n as int] == hs[n + j - 1]);
        assert(l.no_duplicates()) by {
            assert forall|p: int, q: int| 0 <= p < l.len() && 0 <= q < l.len() && p != q implies l[p] != l[q] by {
                let pp = if p < n { p } else { p + j - 1 };
                let qq = if q < n { q } else { q + j - 1 };
                assert(l[p] == hs[pp]);
                assert(l[q] == hs[qq]);
            }
        }
        lemma_remove_value_at(l, n as int);
        assert(l.remove(n as int) =~= hs.take(n as int) + hs.skip((n + j) as int));
    }
}

/// Bringing a virtual tree up to date in place makes its DOM node show the
/// description: where the document holds the virtual tree `old` (its handles
/// distinct and below `id`, no node from `id` on) and `n` is compared with it
/// in place, the operations that compare them leave a document in which the
/// DOM node of `old` shows `n`, reading only the nodes of `old` and new ones;
/// no other node changes.
#[verifier::spinoff_prover]
pub proof fn law_diff_shows<D>(dom: Map<nat, DomNode<D>>, old: VNode, n: NodeView<D>, parent: nat, id: nat)
    requires
        holds(dom, old),
        vnode_distinct(old),
        forall|x: nat| #[trigger] vnode_ids(old).contains(x) ==> x < id,
        fresh_from(dom, id),
        comparable(old, n),
    ensures
        ({
            let r = diff_node_patches(old, n, parent, id);
            let d = apply_patches(dom, r.0);
            &&& shows(d, node_id(old), n)
            &&& placed(d, diff_shape(old, n, parent, id), n)
            &&& diff_shape(old, n, parent, id).handle == node_id(old)
            &&& forall|x: nat| #[trigger]
                footprint(d, node_id(old), n).contains(x) ==> vnode_ids(old).contains(x) || (id <= x < r.1)
            &&& fresh_from(d, r.1)
            &&& unchanged_outside(dom, d, vnode_ids(old), id, r.1)
            &&& id <= r.1
        }),
    decreases n,
{
    let r = diff_node_patches(old, n, parent, id);
    lemma_own_handle(old);
    match n {
        NodeView::Text { data } => {
            if let VNode::Text(t) = old {
                let h = t.node as nat;
                if t.data@ == data {
                    assert(r.0 =~= Seq::<PatchView<D>>::empty());
                    assert(apply_patches(dom, r.0) == dom);
                } else {
                    let p = PatchView::<D>::SetData { node: h, data };
                    assert(r.0 == seq![p]);
                    assert(r.0.drop_last() =~= Seq::<PatchView<D>>::empty());
                    assert(apply_patches(dom, r.0.drop_last()) == dom);
                    assert(apply_patches(dom, r.0) == apply_patch(dom, p));
                }
                let d = apply_patches(dom, r.0);
                assert(footprint(d, h, n) =~= Set::<nat>::empty().insert(h));
            }
        },
        NodeView::Element { tag_name, namespace_uri, attrs, children } => {
            if let VNode::Element(ve) = old {
                let node = ve.node as nat;
                let olds = ve.children@;
                let st = fold_ops(attrs);
                lemma_fold_entries(attrs);
                assert(st.inner_html is None);
                let upd = element_update_patches(node, ve, attrs);
                let a = diff_prefix_patches(olds, children, node, id);
                let rem = remove_child_patches::<D>(node, olds, children.len() as int);
                assert(r.0 == upd + (a.0 + rem));
                assert(r.1 == a.1);
                lemma_apply_concat(dom, upd, a.0 + rem);
                lemma_apply_concat(apply_patches(dom, upd), a.0, rem);
                // the node of the element
                lemma_element_update(node, ve, attrs, dom[node]);
                lemma_apply_on_node(dom, upd, node);
                let nd1 = node_effects(dom[node], upd);
                let d1 = apply_patches(dom, upd);
                assert(d1 == dom.insert(node, nd1));
                // its children, in place
                assert(agree_on(dom, d1, vnodes_ids(olds)));
                lemma_holds_all_frame(dom, d1, olds);
                assert forall|x: nat| #[trigger] vnodes_ids(olds).contains(x) implies x < id by {
                    assert(vnode_ids(old).contains(x));
                }
                assert(node < id);
                lemma_diff_prefix_shows(d1, node, olds, children, id);
                let d2 = apply_patches(d1, a.0);
                let hs = d2[node].children;
                let k: int = if children.len() <= olds.len() { children.len() as int } else { olds.len() as int };
                let d3 = apply_patches(d2, rem);
                if children.len() < olds.len() {
                    assert(hs =~= child_handles(olds));
                    lemma_vnodes_distinct_elem(olds, 0);
                    lemma_child_handles_distinct(olds);
                    let m = (olds.len() - children.len()) as nat;
                    lemma_remove_children(d2[node], node, olds, children.len(), m);
                    assert(rem.take(m as int) =~= rem);
                    assert(child_handles(olds).skip((children.len() + m) as int) =~= Seq::<nat>::empty());
                    lemma_apply_on_node(d2, rem, node);
                    assert(d3 == d2.insert(node, DomNode { children: hs.take(children.len() as int), ..d2[node] }));
                    let fp = footprint_all(d2, hs.take(children.len() as int), children);
                    assert(agree_on(d2, d3, fp)) by {
                        assert forall|x: nat| #[trigger] fp.contains(x) implies x != node by {
                            lemma_vnodes_ids_take(olds, k);
                        }
                    }
                    lemma_shows_all_frame(d2, d3, hs.take(children.len() as int), children);
                    lemma_placed_all_frame(d2, d3, diff_prefix_shape(olds, children, node, id), children);
                } else {
                    assert(rem =~= Seq::<PatchView<D>>::empty());
                    assert(d3 == d2);
                    assert(hs.take(children.len() as int) =~= hs);
                }
                assert(d3[node].children =~= hs.take(children.len() as int));
                assert(shows(d3, node, n));
                assert(placed(d3, diff_shape(old, n, parent, id), n));
                assert forall|x: nat| #[trigger] footprint(d3, node, n).contains(x) implies vnode_ids(old).contains(x) || (
                id <= x < r.1) by {
                    if x != node {
                        assert(footprint_all(d3, d3[node].children, children).contains(x));
                        lemma_vnodes_ids_take(olds, k);
                    }
                }
                assert(unchanged_outside(dom, d3, vnode_ids(old), id, r.1)) by {
                    assert forall|h: nat| !vnode_ids(old).contains(h) && !(id <= h < r.1) implies (
                    #[trigger] d3.contains_key(h) <==> dom.contains_key(h)) && (dom.contains_key(h) ==> d3[h]
                        == dom[h]) by {
                        lemma_vnodes_ids_take(olds, k);
                        assert(!vnodes_ids(olds).contains(h));
                        assert(h != node);
                        assert(!vnodes_ids(olds.take(k)).insert(node).contains(h));
                        assert(!(id <= h < a.1));
                        assert(d1.contains_key(h) == dom.contains_key(h));
                        assert(d2.contains_key(h) == d1.contains_key(h));
                        assert(d3.contains_key(h) == d2.contains_key(h));
                        if dom.contains_key(h) {
                            assert(d1[h] == dom[h]);
                            assert(d2[h] == d1[h]);
                            assert(d3[h] == d2[h]);
                        }
                    }
                }
            }
        },
    }
}

/// Bringing the previous children `olds` of `node` up to date with `descs`,
/// position by position.
proof fn lemma_diff_prefix_shows<D>(dom: Map<nat, DomNode<D>>, node: nat, olds: Seq<VNode>, descs: Seq<NodeView<D>>, id: nat)
    requires
        dom.contains_key(node),
        dom[node].children == child_handles(olds),
        holds_all(dom, olds),
        vnodes_distinct(olds),
        !vnodes_ids(olds).contains(node),
        forall|x: nat| #[trigger] vnodes_ids(olds).contains(x) ==> x < id,
        node < id,
        fresh_from(dom, id),
        comparable_all(olds, descs),
    ensures
        ({
            let a = diff_prefix_patches(olds, descs, node, id);
            let d = apply_patches(dom, a.0);
            let k: int = if descs.len() <= olds.len() { descs.len() as int } else { olds.len() as int };
            let hs = d[node].children;
            &&& id <= a.1
            &&& d.contains_key(node)
            &&& d[node] == DomNode { children: hs, ..dom[node] }
            &&& hs.len() == olds.len() + (descs.len() - k)
            &&& hs.take(olds.len() as int) == child_handles(olds)
            &&& shows_all(d, hs.take(descs.len() as int), descs)
            &&& hs.take(descs.len() as int) == shape_handles(diff_prefix_shape(olds, descs, node, id))
            &&& placed_all(d, diff_prefix_shape(olds, descs, node, id), descs)
            &&& forall|x: nat| #[trigger]
                footprint_all(d, hs.take(descs.len() as int), descs).contains(x) ==> vnodes_ids(olds.take(k)).contains(x)
                    || (id <= x < a.1)
            &&& fresh_from(d, a.1)
            &&& unchanged_outside(dom, d, vnodes_ids(olds.take(k)).insert(node), id, a.1)
        }),
    decreases descs,
{
    let a = diff_prefix_patches(olds, descs, node, id);
    if descs.len() == 0 {
        assert(a.0 =~= Seq::<PatchView<D>>::empty());
        assert(olds.take(0) =~= Seq::<VNode>::empty());
        assert(dom[node].children.take(olds.len() as int) =~= dom[node].children);
        assert(dom[node].children.take(0) =~= Seq::<nat>::empty());
        assert(shape_handles(diff_prefix_shape(olds, descs, node, id)) =~= Seq::<nat>::empty());
        assert(dom[node] == DomNode { children: dom[node].children, ..dom[node] });
    } else {
        let rest = descs.drop_last();
        let j = descs.len() - 1;
        assert(comparable_all(olds, rest));
        lemma_diff_prefix_shows(dom, node, olds, rest, id);
        let a0 = diff_prefix_patches(olds, rest, node, id);
        let d0 = apply_patches(dom, a0.0);
        let hs0 = d0[node].children;
        let k0: int = if rest.len() <= olds.len() { rest.len() as int } else { olds.len() as int };
        let b = if j < olds.len() {
            diff_node_patches(olds[j], descs.last(), node, a0.1)
        } else {
            create_node_patches(descs.last(), node, a0.1)
        };
        assert(a == (a0.0 + b.0, b.1));
        lemma_apply_concat(dom, a0.0, b.0);
        let d = apply_patches(d0, b.0);
        let fp0 = footprint_all(d0, hs0.take(rest.len() as int), rest);
        if j < olds.len() {
            let v = olds[j];
            assert(k0 == j);
            lemma_holds_all_elem(dom, olds, j);
            lemma_vnodes_distinct_elem(olds, j);
            lemma_vnodes_ids_take(olds, j);
            assert(agree_on(dom, d0, vnode_ids(v))) by {
                assert forall|x: nat| #[trigger] vnode_ids(v).contains(x) implies (dom.contains_key(x) <==> d0.contains_key(x))
                    && (dom.contains_key(x) ==> dom[x] == d0[x]) by {
                    assert(vnodes_ids(olds).contains(x));
                    assert(!vnodes_ids(olds.take(j)).contains(x));
                    assert(x != node);
                    assert(x < id);
                    assert(d0.contains_key(x) == dom.contains_key(x));
                }
            }
            lemma_holds_frame(dom, d0, v);
            assert forall|x: nat| #[trigger] vnode_ids(v).contains(x) implies x < a0.1 by {
                assert(vnodes_ids(olds).contains(x));
            }
            law_diff_shows(d0, v, descs.last(), node, a0.1);
            lemma_own_handle(v);
            assert(!vnode_ids(v).contains(node)) by {
                if vnode_ids(v).contains(node) {
                    assert(vnodes_ids(olds).contains(node));
                }
            }
            assert(node < a0.1);
            assert(unchanged_outside(d0, d, vnode_ids(v), a0.1, b.1));
            assert(d.contains_key(node) == d0.contains_key(node));
            assert(d.contains_key(node) && d[node] == d0[node]);
            let hs = d[node].children;
            assert(hs == hs0);
            assert(hs.take(olds.len() as int) == child_handles(olds));
            assert(hs[j] == node_id(v)) by {
                assert(hs.take(olds.len() as int)[j] == child_handles(olds)[j]);
            }
            assert(hs.take(descs.len() as int).drop_last() =~= hs0.take(rest.len() as int));
            assert(hs.take(descs.len() as int).last() == node_id(v));
            assert(agree_on(d0, d, fp0)) by {
                assert forall|x: nat| #[trigger] fp0.contains(x) implies (d0.contains_key(x) <==> d.contains_key(x)) && (
                d0.contains_key(x) ==> d0[x] == d[x]) by {
                    if vnodes_ids(olds.take(j)).contains(x) {
                        assert(!vnode_ids(v).contains(x));
                        assert(x < id);
                    }
                    assert(d.contains_key(x) == d0.contains_key(x));
                }
            }
            lemma_shows_all_frame(d0, d, hs0.take(rest.len() as int), rest);
            let shs = diff_prefix_shape(olds, descs, node, id);
            assert(shs.drop_last() == diff_prefix_shape(olds, rest, node, id));
            assert(shs.last() == diff_shape(v, descs.last(), node, a0.1));
            lemma_placed_all_frame(d0, d, shs.drop_last(), rest);
            assert(shape_handles(shs) =~= shape_handles(shs.drop_last()).push(node_id(v)));
            assert(hs.take(descs.len() as int) =~= shape_handles(shs));
            assert forall|x: nat| #[trigger] footprint_all(d, hs.take(descs.len() as int), descs).contains(x) implies vnodes_ids(
                olds.take(j + 1),
            ).contains(x) || (id <= x < a.1) by {
                assert(footprint_all(d, hs.take(descs.len() as int), descs) == fp0.union(
                    footprint(d, node_id(v), descs.last()),
                ));
            }
            assert(unchanged_outside(dom, d, vnodes_ids(olds.take(j + 1)).insert(node), id, a.1)) by {
                assert forall|h: nat| !vnodes_ids(olds.take(j + 1)).insert(node).contains(h) && !(id <= h < a.1) implies (
                #[trigger] d.contains_key(h) <==> dom.contains_key(h)) && (dom.contains_key(h) ==> d[h] == dom[h]) by {
                    assert(vnodes_ids(olds.take(j + 1)) == vnodes_ids(olds.take(j)).union(vnode_ids(v)));
                    assert(!vnode_ids(v).contains(h));
                    assert(!vnodes_ids(olds.take(k0)).contains(h));
                    assert(!(a0.1 <= h < b.1));
                    assert(!(id <= h < a0.1));
                    assert(d0.contains_key(h) == dom.contains_key(h));
                    assert(d.contains_key(h) == d0.contains_key(h));
                    if dom.contains_key(h) {
                        assert(d0[h] == dom[h]);
                        assert(d[h] == d0[h]);
                    }
                }
            }
        } else {
            assert(k0 == olds.len());
            law_create_shows(d0, descs.last(), node, a0.1);
            let hs = d[node].children;
            assert(hs == hs0.push(a0.1));
            assert(hs0.len() == rest.len());
            assert(hs.take(descs.len() as int) =~= hs);
            assert(hs0.take(rest.len() as int) =~= hs0);
            assert(hs.drop_last() =~= hs0);
            assert(hs.take(olds.len() as int) =~= hs0.take(olds.len() as int));
            assert(agree_on(d0, d, fp0)) by {
                assert forall|x: nat| #[trigger] fp0.contains(x) implies (d0.contains_key(x) <==> d.contains_key(x)) && (
                d0.contains_key(x) ==> d0[x] == d[x]) by {
                    if vnodes_ids(olds.take(k0)).contains(x) {
                        lemma_vnodes_ids_take(olds, k0);
                        assert(x < id);
                    }
                    assert(x != node);
                    assert(d.contains_key(x) == d0.contains_key(x));
                }
            }
            lemma_shows_all_frame(d0, d, hs0.take(rest.len() as int), rest);
            let shs = diff_prefix_shape(olds, descs, node, id);
            assert(shs.drop_last() == diff_prefix_shape(olds, rest, node, id));
            assert(shs.last() == create_shape(descs.last(), node, a0.1));
            lemma_placed_all_frame(d0, d, shs.drop_last(), rest);
            assert(shape_handles(shs) =~= shape_handles(shs.drop_last()).push(a0.1));
            assert(hs.take(descs.len() as int) =~= shape_handles(shs));
            assert(shows_all(d, hs, descs));
            assert forall|x: nat| #[trigger] footprint_all(d, hs.take(descs.len() as int), descs).contains(x) implies vnodes_ids(
                olds.take(k0),
            ).contains(x) || (id <= x < a.1) by {
                assert(footprint_all(d, hs, descs) == fp0.union(footprint(d, a0.1, descs.last())));
            }
            assert(unchanged_outside(dom, d, vnodes_ids(olds.take(k0)).insert(node), id, a.1)) by {
                assert forall|h: nat| !vnodes_ids(olds.take(k0)).insert(node).contains(h) && !(id <= h < a.1) implies (
                #[trigger] d.contains_key(h) <==> dom.contains_key(h)) && (dom.contains_key(h) ==> d[h] == dom[h]) by {
                    assert(d0.contains_key(h) == dom.contains_key(h));
                    assert(d.contains_key(h) == d0.contains_key(h));
                }
            }
        }
    }
}


/// Rendering under a DOM node brings its children up to date: where the DOM
/// node `node` has as children exactly the DOM nodes of the virtual trees
/// `olds`, which the document holds (their handles distinct, below `id`, and
/// no node from `id` on), and each description with a tree at its position is
/// compared with it in place, the operations that bring `olds` up to date
/// with `descs` leave a document in which the children of `node` show
/// `descs`, one by one, reading only nodes of `olds` and new ones; no other
/// node changes.
pub proof fn law_render_shows<D>(dom: Map<nat, DomNode<D>>, node: nat, olds: Seq<VNode>, descs: Seq<NodeView<D>>, id: nat)
    requires
        dom.contains_key(node),
        dom[node].children == child_handles(olds),
        holds_all(dom, olds),
        vnodes_distinct(olds),
        !vnodes_ids(olds).contains(node),
        forall|x: nat| #[trigger] vnodes_ids(olds).contains(x) ==> x < id,
        node < id,
        fresh_from(dom, id),
        comparable_all(olds, descs),
    ensures
        ({
            let r = diff_children_patches(olds, descs, node, id);
            let d = apply_patches(dom, r.0);
            &&& d.contains_key(node)
            &&& d[node] == DomNode { children: d[node].children, ..dom[node] }
            &&& shows_all(d, d[node].children, descs)
            &&& d[node].children == shape_handles(diff_prefix_shape(olds, descs, node, id))
            &&& placed_all(d, diff_prefix_shape(olds, descs, node, id), descs)
            &&& forall|x: nat| #[trigger]
                footprint_all(d, d[node].children, descs).contains(x) ==> vnodes_ids(olds).contains(x) || (id <= x < r.1)
            &&& fresh_from(d, r.1)
            &&& unchanged_outside(dom, d, vnodes_ids(olds).insert(node), id, r.1)
        }),
{
    let r = diff_children_patches(olds, descs, node, id);
    let a = diff_prefix_patches(olds, descs, node, id);
    let rem = remove_child_patches::<D>(node, olds, descs.len() as int);
    assert(r.0 == a.0 + rem);
    lemma_apply_concat(dom, a.0, rem);
    lemma_diff_prefix_shows(dom, node, olds, descs, id);
    let d2 = apply_patches(dom, a.0);
    let hs = d2[node].children;
    let k: int = if descs.len() <= olds.len() { descs.len() as int } else { olds.len() as int };
    lemma_vnodes_ids_take(olds, k);
    let d3 = apply_patches(d2, rem);
    if descs.len() < olds.len() {
        assert(hs =~= child_handles(olds));
        lemma_child_handles_distinct(olds);
        let m = (olds.len() - descs.len()) as nat;
        lemma_remove_children(d2[node], node, olds, descs.len(), m);
        assert(rem.take(m as int) =~= rem);
        assert(child_handles(olds).skip((descs.len() + m) as int) =~= Seq::<nat>::empty());
        lemma_apply_on_node(d2, rem, node);
        assert(d3 == d2.insert(node, DomNode { children: hs.take(descs.len() as int), ..d2[node] }));
        let fp = footprint_all(d2, hs.take(descs.len() as int), descs);
        assert(agree_on(d2, d3, fp)) by {
            assert forall|x: nat| #[trigger] fp.contains(x) implies x != node by {}
        }
        lemma_shows_all_frame(d2, d3, hs.take(descs.len() as int), descs);
        lemma_placed_all_frame(d2, d3, diff_prefix_shape(olds, descs, node, id), descs);
    } else {
        assert(rem =~= Seq::<PatchView<D>>::empty());
        assert(d3 == d2);
        assert(hs.take(descs.len() as int) =~= hs);
    }
    assert(d3[node].children =~= hs.take(descs.len() as int));
    assert(unchanged_outside(dom, d3, vnodes_ids(olds).insert(node), id, r.1)) by {
        assert forall|h: nat| !vnodes_ids(olds).insert(node).contains(h) && !(id <= h < r.1) implies (
        #[trigger] d3.contains_key(h) <==> dom.contains_key(h)) && (dom.contains_key(h) ==> d3[h] == dom[h]) by {
            assert(!vnodes_ids(olds.take(k)).contains(h));
            assert(d2.contains_key(h) == dom.contains_key(h));
        }
    }
}

// ==== the document holds the new virtual tree ====

/// No element of the description is given inner HTML.
pub open spec fn no_inner_html<D>(n: NodeView<D>) -> bool
    decreases n,
{
    match n {
        NodeView::Element { attrs, children, .. } => last_inner(attrs) is None && no_inner_html_all(children),
        NodeView::Text { .. } => true,
    }
}

/// No element of the descriptions is given inner HTML.
pub open spec fn no_inner_html_all<D>(cs: Seq<NodeView<D>>) -> bool
    decreases cs,
{
    cs.len() > 0 ==> no_inner_html_all(cs.drop_last()) && no_inner_html(cs.last())
}

proof fn lemma_child_handles_shape(vs: Seq<VNode>)
    ensures
        shape_handles(vnodes_shape(vs)) == child_handles(vs),
{
    assert forall|i: int| 0 <= i < vs.len() implies #[trigger] shape_handles(vnodes_shape(vs))[i] == child_handles(vs)[i] by {
        match vs[i] {
            VNode::Element(ve) => lemma_vnode_shape_element(ve),
            VNode::Text(_) => {},
        }
    }
    assert(shape_handles(vnodes_shape(vs)) =~= child_handles(vs));
}

/// A virtual tree whose look is that of a description, with the handles of
/// the DOM nodes that show it, arranged as they are, is held by the document.
proof fn lemma_holds_from_shows<D>(d: Map<nat, DomNode<D>>, v: VNode, n: NodeView<D>)
    requires
        shows(d, node_id(v), n),
        placed(d, vnode_shape(v), n),
        vnode_model(v) == desc_model(n),
        no_inner_html(n),
    ensures
        holds(d, v),
    decreases n,
{
    match n {
        NodeView::Text { .. } => {},
        NodeView::Element { attrs, children, .. } => {
            if let VNode::Element(ve) = v {
                lemma_vnode_model_element(ve);
                lemma_desc_model_element(n);
                lemma_vnode_shape_element(ve);
                lemma_fold_entries(attrs);
                lemma_child_handles_shape(ve.children@);
                assert(element_state(ve) == fold_ops(attrs));
                assert(vnodes_model(ve.children@) == descs_model(children));
                lemma_holds_all_from_shows(d, ve.children@, children);
            }
        },
    }
}

proof fn lemma_holds_all_from_shows<D>(d: Map<nat, DomNode<D>>, vs: Seq<VNode>, cs: Seq<NodeView<D>>)
    requires
        shows_all(d, child_handles(vs), cs),
        placed_all(d, vnodes_shape(vs), cs),
        vnodes_model(vs) == descs_model(cs),
        no_inner_html_all(cs),
    ensures
        holds_all(d, vs),
    decreases cs,
{
    assert(vs.len() == vnodes_model(vs).len());
    assert(cs.len() == descs_model(cs).len());
    if cs.len() > 0 {
        let k = cs.len() - 1;
        assert(child_handles(vs).drop_last() =~= child_handles(vs.drop_last()));
        assert(vnodes_shape(vs).drop_last() =~= vnodes_shape(vs.drop_last()));
        assert(vnodes_model(vs.drop_last()) =~= descs_model(cs.drop_last())) by {
            assert forall|i: int| 0 <= i < k implies vnodes_model(vs.drop_last())[i] == descs_model(cs.drop_last())[i] by {
                assert(vnodes_model(vs)[i] == descs_model(cs)[i]);
                assert(vnodes_model(vs.drop_last())[i] == vnode_model(vs[i]));
                assert(descs_model(cs.drop_last())[i] == desc_model(cs[i]));
                assert(vnodes_model(vs)[i] == vnode_model(vs[i]));
                assert(descs_model(cs)[i] == desc_model(cs[i]));
            }
        }
        assert(vnodes_model(vs)[k] == descs_model(cs)[k]);
        assert(vnodes_model(vs)[k] == vnode_model(vs[k]));
        assert(descs_model(cs)[k] == desc_model(cs[k]));
        assert(vs.last() == vs[k]);
        lemma_holds_all_from_shows(d, vs.drop_last(), cs.drop_last());
        lemma_holds_from_shows(d, vs.last(), cs.last());
    }
}

/// The handles of a shape.
pub open spec fn shape_ids(sh: Shape) -> Set<nat>
    decreases sh,
{
    shapes_ids(sh.children).insert(sh.handle)
}

/// The handles of a sequence of shapes.
pub open spec fn shapes_ids(shs: Seq<Shape>) -> Set<nat>
    decreases shs,
{
    if shs.len() == 0 {
        Set::empty()
    } else {
        shapes_ids(shs.drop_last()).union(shape_ids(shs.last()))
    }
}

/// No handle occurs twice in the shape.
pub open spec fn shape_distinct(sh: Shape) -> bool
    decreases sh,
{
    !shapes_ids(sh.children).contains(sh.handle) && shapes_distinct(sh.children)
}

/// No handle occurs twice in the shapes.
pub open spec fn shapes_distinct(shs: Seq<Shape>) -> bool
    decreases shs,
{
    if shs.len() == 0 {
        true
    } else {
        &&& shapes_distinct(shs.drop_last())
        &&& shape_distinct(shs.last())
        &&& shapes_ids(shs.drop_last()).disjoint(shape_ids(shs.last()))
    }
}

proof fn lemma_vnode_shape_ids(v: VNode)
    ensures
        shape_ids(vnode_shape(v)) == vnode_ids(v),
        shape_distinct(vnode_shape(v)) == vnode_distinct(v),
    decreases v,
{
    match v {
        VNode::Element(ve) => {
            lemma_vnode_shape_element(ve);
            lemma_vnodes_shape_ids(ve.children@);
        },
        VNode::Text(_) => {
            assert(shapes_ids(Seq::<Shape>::empty()) == Set::<nat>::empty());
            assert(shape_ids(vnode_shape(v)) =~= vnode_ids(v));
        },
    }
}

proof fn lemma_vnodes_shape_ids(vs: Seq<VNode>)
    ensures
        shapes_ids(vnodes_shape(vs)) == vnodes_ids(vs),
        shapes_distinct(vnodes_shape(vs)) == vnodes_distinct(vs),
    decreases vs,
{
    if vs.len() > 0 {
        assert(vnodes_shape(vs).drop_last() =~= vnodes_shape(vs.drop_last()));
        assert(vnodes_shape(vs).last() == vnode_shape(vs.last()));
        lemma_vnodes_shape_ids(vs.drop_last());
        lemma_vnode_shape_ids(vs.last());
    } else {
        assert(vnodes_shape(vs) =~= Seq::<Shape>::empty());
    }
}

proof fn lemma_create_shape_ids<D>(n: NodeView<D>, parent: nat, id: nat)
    ensures
        forall|x: nat| #[trigger]
            shape_ids(create_shape(n, parent, id)).contains(x) ==> id <= x < create_node_patches(n, parent, id).1,
        shape_distinct(create_shape(n, parent, id)),
    decreases n,
{
    crate::render::lemma_create_bounds(n, parent, id);
    let sh = create_shape(n, parent, id);
    let r = create_node_patches(n, parent, id);
    match n {
        NodeView::Element { attrs, children, .. } => {
            if fold_ops(attrs).inner_html is None {
                let c = create_children_patches(children, id, id + 1);
                assert(r.1 == c.1);
                assert(sh.children == create_children_shape(children, id, id + 1));
                lemma_create_children_shape_ids(children, id, id + 1);
                assert forall|x: nat| #[trigger] shape_ids(sh).contains(x) implies id <= x < r.1 by {
                    if x != id {
                        assert(shapes_ids(sh.children).contains(x));
                    }
                }
            } else {
                assert(sh.children == Seq::<Shape>::empty());
                assert(shapes_ids(Seq::<Shape>::empty()) == Set::<nat>::empty());
                assert forall|x: nat| #[trigger] shape_ids(sh).contains(x) implies id <= x < r.1 by {}
            }
        },
        NodeView::Text { .. } => {
            assert(shapes_ids(Seq::<Shape>::empty()) == Set::<nat>::empty());
        },
    }
}

proof fn lemma_create_children_shape_ids<D>(cs: Seq<NodeView<D>>, parent: nat, id: nat)
    ensures
        forall|x: nat| #[trigger]
            shapes_ids(create_children_shape(cs, parent, id)).contains(x) ==> id <= x < create_children_patches(
                cs,
                parent,
                id,
            ).1,
        shapes_distinct(create_children_shape(cs, parent, id)),
    decreases cs,
{
    if cs.len() > 0 {
        let a = create_children_patches(cs.drop_last(), parent, id);
        let shs = create_children_shape(cs, parent, id);
        lemma_create_children_shape_ids(cs.drop_last(), parent, id);
        lemma_create_shape_ids(cs.last(), parent, a.1);
        crate::render::lemma_create_children_bounds(cs.drop_last(), parent, id);
        crate::render::lemma_create_bounds(cs.last(), parent, a.1);
        assert(shs.drop_last() =~= create_children_shape(cs.drop_last(), parent, id));
        assert(shs.last() == create_shape(cs.last(), parent, a.1));
        let b = create_node_patches(cs.last(), parent, a.1);
        assert(create_children_patches(cs, parent, id).1 == b.1);
        assert(shapes_ids(shs) == shapes_ids(shs.drop_last()).union(shape_ids(shs.last())));
        assert forall|x: nat| #[trigger] shapes_ids(shs).contains(x) implies id <= x < b.1 by {
            if shapes_ids(shs.drop_last()).contains(x) {
            } else {
                assert(shape_ids(shs.last()).contains(x));
            }
        }
        assert(shapes_ids(shs.drop_last()).disjoint(shape_ids(shs.last()))) by {
            assert forall|x: nat| shapes_ids(shs.drop_last()).contains(x) && #[trigger] shape_ids(shs.last()).contains(x) implies false by {}
        }
    } else {
        assert(create_children_shape(cs, parent, id) =~= Seq::<Shape>::empty());
    }
}

proof fn lemma_diff_shape_ids<D>(old: VNode, n: NodeView<D>, parent: nat, id: nat)
    requires
        comparable(old, n),
        vnode_distinct(old),
        forall|x: nat| #[trigger] vnode_ids(old).contains(x) ==> x < id,
    ensures
        forall|x: nat| #[trigger]
            shape_ids(diff_shape(old, n, parent, id)).contains(x) ==> vnode_ids(old).contains(x) || (id <= x
                < diff_node_patches(old, n, parent, id).1),
        shape_distinct(diff_shape(old, n, parent, id)),
    decreases n,
{
    crate::render::lemma_diff_bounds(old, n, parent, id);
    match n {
        NodeView::Element { attrs, children, .. } => {
            if let VNode::Element(ve) = old {
                lemma_fold_entries(attrs);
                let olds = ve.children@;
                assert forall|x: nat| #[trigger] vnodes_ids(olds).contains(x) implies x < id by {
                    assert(vnode_ids(old).contains(x));
                }
                let node = ve.node as nat;
                lemma_diff_prefix_shape_ids(olds, children, node, id);
                let k: int = if children.len() <= olds.len() { children.len() as int } else { olds.len() as int };
                lemma_vnodes_ids_take(olds, k);
                let sh = diff_shape(old, n, parent, id);
                assert(sh.handle == node && sh.children == diff_prefix_shape(olds, children, node, id));
                let r1 = diff_prefix_patches(olds, children, node, id).1;
                assert(diff_node_patches(old, n, parent, id).1 == r1);
                lemma_own_handle(old);
                assert(node < id);
                assert forall|x: nat| #[trigger] shape_ids(sh).contains(x) implies vnode_ids(old).contains(x) || (id <= x
                    < r1) by {
                    if x != node {
                        assert(shapes_ids(sh.children).contains(x));
                        if vnodes_ids(olds.take(k)).contains(x) {
                            assert(vnodes_ids(olds).contains(x));
                        }
                    }
                }
                assert(!shapes_ids(sh.children).contains(node)) by {
                    if shapes_ids(sh.children).contains(node) {
                        if vnodes_ids(olds.take(k)).contains(node) {
                            assert(vnodes_ids(olds).contains(node));
                        }
                    }
                }
            }
        },
        NodeView::Text { .. } => {
            assert(shapes_ids(Seq::<Shape>::empty()) == Set::<nat>::empty());
            lemma_own_handle(old);
        },
    }
}

proof fn lemma_diff_prefix_shape_ids<D>(olds: Seq<VNode>, descs: Seq<NodeView<D>>, parent: nat, id: nat)
    requires
        comparable_all(olds, descs),
        vnodes_distinct(olds),
        forall|x: nat| #[trigger] vnodes_ids(olds).contains(x) ==> x < id,
    ensures
        ({
            let k: int = if descs.len() <= olds.len() { descs.len() as int } else { olds.len() as int };
            &&& forall|x: nat| #[trigger]
                shapes_ids(diff_prefix_shape(olds, descs, parent, id)).contains(x) ==> vnodes_ids(olds.take(k)).contains(x)
                    || (id <= x < diff_prefix_patches(olds, descs, parent, id).1)
            &&& shapes_distinct(diff_prefix_shape(olds, descs, parent, id))
        }),
    decreases descs,
{
    crate::render::lemma_diff_prefix_bounds(olds, descs, parent, id);
    if descs.len() == 0 {
        assert(diff_prefix_shape(olds, descs, parent, id) =~= Seq::<Shape>::empty());
    } else {
        let rest = descs.drop_last();
        let j = descs.len() - 1;
        let a0 = diff_prefix_patches(olds, rest, parent, id);
        let shs = diff_prefix_shape(olds, descs, parent, id);
        lemma_diff_prefix_shape_ids(olds, rest, parent, id);
        crate::render::lemma_diff_prefix_bounds(olds, rest, parent, id);
        assert(shs.drop_last() =~= diff_prefix_shape(olds, rest, parent, id));
        let k0: int = if rest.len() <= olds.len() { rest.len() as int } else { olds.len() as int };
        lemma_vnodes_ids_take(olds, k0);
        if j < olds.len() {
            let v = olds[j];
            assert(shs.last() == diff_shape(v, descs.last(), parent, a0.1));
            lemma_vnodes_distinct_elem(olds, j);
            lemma_vnodes_ids_take(olds, j);
            assert forall|x: nat| #[trigger] vnode_ids(v).contains(x) implies x < a0.1 by {
                assert(vnodes_ids(olds).contains(x));
            }
            lemma_diff_shape_ids(v, descs.last(), parent, a0.1);
            crate::render::lemma_diff_bounds(v, descs.last(), parent, a0.1);
            let b1 = diff_node_patches(v, descs.last(), parent, a0.1).1;
            assert(diff_prefix_patches(olds, descs, parent, id).1 == b1);
            assert(shapes_ids(shs) == shapes_ids(shs.drop_last()).union(shape_ids(shs.last())));
            assert forall|x: nat| #[trigger] shapes_ids(shs).contains(x) implies vnodes_ids(olds.take(j + 1)).contains(x)
                || (id <= x < b1) by {
                if shapes_ids(shs.drop_last()).contains(x) {
                } else {
                    assert(shape_ids(shs.last()).contains(x));
                }
            }
            assert(shapes_ids(shs.drop_last()).disjoint(shape_ids(shs.last()))) by {
                assert forall|x: nat| shapes_ids(shs.drop_last()).contains(x) && #[trigger] shape_ids(shs.last()).contains(x) implies false by {
                    if vnodes_ids(olds.take(k0)).contains(x) {
                        assert(x < id);
                        assert(!vnode_ids(v).contains(x));
                    }
                }
            }
        } else {
            assert(shs.last() == create_shape(descs.last(), parent, a0.1));
            lemma_create_shape_ids(descs.last(), parent, a0.1);
            crate::render::lemma_create_bounds(descs.last(), parent, a0.1);
            let b1 = create_node_patches(descs.last(), parent, a0.1).1;
            assert(diff_prefix_patches(olds, descs, parent, id).1 == b1);
            assert(shapes_ids(shs) == shapes_ids(shs.drop_last()).union(shape_ids(shs.last())));
            assert forall|x: nat| #[trigger] shapes_ids(shs).contains(x) implies vnodes_ids(olds.take(k0)).contains(x)
                || (id <= x < b1) by {
                if shapes_ids(shs.drop_last()).contains(x) {
                } else {
                    assert(shape_ids(shs.last()).contains(x));
                }
            }
            assert(shapes_ids(shs.drop_last()).disjoint(shape_ids(shs.last()))) by {
                assert forall|x: nat| shapes_ids(shs.drop_last()).contains(x) && #[trigger] shape_ids(shs.last()).contains(x) implies false by {
                    if vnodes_ids(olds.take(k0)).contains(x) {
                        assert(vnodes_ids(olds).contains(x));
                    }
                }
            }
        }
    }
}

/// Rendering keeps the document holding the virtual tree: where rendering
/// under the DOM node `node` starts from a document that holds the previous
/// virtual trees `olds` (as `law_render_shows` asks) and no description gives
/// an element inner HTML, the virtual trees `news` that rendering returns
/// (each of the look of its description, their handles those that rendering
/// gives them) are held by the document after the operations: the children
/// of `node` are their DOM nodes, their handles are distinct and below the
/// next free handle, and no node from there on exists. So the next rendering
/// starts from a document that holds its previous rendering again.
pub proof fn law_render_keeps_holding<D>(
    dom: Map<nat, DomNode<D>>,
    node: nat,
    olds: Seq<VNode>,
    descs: Seq<NodeView<D>>,
    news: Seq<VNode>,
    id: nat,
)
    requires
        dom.contains_key(node),
        dom[node].children == child_handles(olds),
        holds_all(dom, olds),
        vnodes_distinct(olds),
        !vnodes_ids(olds).contains(node),
        forall|x: nat| #[trigger] vnodes_ids(olds).contains(x) ==> x < id,
        node < id,
        fresh_from(dom, id),
        comparable_all(olds, descs),
        no_inner_html_all(descs),
        vnodes_model(news) == descs_model(descs),
        vnodes_shape(news) == diff_prefix_shape(olds, descs, node, id),
    ensures
        ({
            let r = diff_children_patches(olds, descs, node, id);
            let d = apply_patches(dom, r.0);
            &&& d.contains_key(node)
            &&& d[node].children == child_handles(news)
            &&& holds_all(d, news)
            &&& vnodes_distinct(news)
            &&& !vnodes_ids(news).contains(node)
            &&& forall|x: nat| #[trigger] vnodes_ids(news).contains(x) ==> x < r.1
            &&& node < r.1
            &&& fresh_from(d, r.1)
        }),
{
    let r = diff_children_patches(olds, descs, node, id);
    let d = apply_patches(dom, r.0);
    law_render_shows(dom, node, olds, descs, id);
    lemma_child_handles_shape(news);
    lemma_holds_all_from_shows(d, news, descs);
    lemma_vnodes_shape_ids(news);
    lemma_diff_prefix_shape_ids(olds, descs, node, id);
    crate::render::lemma_diff_prefix_bounds(olds, descs, node, id);
    let k: int = if descs.len() <= olds.len() { descs.len() as int } else { olds.len() as int };
    lemma_vnodes_ids_take(olds, k);
    assert forall|x: nat| #[trigger] vnodes_ids(news).contains(x) implies x < r.1 && x != node by {
        if vnodes_ids(olds.take(k)).contains(x) {
            assert(vnodes_ids(olds).contains(x));
        }
    }
}

/// The document holds what the scene rendered last: the mountpoint has the
/// DOM nodes of the scene's virtual trees as children, the document holds
/// them, their handles are distinct, below the next free handle and not that
/// of the mountpoint, and no node from the next free handle on exists.
pub open spec fn scene_held<D>(dom: Map<nat, DomNode<D>>, scene: Scene) -> bool {
    let mp = scene.spec_mountpoint() as nat;
    let vs = scene.spec_vnodes();
    let next = scene.spec_next_id() as nat;
    &&& dom.contains_key(mp)
    &&& dom[mp].children == child_handles(vs)
    &&& holds_all(dom, vs)
    &&& vnodes_distinct(vs)
    &&& !vnodes_ids(vs).contains(mp)
    &&& forall|x: nat| #[trigger] vnodes_ids(vs).contains(x) ==> x < next
    &&& mp < next
    &&& fresh_from(dom, next)
}

/// A scene that has rendered nothing is held by a document whose mountpoint
/// has no children and that has no node from the scene's first free handle
/// on.
pub proof fn law_new_scene_held<D>(dom: Map<nat, DomNode<D>>, scene: Scene)
    requires
        scene.spec_vnodes() == Seq::<VNode>::empty(),
        dom.contains_key(scene.spec_mountpoint() as nat),
        dom[scene.spec_mountpoint() as nat].children == Seq::<nat>::empty(),
        scene.spec_mountpoint() < scene.spec_next_id(),
        fresh_from(dom, scene.spec_next_id() as nat),
    ensures
        scene_held(dom, scene),
{
    assert(child_handles(Seq::<VNode>::empty()) =~= Seq::<nat>::empty());
    assert(vnodes_ids(Seq::<VNode>::empty()) == Set::<nat>::empty());
}

/// Every rendering of a scene keeps the document in step with it: where the
/// document holds what the scene rendered last, and the new descriptions give
/// no element inner HTML and are compared in place wherever the previous
/// rendering has a tree at their position, the operations that rendering
/// returns (as `Scene::render` states them) leave a document whose
/// mountpoint's children show the descriptions and that holds what the scene
/// has rendered now.
pub proof fn law_scene_render<D>(dom: Map<nat, DomNode<D>>, before: Scene, after: Scene, descs: Seq<NodeView<D>>)
    requires
        scene_held(dom, before),
        comparable_all(before.spec_vnodes(), descs),
        no_inner_html_all(descs),
        after.spec_mountpoint() == before.spec_mountpoint(),
        after.spec_next_id() == diff_children_patches(
            before.spec_vnodes(),
            descs,
            before.spec_mountpoint() as nat,
            before.spec_next_id() as nat,
        ).1,
        vnodes_model(after.spec_vnodes()) == descs_model(descs),
        vnodes_shape(after.spec_vnodes()) == diff_prefix_shape(
            before.spec_vnodes(),
            descs,
            before.spec_mountpoint() as nat,
            before.spec_next_id() as nat,
        ),
    ensures
        ({
            let mp = before.spec_mountpoint() as nat;
            let r = diff_children_patches(before.spec_vnodes(), descs, mp, before.spec_next_id() as nat);
            let d = apply_patches(dom, r.0);
            &&& shows_all(d, d[mp].children, descs)
            &&& scene_held(d, after)
        }),
{
    let mp = before.spec_mountpoint() as nat;
    law_render_shows(dom, mp, before.spec_vnodes(), descs, before.spec_next_id() as nat);
    law_render_keeps_holding(dom, mp, before.spec_vnodes(), descs, after.spec_vnodes(), before.spec_next_id() as nat);
}

} // verus!
