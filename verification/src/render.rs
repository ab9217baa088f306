//! The rendering engine: it compares a sequence of node descriptions with the
//! virtual tree of the previous rendering, brings the virtual tree up to date,
//! and lists the DOM operations (`Patch`es) that bring the document up to date
//! with it.
//!
//! DOM nodes are named by `u64` handles that the engine hands out in
//! increasing order; the handle of the node that the tree is mounted on is
//! chosen by the caller.
use crate::attr::{AttrOp, AttrOpView, ops_view};
use crate::node::{ElementNode, Node, NodeView, node_view, nodes_view, opt_view};
use crate::ordered::{
    attribute_map_insert, attribute_map_into_entries, attribute_map_new, attribute_map_remove,
    class_set_clear, class_set_insert, class_set_members, class_set_new, property_map_insert,
    property_map_into_entries, property_map_new, property_map_remove, style_map_clear,
    style_map_entries, style_map_insert, style_map_new, AttributeMap, ClassSet, PropertyMap, StyleMap, attribute_entries, class_members,
    entries_insert, entries_swap_remove, entry_value, key_index, keys_unique, lemma_insert_unique,
    lemma_insert_value, lemma_key_index, lemma_no_values_empty, lemma_swap_remove_unique,
    lemma_swap_remove_value, members_insert, property_entries, style_entries,
};
use crate::types::{Attribute, AttributeView, Property, PropertyView, is_nan_bits, property_eq};
use vstd::prelude::*;

verus! {

// ==== the model of a rendered element ====

/// The attributes, properties, class names, styles and inner HTML of an
/// element: what its annotations amount to, taken in order.
pub struct ElementState {
    pub attributes: Seq<(Seq<char>, AttributeView)>,
    pub properties: Seq<(Seq<char>, PropertyView)>,
    pub class_names: Seq<Seq<char>>,
    pub styles: Seq<(Seq<char>, Seq<char>)>,
    pub inner_html: Option<Seq<char>>,
}

pub open spec fn empty_state() -> ElementState {
    ElementState {
        attributes: Seq::empty(),
        properties: Seq::empty(),
        class_names: Seq::empty(),
        styles: Seq::empty(),
        inner_html: None,
    }
}

/// The state after one more annotation. A later value of an attribute,
/// property or style replaces an earlier one in its place; a class name is
/// added once; listeners leave the state unchanged.
pub open spec fn state_step<D>(st: ElementState, op: AttrOpView<D>) -> ElementState {
    match op {
        AttrOpView::Attribute { name, value } => ElementState {
            attributes: entries_insert(st.attributes, name, value),
            properties: st.properties,
            class_names: st.class_names,
            styles: st.styles,
            inner_html: st.inner_html,
        },
        AttrOpView::Property { name, value } => ElementState {
            attributes: st.attributes,
            properties: entries_insert(st.properties, name, value),
            class_names: st.class_names,
            styles: st.styles,
            inner_html: st.inner_html,
        },
        AttrOpView::Class { class_name } => ElementState {
            attributes: st.attributes,
            properties: st.properties,
            class_names: members_insert(st.class_names, class_name),
            styles: st.styles,
            inner_html: st.inner_html,
        },
        AttrOpView::Style { name, value } => ElementState {
            attributes: st.attributes,
            properties: st.properties,
            class_names: st.class_names,
            styles: entries_insert(st.styles, name, value),
            inner_html: st.inner_html,
        },
        AttrOpView::InnerHtml { inner_html } => ElementState {
            attributes: st.attributes,
            properties: st.properties,
            class_names: st.class_names,
            styles: st.styles,
            inner_html: Some(inner_html),
        },
        AttrOpView::Event { .. } => st,
    }
}

/// The state that a sequence of annotations amounts to.
pub open spec fn fold_ops<D>(ops: Seq<AttrOpView<D>>) -> ElementState
    decreases ops.len(),
{
    if ops.len() == 0 {
        empty_state()
    } else {
        state_step(fold_ops(ops.drop_last()), ops.last())
    }
}

/// The virtual tree as a mathematical value: what a node looks like, without
/// the handles of DOM nodes and without listeners.
pub enum NodeModel {
    Element {
        tag_name: Seq<char>,
        namespace_uri: Option<Seq<char>>,
        state: ElementState,
        children: Seq<NodeModel>,
    },
    Text { data: Seq<char> },
}

/// What rendering a description yields. An element with inner HTML has no
/// child nodes: its children are not rendered.
pub open spec fn desc_model<D>(n: NodeView<D>) -> NodeModel
    decreases n,
{
    match n {
        NodeView::Element { tag_name, namespace_uri, attrs, children } => {
            let st = fold_ops(attrs);
            NodeModel::Element {
                tag_name,
                namespace_uri,
                state: st,
                children: if st.inner_html is Some {
                    Seq::empty()
                } else {
                    Seq::new(
                        children.len(),
                        |i: int|
                            if 0 <= i < children.len() {
                                desc_model(children[i])
                            } else {
                                NodeModel::Text { data: Seq::empty() }
                            },
                    )
                },
            }
        },
        NodeView::Text { data } => NodeModel::Text { data },
    }
}

/// What rendering a sequence of descriptions yields.
pub open spec fn descs_model<D>(s: Seq<NodeView<D>>) -> Seq<NodeModel> {
    s.map_values(|n: NodeView<D>| desc_model(n))
}

// ==== the virtual tree ====

/// A rendered text node.
pub struct VText {
    pub data: String,
    pub node: u64,
}

/// A rendered element.
pub struct VElement {
    pub tag_name: String,
    pub namespace_uri: Option<String>,
    pub attributes: AttributeMap,
    pub properties: PropertyMap,
    pub class_names: ClassSet,
    pub styles: StyleMap,
    pub inner_html: Option<String>,
    pub children: Vec<VNode>,
    pub node: u64,
}

/// A rendered node.
pub enum VNode {
    Text(VText),
    Element(VElement),
}

/// The state held by a rendered element.
pub open spec fn element_state(ve: VElement) -> ElementState {
    ElementState {
        attributes: attribute_entries(ve.attributes),
        properties: property_entries(ve.properties),
        class_names: class_members(ve.class_names),
        styles: style_entries(ve.styles),
        inner_html: opt_view(ve.inner_html),
    }
}

/// The virtual tree under `v`, as a mathematical value.
pub open spec fn vnode_model(v: VNode) -> NodeModel
    decreases v,
{
    match v {
        VNode::Element(ve) => NodeModel::Element {
            tag_name: ve.tag_name@,
            namespace_uri: opt_view(ve.namespace_uri),
            state: element_state(ve),
            children: Seq::new(
                ve.children@.len(),
                |i: int|
                    if 0 <= i < ve.children@.len() {
                        vnode_model(ve.children@[i])
                    } else {
                        NodeModel::Text { data: Seq::empty() }
                    },
            ),
        },
        VNode::Text(t) => NodeModel::Text { data: t.data@ },
    }
}

/// The virtual trees of a sequence of nodes.
pub open spec fn vnodes_model(s: Seq<VNode>) -> Seq<NodeModel> {
    s.map_values(|v: VNode| vnode_model(v))
}

/// The handles of the DOM nodes of a virtual tree, arranged as the tree.
pub struct Shape {
    pub handle: nat,
    pub children: Seq<Shape>,
}

/// The handles of the DOM nodes of `v`, arranged as `v`.
pub open spec fn vnode_shape(v: VNode) -> Shape
    decreases v,
{
    match v {
        VNode::Element(ve) => Shape {
            handle: ve.node as nat,
            children: Seq::new(
                ve.children@.len(),
                |i: int|
                    if 0 <= i < ve.children@.len() {
                        vnode_shape(ve.children@[i])
                    } else {
                        Shape { handle: 0, children: Seq::empty() }
                    },
            ),
        },
        VNode::Text(t) => Shape { handle: t.node as nat, children: Seq::empty() },
    }
}

/// The shapes of a sequence of virtual trees.
pub open spec fn vnodes_shape(s: Seq<VNode>) -> Seq<Shape> {
    s.map_values(|v: VNode| vnode_shape(v))
}

/// The handle of the DOM node behind `v`.
pub open spec fn node_id(v: VNode) -> nat {
    match v {
        VNode::Element(ve) => ve.node as nat,
        VNode::Text(t) => t.node as nat,
    }
}

// ==== DOM operations ====

/// An operation on the document.
#[derive(Debug, Clone, PartialEq)]
#[allow(inconsistent_fields)]
pub enum Patch<D> {
    /// `document.createElement(tag_name)`, or `createElementNS` with a namespace.
    CreateElement { node: u64, tag_name: String, namespace_uri: Option<String> },
    /// `document.createTextNode(data)`.
    CreateTextNode { node: u64, data: String },
    /// `parent.appendChild(child)`.
    AppendChild { parent: u64, child: u64 },
    /// `parent.removeChild(child)`.
    RemoveChild { parent: u64, child: u64 },
    /// `node.setAttribute(name, value)`.
    SetAttribute { node: u64, name: String, value: String },
    /// `node.removeAttribute(name)`.
    RemoveAttribute { node: u64, name: String },
    /// `node[name] = value`.
    SetProperty { node: u64, name: String, value: Property },
    /// `node[name] = undefined`.
    RemoveProperty { node: u64, name: String },
    /// `node.innerHTML = inner_html`.
    SetInnerHtml { node: u64, inner_html: String },
    /// `node.data = data`, for a text node.
    SetData { node: u64, data: String },
    /// Drop every listener registered on `node`.
    ClearListeners { node: u64 },
    /// Register a listener of `event_type` on `node`, replacing the one that
    /// was registered on it for that type, if any.
    AddListener { node: u64, event_type: String, decoder: D },
}

/// The mathematical value of a [`Patch`].
#[allow(inconsistent_fields)]
pub enum PatchView<D> {
    CreateElement { node: nat, tag_name: Seq<char>, namespace_uri: Option<Seq<char>> },
    CreateTextNode { node: nat, data: Seq<char> },
    AppendChild { parent: nat, child: nat },
    RemoveChild { parent: nat, child: nat },
    SetAttribute { node: nat, name: Seq<char>, value: Seq<char> },
    RemoveAttribute { node: nat, name: Seq<char> },
    SetProperty { node: nat, name: Seq<char>, value: PropertyView },
    RemoveProperty { node: nat, name: Seq<char> },
    SetInnerHtml { node: nat, inner_html: Seq<char> },
    SetData { node: nat, data: Seq<char> },
    ClearListeners { node: nat },
    AddListener { node: nat, event_type: Seq<char>, decoder: D },
}

impl<D> View for Patch<D> {
    type V = PatchView<D>;

    open spec fn view(&self) -> PatchView<D> {
        match self {
            Patch::CreateElement { node, tag_name, namespace_uri } => PatchView::CreateElement {
                node: *node as nat,
                tag_name: tag_name@,
                namespace_uri: opt_view(*namespace_uri),
            },
            Patch::CreateTextNode { node, data } => PatchView::CreateTextNode {
                node: *node as nat,
                data: data@,
            },
            Patch::AppendChild { parent, child } => PatchView::AppendChild {
                parent: *parent as nat,
                child: *child as nat,
            },
            Patch::RemoveChild { parent, child } => PatchView::RemoveChild {
                parent: *parent as nat,
                child: *child as nat,
            },
            Patch::SetAttribute { node, name, value } => PatchView::SetAttribute {
                node: *node as nat,
                name: name@,
                value: value@,
            },
            Patch::RemoveAttribute { node, name } => PatchView::RemoveAttribute {
                node: *node as nat,
                name: name@,
            },
            Patch::SetProperty { node, name, value } => PatchView::SetProperty {
                node: *node as nat,
                name: name@,
                value: value@,
            },
            Patch::RemoveProperty { node, name } => PatchView::RemoveProperty {
                node: *node as nat,
                name: name@,
            },
            Patch::SetInnerHtml { node, inner_html } => PatchView::SetInnerHtml {
                node: *node as nat,
                inner_html: inner_html@,
            },
            Patch::SetData { node, data } => PatchView::SetData { node: *node as nat, data: data@ },
            Patch::ClearListeners { node } => PatchView::ClearListeners { node: *node as nat },
            Patch::AddListener { node, event_type, decoder } => PatchView::AddListener {
                node: *node as nat,
                event_type: event_type@,
                decoder: *decoder,
            },
        }
    }
}

/// The views of a sequence of patches.
pub open spec fn patches_view<D>(s: Seq<Patch<D>>) -> Seq<PatchView<D>> {
    s.map_values(|p: Patch<D>| p@)
}

// ==== what rendering does to the document ====

/// Setting an attribute value: a string is set as it is, `true` as the empty
/// string, and `false` removes the attribute.
pub open spec fn attribute_patch<D>(node: nat, name: Seq<char>, value: AttributeView) -> PatchView<D> {
    match value {
        AttributeView::String(s) => PatchView::SetAttribute { node, name, value: s },
        AttributeView::Bool(true) => PatchView::SetAttribute { node, name, value: Seq::empty() },
        AttributeView::Bool(false) => PatchView::RemoveAttribute { node, name },
    }
}

/// The operations that one annotation of a new element performs at once.
/// Class names and styles are collected and applied at the end.
pub open spec fn new_op_patches<D>(node: nat, op: AttrOpView<D>) -> Seq<PatchView<D>> {
    match op {
        AttrOpView::Attribute { name, value } => seq![attribute_patch(node, name, value)],
        AttrOpView::Property { name, value } => seq![PatchView::SetProperty { node, name, value }],
        AttrOpView::Class { .. } => Seq::empty(),
        AttrOpView::Style { .. } => Seq::empty(),
        AttrOpView::InnerHtml { inner_html } => seq![PatchView::SetInnerHtml { node, inner_html }],
        AttrOpView::Event { event_type, decoder } => seq![
            PatchView::AddListener { node, event_type, decoder },
        ],
    }
}

/// The operations that the annotations of a new element perform, in order.
pub open spec fn new_ops_patches<D>(node: nat, ops: Seq<AttrOpView<D>>) -> Seq<PatchView<D>>
    decreases ops.len(),
{
    if ops.len() == 0 {
        Seq::empty()
    } else {
        new_ops_patches(node, ops.drop_last()) + new_op_patches(node, ops.last())
    }
}

/// The items joined in order, with `sep` in front of every item that follows
/// a nonempty result (so an empty string at the start adds no separator).
pub open spec fn join_items(items: Seq<Seq<char>>, sep: Seq<char>) -> Seq<char>
    decreases items.len(),
{
    if items.len() == 0 {
        Seq::empty()
    } else {
        let acc = join_items(items.drop_last(), sep);
        (if acc.len() == 0 {
            acc
        } else {
            acc + sep
        }) + items.last()
    }
}

/// The declarations `name:value` of inline styles.
pub open spec fn style_items(styles: Seq<(Seq<char>, Seq<char>)>) -> Seq<Seq<char>> {
    Seq::new(styles.len(), |i: int| styles[i].0 + ":"@ + styles[i].1)
}

/// The value of the `class` attribute: the class names separated by spaces.
pub open spec fn class_value(st: ElementState) -> Seq<char> {
    join_items(st.class_names, " "@)
}

/// The value of the `style` attribute: the declarations separated by `;`.
pub open spec fn style_value(st: ElementState) -> Seq<char> {
    join_items(style_items(st.styles), ";"@)
}

/// What completes the annotations of an element: the `class` and `style`
/// attributes are set.
pub open spec fn end_patches<D>(node: nat, st: ElementState) -> Seq<PatchView<D>> {
    seq![
        PatchView::SetAttribute { node, name: "class"@, value: class_value(st) },
        PatchView::SetAttribute { node, name: "style"@, value: style_value(st) },
    ]
}

/// The progress of comparing annotations with those of the previous rendering:
/// the operations so far, and the attributes and properties of the previous
/// rendering that no annotation has named yet.
pub struct DiffOps<D> {
    pub patches: Seq<PatchView<D>>,
    pub old_attributes: Seq<(Seq<char>, AttributeView)>,
    pub old_properties: Seq<(Seq<char>, PropertyView)>,
}

/// Comparing one annotation: an attribute or property is set unless the
/// previous rendering held an equal value under its name, and that name is no
/// longer left over; inner HTML is set unless it equals the previous one;
/// listeners are registered again.
pub open spec fn diff_op<D>(node: nat, d: DiffOps<D>, op: AttrOpView<D>, old_inner: Option<Seq<char>>) -> DiffOps<D> {
    match op {
        AttrOpView::Attribute { name, value } => {
            let i = key_index(d.old_attributes, name);
            let same = i >= 0 && d.old_attributes[i].1 == value;
            DiffOps {
                patches: if same {
                    d.patches
                } else {
                    d.patches.push(attribute_patch(node, name, value))
                },
                old_attributes: entries_swap_remove(d.old_attributes, name),
                old_properties: d.old_properties,
            }
        },
        AttrOpView::Property { name, value } => {
            let i = key_index(d.old_properties, name);
            let same = i >= 0 && property_eq(d.old_properties[i].1, value);
            DiffOps {
                patches: if same {
                    d.patches
                } else {
                    d.patches.push(PatchView::SetProperty { node, name, value })
                },
                old_attributes: d.old_attributes,
                old_properties: entries_swap_remove(d.old_properties, name),
            }
        },
        AttrOpView::InnerHtml { inner_html } => DiffOps {
            patches: if old_inner == Some(inner_html) {
                d.patches
            } else {
                d.patches.push(PatchView::SetInnerHtml { node, inner_html })
            },
            old_attributes: d.old_attributes,
            old_properties: d.old_properties,
        },
        AttrOpView::Event { event_type, decoder } => DiffOps {
            patches: d.patches.push(PatchView::AddListener { node, event_type, decoder }),
            old_attributes: d.old_attributes,
            old_properties: d.old_properties,
        },
        _ => d,
    }
}

/// Comparing a sequence of annotations, in order.
pub open spec fn diff_ops<D>(
    node: nat,
    ops: Seq<AttrOpView<D>>,
    old_attributes: Seq<(Seq<char>, AttributeView)>,
    old_properties: Seq<(Seq<char>, PropertyView)>,
    old_inner: Option<Seq<char>>,
) -> DiffOps<D>
    decreases ops.len(),
{
    if ops.len() == 0 {
        DiffOps { patches: Seq::empty(), old_attributes, old_properties }
    } else {
        diff_op(
            node,
            diff_ops(node, ops.drop_last(), old_attributes, old_properties, old_inner),
            ops.last(),
            old_inner,
        )
    }
}

/// The removal of the attributes that are left over.
pub open spec fn remove_attribute_patches<D>(node: nat, left: Seq<(Seq<char>, AttributeView)>) -> Seq<PatchView<D>> {
    Seq::new(left.len(), |i: int| PatchView::RemoveAttribute { node, name: left[i].0 })
}

/// The removal of the properties that are left over.
pub open spec fn remove_property_patches<D>(node: nat, left: Seq<(Seq<char>, PropertyView)>) -> Seq<PatchView<D>> {
    Seq::new(left.len(), |i: int| PatchView::RemoveProperty { node, name: left[i].0 })
}

/// Creating the DOM for a description under `parent`, handing out handles from
/// `id` on: the operations and the next free handle. The element is appended
/// to `parent` after its annotations and children are in place.
pub open spec fn create_node_patches<D>(n: NodeView<D>, parent: nat, id: nat) -> (Seq<PatchView<D>>, nat)
    decreases n,
{
    match n {
        NodeView::Text { data } => (
            seq![
                PatchView::CreateTextNode { node: id, data },
                PatchView::AppendChild { parent, child: id },
            ],
            id + 1,
        ),
        NodeView::Element { tag_name, namespace_uri, attrs, children } => {
            let st = fold_ops(attrs);
            let c = if st.inner_html is None {
                create_children_patches(children, id, id + 1)
            } else {
                (Seq::empty(), id + 1)
            };
            (
                seq![PatchView::CreateElement { node: id, tag_name, namespace_uri }]
                    + new_ops_patches(id, attrs) + end_patches(id, st) + c.0 + seq![
                    PatchView::AppendChild { parent, child: id },
                ],
                c.1,
            )
        },
    }
}

/// Creating the DOM for a sequence of descriptions under `parent`, in order.
pub open spec fn create_children_patches<D>(cs: Seq<NodeView<D>>, parent: nat, id: nat) -> (Seq<PatchView<D>>, nat)
    decreases cs,
{
    if cs.len() == 0 {
        (Seq::empty(), id)
    } else {
        let a = create_children_patches(cs.drop_last(), parent, id);
        let b = create_node_patches(cs.last(), parent, a.1);
        (a.0 + b.0, b.1)
    }
}

/// The removal from `parent` of the previous children from position `from` on.
pub open spec fn remove_child_patches<D>(parent: nat, old: Seq<VNode>, from: int) -> Seq<PatchView<D>> {
    if old.len() > from {
        Seq::new(
            (old.len() - from) as nat,
            |j: int| PatchView::RemoveChild { parent, child: node_id(old[from + j]) },
        )
    } else {
        Seq::empty()
    }
}

/// Bringing the DOM of the previous rendering `old` up to date with the
/// description `n`: an element of the same tag name and namespace, or a text
/// node, is updated in place; otherwise the DOM for `n` is created and
/// appended to `parent` (the node of `old` is left where it is).
pub open spec fn diff_node_patches<D>(old: VNode, n: NodeView<D>, parent: nat, id: nat) -> (Seq<PatchView<D>>, nat)
    decreases n,
{
    match n {
        NodeView::Element { tag_name, namespace_uri, attrs, children } => match old {
            VNode::Element(ve) => if ve.tag_name@ == tag_name && opt_view(ve.namespace_uri)
                == namespace_uri {
                let node = ve.node as nat;
                let st = fold_ops(attrs);
                let d = diff_ops(
                    node,
                    attrs,
                    attribute_entries(ve.attributes),
                    property_entries(ve.properties),
                    opt_view(ve.inner_html),
                );
                let c = if st.inner_html is None {
                    let a = diff_prefix_patches(ve.children@, children, node, id);
                    (a.0 + remove_child_patches(node, ve.children@, children.len() as int), a.1)
                } else {
                    (Seq::empty(), id)
                };
                (
                    seq![PatchView::ClearListeners { node }] + d.patches
                        + remove_attribute_patches(node, d.old_attributes)
                        + remove_property_patches(node, d.old_properties) + end_patches(node, st)
                        + c.0,
                    c.1,
                )
            } else {
                create_node_patches(n, parent, id)
            },
            VNode::Text(_) => create_node_patches(n, parent, id),
        },
        NodeView::Text { data } => match old {
            VNode::Text(t) => (
                if t.data@ == data {
                    Seq::empty()
                } else {
                    seq![PatchView::SetData { node: t.node as nat, data }]
                },
                id,
            ),
            VNode::Element(_) => create_node_patches(n, parent, id),
        },
    }
}

/// Bringing the previous children `old` of `parent` up to date with the
/// descriptions `descs`, position by position, without removing the previous
/// children that are left over.
pub open spec fn diff_prefix_patches<D>(old: Seq<VNode>, descs: Seq<NodeView<D>>, parent: nat, id: nat) -> (Seq<PatchView<D>>, nat)
    decreases descs,
{
    if descs.len() == 0 {
        (Seq::empty(), id)
    } else {
        let a = diff_prefix_patches(old, descs.drop_last(), parent, id);
        let k = descs.len() - 1;
        let b = if k < old.len() {
            diff_node_patches(old[k], descs.last(), parent, a.1)
        } else {
            create_node_patches(descs.last(), parent, a.1)
        };
        (a.0 + b.0, b.1)
    }
}

/// Bringing the children `old` of `parent` up to date with `descs`: position
/// by position, then the previous children that are left over are removed.
pub open spec fn diff_children_patches<D>(old: Seq<VNode>, descs: Seq<NodeView<D>>, parent: nat, id: nat) -> (Seq<PatchView<D>>, nat) {
    let a = diff_prefix_patches(old, descs, parent, id);
    (a.0 + remove_child_patches(parent, old, descs.len() as int), a.1)
}

/// The handles that creating the description `n` under `parent` gives its
/// nodes, handing out handles from `id` on.
pub open spec fn create_shape<D>(n: NodeView<D>, parent: nat, id: nat) -> Shape
    decreases n,
{
    match n {
        NodeView::Text { .. } => Shape { handle: id, children: Seq::empty() },
        NodeView::Element { attrs, children, .. } => Shape {
            handle: id,
            children: if fold_ops(attrs).inner_html is None {
                create_children_shape(children, id, id + 1)
            } else {
                Seq::empty()
            },
        },
    }
}

/// The handles that creating the descriptions `cs` under `parent` gives their
/// nodes.
pub open spec fn create_children_shape<D>(cs: Seq<NodeView<D>>, parent: nat, id: nat) -> Seq<Shape>
    decreases cs,
{
    if cs.len() == 0 {
        Seq::empty()
    } else {
        create_children_shape(cs.drop_last(), parent, id).push(
            create_shape(cs.last(), parent, create_children_patches(cs.drop_last(), parent, id).1),
        )
    }
}

/// The handles of the virtual tree that bringing `old` up to date with the
/// description `n` yields: the nodes compared in place keep theirs.
pub open spec fn diff_shape<D>(old: VNode, n: NodeView<D>, parent: nat, id: nat) -> Shape
    decreases n,
{
    match n {
        NodeView::Element { tag_name, namespace_uri, attrs, children } => match old {
            VNode::Element(ve) => if ve.tag_name@ == tag_name && opt_view(ve.namespace_uri)
                == namespace_uri {
                Shape {
                    handle: ve.node as nat,
                    children: if fold_ops(attrs).inner_html is None {
                        diff_prefix_shape(ve.children@, children, ve.node as nat, id)
                    } else {
                        Seq::empty()
                    },
                }
            } else {
                create_shape(n, parent, id)
            },
            VNode::Text(_) => create_shape(n, parent, id),
        },
        NodeView::Text { .. } => match old {
            VNode::Text(t) => Shape { handle: t.node as nat, children: Seq::empty() },
            VNode::Element(_) => create_shape(n, parent, id),
        },
    }
}

/// The handles of the virtual trees that bringing the children `old` of
/// `parent` up to date with `descs` yields.
pub open spec fn diff_prefix_shape<D>(old: Seq<VNode>, descs: Seq<NodeView<D>>, parent: nat, id: nat) -> Seq<Shape>
    decreases descs,
{
    if descs.len() == 0 {
        Seq::empty()
    } else {
        let a1 = diff_prefix_patches(old, descs.drop_last(), parent, id).1;
        let k = descs.len() - 1;
        diff_prefix_shape(old, descs.drop_last(), parent, id).push(
            if k < old.len() {
                diff_shape(old[k], descs.last(), parent, a1)
            } else {
                create_shape(descs.last(), parent, a1)
            },
        )
    }
}

/// The number of nodes in a description.
pub open spec fn node_size<D>(n: NodeView<D>) -> nat
    decreases n,
{
    match n {
        NodeView::Text { .. } => 1,
        NodeView::Element { children, .. } => 1 + nodes_size(children),
    }
}

/// The number of nodes in a sequence of descriptions.
pub open spec fn nodes_size<D>(cs: Seq<NodeView<D>>) -> nat
    decreases cs,
{
    if cs.len() == 0 {
        0
    } else {
        nodes_size(cs.drop_last()) + node_size(cs.last())
    }
}


// ==== the engine ====

/// The views of a sequence of strings.
pub open spec fn strings_view(s: Seq<String>) -> Seq<Seq<char>> {
    s.map_values(|x: String| x@)
}

pub proof fn lemma_patches_view_push<D>(s: Seq<Patch<D>>, p: Patch<D>)
    ensures
        patches_view(s.push(p)) == patches_view(s).push(p@),
{
    assert(patches_view(s.push(p)) =~= patches_view(s).push(p@));
}

/// The items joined in order, `sep` standing before every item that follows
/// a nonempty result.
pub fn join_strings(items: &Vec<String>, sep: &str) -> (r: String)
    ensures
        r@ == join_items(strings_view(items@), sep@),
{
    let ghost all = strings_view(items@);
    let mut acc = String::new();
    let mut i: usize = 0;
    assert(all.take(0) =~= Seq::<Seq<char>>::empty());
    while i < items.len()
        invariant
            i <= items@.len(),
            all == strings_view(items@),
            acc@ == join_items(all.take(i as int), sep@),
        decreases items@.len() - i,
    {
        if !acc.as_str().is_empty() {
            acc.append(sep);
        }
        acc.append(items[i].as_str());
        assert(all.take(i + 1).drop_last() =~= all.take(i as int));
        i = i + 1;
    }
    assert(all.take(items@.len() as int) =~= all);
    acc
}

/// The state of a rendering in progress: the next free handle of a DOM node
/// and the operations so far.
pub struct Renderer<D> {
    pub next_id: u64,
    pub patches: Vec<Patch<D>>,
}

impl<D> Renderer<D> {
    /// A rendering that hands out handles from `next_id` on.
    pub fn new(next_id: u64) -> (r: Renderer<D>)
        ensures
            r.next_id == next_id,
            r.patches@ == Seq::<Patch<D>>::empty(),
    {
        Renderer { next_id, patches: Vec::new() }
    }

    fn emit(&mut self, p: Patch<D>)
        ensures
            patches_view(final(self).patches@) == patches_view(old(self).patches@).push(p@),
            final(self).next_id == old(self).next_id,
    {
        proof {
            lemma_patches_view_push(self.patches@, p);
        }
        self.patches.push(p);
    }

    /// Sets an attribute value on `node`: a string as it is, `true` as the
    /// empty string, and `false` by removing the attribute.
    fn set_attribute(&mut self, node: u64, name: String, value: &Attribute)
        ensures
            patches_view(final(self).patches@) == patches_view(old(self).patches@).push(
                attribute_patch(node as nat, name@, value@),
            ),
            final(self).next_id == old(self).next_id,
    {
        match value {
            Attribute::String(s) => self.emit(Patch::SetAttribute { node, name, value: s.clone() }),
            Attribute::Bool(true) => self.emit(
                Patch::SetAttribute { node, name, value: String::new() },
            ),
            Attribute::Bool(false) => self.emit(Patch::RemoveAttribute { node, name }),
        }
    }

    /// Sets the `class` attribute of `node` to its class names, separated by
    /// spaces.
    fn apply_class(&mut self, node: u64, class_names: &ClassSet)
        ensures
            patches_view(final(self).patches@) == patches_view(old(self).patches@).push(
                PatchView::SetAttribute {
                    node: node as nat,
                    name: "class"@,
                    value: join_items(class_members(*class_names), " "@),
                },
            ),
            final(self).next_id == old(self).next_id,
    {
        let names = class_set_members(class_names);
        assert(strings_view(names@) =~= class_members(*class_names));
        let value = join_strings(&names, " ");
        self.emit(Patch::SetAttribute { node, name: "class".to_owned(), value });
    }

    /// Sets the `style` attribute of `node` to its declarations `name:value`,
    /// separated by `;`.
    fn apply_style(&mut self, node: u64, styles: &StyleMap)
        ensures
            patches_view(final(self).patches@) == patches_view(old(self).patches@).push(
                PatchView::SetAttribute {
                    node: node as nat,
                    name: "style"@,
                    value: join_items(style_items(style_entries(*styles)), ";"@),
                },
            ),
            final(self).next_id == old(self).next_id,
    {
        let entries = style_map_entries(styles);
        let ghost e = style_entries(*styles);
        let mut items: Vec<String> = Vec::new();
        let mut i: usize = 0;
        while i < entries.len()
            invariant
                i <= entries@.len(),
                entries@.len() == e.len(),
                forall|j: int| 0 <= j < entries@.len() ==> (#[trigger] entries@[j]).0@ == e[j].0 && entries@[j].1@ == e[j].1,
                items@.len() == i,
                forall|j: int| 0 <= j < i ==> (#[trigger] items@[j])@ == e[j].0 + ":"@ + e[j].1,
            decreases entries@.len() - i,
        {
            let mut item = entries[i].0.clone();
            item.append(":");
            item.append(entries[i].1.as_str());
            items.push(item);
            i = i + 1;
        }
        assert(strings_view(items@) =~= style_items(e));
        let value = join_strings(&items, ";");
        self.emit(Patch::SetAttribute { node, name: "style".to_owned(), value });
    }

    /// Completes the annotations of `ve`: sets its `class` and `style`.
    fn end_element(&mut self, ve: &VElement)
        ensures
            patches_view(final(self).patches@) == patches_view(old(self).patches@) + end_patches(
                ve.node as nat,
                element_state(*ve),
            ),
            final(self).next_id == old(self).next_id,
    {
        let ghost start = patches_view(self.patches@);
        self.apply_class(ve.node, &ve.class_names);
        self.apply_style(ve.node, &ve.styles);
        assert(patches_view(self.patches@) =~= start + end_patches(ve.node as nat, element_state(*ve)));
    }

    /// Applies the annotations of a new element to `ve`, in order, and
    /// completes them.
    fn new_attributes(&mut self, ve: &mut VElement, attrs: Vec<AttrOp<D>>)
        requires
            element_state(*old(ve)) == empty_state(),
        ensures
            element_state(*final(ve)) == fold_ops(ops_view(attrs@)),
            patches_view(final(self).patches@) == patches_view(old(self).patches@)
                + new_ops_patches(old(ve).node as nat, ops_view(attrs@)) + end_patches(
                old(ve).node as nat,
                fold_ops(ops_view(attrs@)),
            ),
            final(self).next_id == old(self).next_id,
            final(ve).tag_name == old(ve).tag_name,
            final(ve).namespace_uri == old(ve).namespace_uri,
            final(ve).children == old(ve).children,
            final(ve).node == old(ve).node,
    {
        let ghost ops = ops_view(attrs@);
        let ghost orig = attrs@;
        let ghost start = patches_view(self.patches@);
        let node = ve.node;
        let n = attrs.len();
        let mut rest = crate::node::reversed(attrs);
        let mut k: usize = 0;
        assert(ops.take(0) =~= Seq::<AttrOpView<D>>::empty());
        while k < n
            invariant
                k <= n,
                n == orig.len(),
                ops == ops_view(orig),
                node == ve.node,
                rest@ == orig.skip(k as int).reverse(),
                element_state(*ve) == fold_ops(ops.take(k as int)),
                patches_view(self.patches@) == start + new_ops_patches(node as nat, ops.take(k as int)),
                self.next_id == old(self).next_id,
                ve.tag_name == old(ve).tag_name,
                ve.namespace_uri == old(ve).namespace_uri,
                ve.children == old(ve).children,
                ve.node == old(ve).node,
            decreases n - k,
        {
            assert(rest@.len() == n - k);
            let op = rest.pop().unwrap();
            assert(op == orig[k as int]);
            assert(ops.take(k + 1).drop_last() =~= ops.take(k as int));
            assert(ops.take(k + 1).last() == op@);
            assert(rest@ =~= orig.skip(k + 1).reverse());
            match op {
                AttrOp::Attribute { name, value } => {
                    self.set_attribute(node, name.clone(), &value);
                    attribute_map_insert(&mut ve.attributes, name, value);
                },
                AttrOp::Property { name, value } => {
                    self.emit(Patch::SetProperty { node, name: name.clone(), value: value.clone_value() });
                    property_map_insert(&mut ve.properties, name, value);
                },
                AttrOp::Class { class_name } => {
                    class_set_insert(&mut ve.class_names, class_name);
                },
                AttrOp::Style { name, value } => {
                    style_map_insert(&mut ve.styles, name, value);
                },
                AttrOp::InnerHtml { inner_html } => {
                    self.emit(Patch::SetInnerHtml { node, inner_html: inner_html.clone() });
                    ve.inner_html = Some(inner_html);
                },
                AttrOp::Event { event_type, decoder } => {
                    self.emit(Patch::AddListener { node, event_type, decoder });
                },
            }
            assert(element_state(*ve) == fold_ops(ops.take(k + 1)));
            assert(patches_view(self.patches@) =~= start + new_ops_patches(node as nat, ops.take(k + 1)));
            k = k + 1;
        }
        assert(ops.take(n as int) =~= ops);
        self.end_element(ve);
    }

    /// Compares the annotations with those of the previous rendering held by
    /// `ve`, and brings `ve` up to date: the listeners of the element are
    /// dropped; an attribute or property is set unless the previous rendering
    /// held an equal value under its name; inner HTML is set unless it is
    /// unchanged, and the children of `ve` are dropped when it is given;
    /// listeners are registered again; the attributes and properties that no
    /// annotation names any longer are removed; and the annotations are
    /// completed.
    fn diff_attributes(&mut self, ve: &mut VElement, attrs: Vec<AttrOp<D>>)
        ensures
            element_state(*final(ve)) == fold_ops(ops_view(attrs@)),
            ({
                let node = old(ve).node as nat;
                let d = diff_ops(
                    node,
                    ops_view(attrs@),
                    attribute_entries(old(ve).attributes),
                    property_entries(old(ve).properties),
                    opt_view(old(ve).inner_html),
                );
                patches_view(final(self).patches@) == patches_view(old(self).patches@) + seq![
                    PatchView::ClearListeners { node },
                ] + d.patches + remove_attribute_patches(node, d.old_attributes)
                    + remove_property_patches(node, d.old_properties) + end_patches(
                    node,
                    fold_ops(ops_view(attrs@)),
                )
            }),
            final(self).next_id == old(self).next_id,
            final(ve).tag_name == old(ve).tag_name,
            final(ve).namespace_uri == old(ve).namespace_uri,
            final(ve).node == old(ve).node,
            fold_ops(ops_view(attrs@)).inner_html is Some ==> final(ve).children@.len() == 0,
            fold_ops(ops_view(attrs@)).inner_html is None ==> final(ve).children == old(ve).children,
    {
        let ghost ops = ops_view(attrs@);
        let ghost orig = attrs@;
        let ghost a0 = attribute_entries(ve.attributes);
        let ghost p0 = property_entries(ve.properties);
        let ghost i0 = opt_view(ve.inner_html);
        let node = ve.node;
        self.emit(Patch::ClearListeners { node });
        let ghost start = patches_view(self.patches@);
        let mut old_attributes = attribute_map_new();
        std::mem::swap(&mut old_attributes, &mut ve.attributes);
        let mut old_properties = property_map_new();
        std::mem::swap(&mut old_properties, &mut ve.properties);
        let old_inner = ve.inner_html.take();
        class_set_clear(&mut ve.class_names);
        style_map_clear(&mut ve.styles);
        let n = attrs.len();
        let mut rest = crate::node::reversed(attrs);
        let mut k: usize = 0;
        assert(ops.take(0) =~= Seq::<AttrOpView<D>>::empty());
        assert(element_state(*ve) == empty_state());
        while k < n
            invariant
                k <= n,
                n == orig.len(),
                ops == ops_view(orig),
                node == ve.node,
                rest@ == orig.skip(k as int).reverse(),
                opt_view(old_inner) == i0,
                element_state(*ve) == fold_ops(ops.take(k as int)),
                ({
                    let d = diff_ops(node as nat, ops.take(k as int), a0, p0, i0);
                    &&& patches_view(self.patches@) == start + d.patches
                    &&& attribute_entries(old_attributes) == d.old_attributes
                    &&& property_entries(old_properties) == d.old_properties
                }),
                self.next_id == old(self).next_id,
                ve.tag_name == old(ve).tag_name,
                ve.namespace_uri == old(ve).namespace_uri,
                ve.node == old(ve).node,
                fold_ops(ops.take(k as int)).inner_html is Some ==> ve.children@.len() == 0,
                fold_ops(ops.take(k as int)).inner_html is None ==> ve.children == old(ve).children,
            decreases n - k,
        {
            assert(rest@.len() == n - k);
            let op = rest.pop().unwrap();
            assert(op == orig[k as int]);
            assert(ops.take(k + 1).drop_last() =~= ops.take(k as int));
            assert(ops.take(k + 1).last() == op@);
            assert(rest@ =~= orig.skip(k + 1).reverse());
            let ghost d = diff_ops(node as nat, ops.take(k as int), a0, p0, i0);
            match op {
                AttrOp::Attribute { name, value } => {
                    let prev = attribute_map_remove(&mut old_attributes, name.as_str());
                    let same = match &prev {
                        Some(o) => o.equals(&value),
                        None => false,
                    };
                    if !same {
                        self.set_attribute(node, name.clone(), &value);
                    }
                    attribute_map_insert(&mut ve.attributes, name, value);
                },
                AttrOp::Property { name, value } => {
                    let prev = property_map_remove(&mut old_properties, name.as_str());
                    let same = match &prev {
                        Some(o) => o.equals(&value),
                        None => false,
                    };
                    if !same {
                        self.emit(
                            Patch::SetProperty { node, name: name.clone(), value: value.clone_value() },
                        );
                    }
                    property_map_insert(&mut ve.properties, name, value);
                },
                AttrOp::Class { class_name } => {
                    class_set_insert(&mut ve.class_names, class_name);
                },
                AttrOp::Style { name, value } => {
                    style_map_insert(&mut ve.styles, name, value);
                },
                AttrOp::InnerHtml { inner_html } => {
                    let same = match &old_inner {
                        Some(o) => o.eq(&inner_html),
                        None => false,
                    };
                    if !same {
                        self.emit(Patch::SetInnerHtml { node, inner_html: inner_html.clone() });
                    }
                    ve.inner_html = Some(inner_html);
                    ve.children.clear();
                },
                AttrOp::Event { event_type, decoder } => {
                    self.emit(Patch::AddListener { node, event_type, decoder });
                },
            }
            assert(element_state(*ve) == fold_ops(ops.take(k + 1)));
            k = k + 1;
        }
        assert(ops.take(n as int) =~= ops);
        let ghost d = diff_ops(node as nat, ops, a0, p0, i0);
        let ghost mid = patches_view(self.patches@);
        let left_attributes = attribute_map_into_entries(old_attributes);
        let mut i: usize = 0;
        while i < left_attributes.len()
            invariant
                i <= left_attributes@.len(),
                left_attributes@.len() == d.old_attributes.len(),
                forall|j: int| 0 <= j < left_attributes@.len() ==> (#[trigger] left_attributes@[j]).0@ == d.old_attributes[j].0,
                patches_view(self.patches@) == mid + remove_attribute_patches::<D>(node as nat, d.old_attributes).take(i as int),
                self.next_id == old(self).next_id,
            decreases left_attributes@.len() - i,
        {
            self.emit(Patch::RemoveAttribute { node, name: left_attributes[i].0.clone() });
            assert(remove_attribute_patches::<D>(node as nat, d.old_attributes).take(i + 1) =~= remove_attribute_patches::<D>(node as nat, d.old_attributes).take(i as int).push(PatchView::RemoveAttribute { node: node as nat, name: d.old_attributes[i as int].0 }));
            i = i + 1;
        }
        assert(remove_attribute_patches::<D>(node as nat, d.old_attributes).take(i as int) =~= remove_attribute_patches::<D>(node as nat, d.old_attributes));
        let ghost mid2 = patches_view(self.patches@);
        let left_properties = property_map_into_entries(old_properties);
        let mut i: usize = 0;
        while i < left_properties.len()
            invariant
                i <= left_properties@.len(),
                left_properties@.len() == d.old_properties.len(),
                forall|j: int| 0 <= j < left_properties@.len() ==> (#[trigger] left_properties@[j]).0@ == d.old_properties[j].0,
                patches_view(self.patches@) == mid2 + remove_property_patches::<D>(node as nat, d.old_properties).take(i as int),
                self.next_id == old(self).next_id,
            decreases left_properties@.len() - i,
        {
            self.emit(Patch::RemoveProperty { node, name: left_properties[i].0.clone() });
            assert(remove_property_patches::<D>(node as nat, d.old_properties).take(i + 1) =~= remove_property_patches::<D>(node as nat, d.old_properties).take(i as int).push(PatchView::RemoveProperty { node: node as nat, name: d.old_properties[i as int].0 }));
            i = i + 1;
        }
        assert(remove_property_patches::<D>(node as nat, d.old_properties).take(i as int) =~= remove_property_patches::<D>(node as nat, d.old_properties));
        self.end_element(ve);
    }

    /// Creates the DOM for the description `n` under `parent`, handing out
    /// handles from `next_id` on, and returns its virtual tree.
    pub fn create_node(&mut self, n: Node<D>, parent: u64) -> (v: VNode)
        requires
            old(self).next_id + node_size(n@) <= u64::MAX,
        ensures
            ({
                let r = create_node_patches(n@, parent as nat, old(self).next_id as nat);
                &&& patches_view(final(self).patches@) == patches_view(old(self).patches@) + r.0
                &&& final(self).next_id == r.1
            }),
            vnode_model(v) == desc_model(n@),
            vnode_shape(v) == create_shape(n@, parent as nat, old(self).next_id as nat),
            node_id(v) == old(self).next_id,
        decreases node_size(n@),
    {
        let ghost gn = n;
        let ghost start = patches_view(self.patches@);
        proof {
            lemma_create_bounds(n@, parent as nat, self.next_id as nat);
        }
        match n {
            Node::Text(data) => {
                let id = self.next_id;
                self.next_id = id + 1;
                self.emit(Patch::CreateTextNode { node: id, data: data.clone() });
                self.emit(Patch::AppendChild { parent, child: id });
                assert(patches_view(self.patches@) =~= start + create_node_patches(
                    gn@,
                    parent as nat,
                    id as nat,
                ).0);
                VNode::Text(VText { data, node: id })
            },
            Node::Element(e) => {
                let ghost ge = e;
                proof {
                    crate::node::lemma_element_children_view(e);
                }
                let ElementNode { tag_name, namespace_uri, attrs, children } = e;
                let ghost ops = ops_view(attrs@);
                let ghost cs = nodes_view(children@);
                let ghost st = fold_ops(ops);
                let id = self.next_id;
                self.next_id = id + 1;
                self.emit(
                    Patch::CreateElement {
                        node: id,
                        tag_name: tag_name.clone(),
                        namespace_uri: clone_opt_string(&namespace_uri),
                    },
                );
                let mut ve = VElement {
                    tag_name,
                    namespace_uri,
                    attributes: attribute_map_new(),
                    properties: property_map_new(),
                    class_names: class_set_new(),
                    styles: style_map_new(),
                    inner_html: None,
                    children: Vec::new(),
                    node: id,
                };
                self.new_attributes(&mut ve, attrs);
                let ghost after_attrs = patches_view(self.patches@);
                if ve.inner_html.is_none() {
                    let ghost orig = children@;
                    let len = children.len();
                    let mut rest = crate::node::reversed(children);
                    let mut kids: Vec<VNode> = Vec::new();
                    let mut k: usize = 0;
                    assert(cs.take(0) =~= Seq::<NodeView<D>>::empty());
                    assert(vnodes_model(kids@) =~= descs_model(cs.take(0)));
                    while k < len
                        invariant
                            k <= len,
                            len == orig.len(),
                            cs == nodes_view(orig),
                            orig == ge.children@,
                            gn == Node::Element(ge),
                            gn == n,
                            gn@ == (NodeView::Element {
                                tag_name: ge.tag_name@,
                                namespace_uri: opt_view(ge.namespace_uri),
                                attrs: ops,
                                children: cs,
                            }),
                            rest@ == orig.skip(k as int).reverse(),
                            id + 1 + nodes_size(cs) <= u64::MAX,
                            ({
                                let r = create_children_patches(cs.take(k as int), id as nat, id as nat + 1);
                                &&& patches_view(self.patches@) == after_attrs + r.0
                                &&& self.next_id == r.1
                            }),
                            vnodes_model(kids@) == descs_model(cs.take(k as int)),
                            vnodes_shape(kids@) == create_children_shape(cs.take(k as int), id as nat, id as nat + 1),
                        decreases len - k,
                    {
                        assert(rest@.len() == len - k);
                        let child = rest.pop().unwrap();
                        assert(child == orig[k as int]);
                        assert(rest@ =~= orig.skip(k + 1).reverse());
                        assert(cs.take(k + 1).drop_last() =~= cs.take(k as int));
                        assert(cs.take(k + 1).last() == child@);
                        proof {
                            lemma_create_children_bounds(cs.take(k as int), id as nat, id as nat + 1);
                            lemma_nodes_size_take(cs, k as int + 1);
                            assert(node_size(child@) < node_size(gn@));
                        }
                        let ghost old_kids = kids@;
                        let ghost child_view = child@;
                        let v = self.create_node(child, id);
                        kids.push(v);
                        assert(vnodes_model(kids@) =~= vnodes_model(old_kids).push(vnode_model(v)));
                        assert(vnodes_shape(kids@) =~= vnodes_shape(old_kids).push(vnode_shape(v)));
                        assert(descs_model(cs.take(k + 1)) =~= descs_model(cs.take(k as int)).push(
                            desc_model(child_view),
                        ));
                        k = k + 1;
                    }
                    assert(cs.take(len as int) =~= cs);
                    ve.children = kids;
                } else {
                    assert(st.inner_html is Some);
                    assert(ve.children@.len() == 0);
                }
                self.emit(Patch::AppendChild { parent, child: id });
                assert(patches_view(self.patches@) =~= start + create_node_patches(
                    gn@,
                    parent as nat,
                    id as nat,
                ).0);
                let v = VNode::Element(ve);
                assert(vnode_model(v) == desc_model(gn@)) by {
                    lemma_vnode_model_element(ve);
                    lemma_desc_model_element(gn@);
                    if st.inner_html is None {
                        assert(vnodes_model(ve.children@) == descs_model(cs));
                    } else {
                        assert(vnodes_model(ve.children@) =~= Seq::<NodeModel>::empty());
                    }
                }
                assert(vnode_shape(v) == create_shape(gn@, parent as nat, id as nat)) by {
                    lemma_vnode_shape_element(ve);
                    if st.inner_html is Some {
                        assert(vnodes_shape(ve.children@) =~= Seq::<Shape>::empty());
                    }
                }
                v
            },
        }
    }
}

pub proof fn lemma_desc_model_element<D>(n: NodeView<D>)
    ensures
        n matches NodeView::Element { tag_name, namespace_uri, attrs, children } ==> desc_model(n)
            == (NodeModel::Element {
            tag_name,
            namespace_uri,
            state: fold_ops(attrs),
            children: if fold_ops(attrs).inner_html is Some {
                Seq::empty()
            } else {
                descs_model(children)
            },
        }),
{
    if let NodeView::Element { tag_name, namespace_uri, attrs, children } = n {
        if let NodeModel::Element { children: c, .. } = desc_model(n) {
            if fold_ops(attrs).inner_html is None {
                assert(c =~= descs_model(children));
            } else {
                assert(c =~= Seq::<NodeModel>::empty());
            }
        }
    }
}

pub proof fn lemma_vnode_model_element(ve: VElement)
    ensures
        vnode_model(VNode::Element(ve)) == (NodeModel::Element {
            tag_name: ve.tag_name@,
            namespace_uri: opt_view(ve.namespace_uri),
            state: element_state(ve),
            children: vnodes_model(ve.children@),
        }),
{
    if let NodeModel::Element { children: c, .. } = vnode_model(VNode::Element(ve)) {
        assert(c =~= vnodes_model(ve.children@));
    }
}

pub proof fn lemma_vnode_shape_element(ve: VElement)
    ensures
        vnode_shape(VNode::Element(ve)) == (Shape { handle: ve.node as nat, children: vnodes_shape(ve.children@) }),
{
    assert(vnode_shape(VNode::Element(ve)).children =~= vnodes_shape(ve.children@));
}

/// A copy of an optional string.
pub fn clone_opt_string(s: &Option<String>) -> (r: Option<String>)
    ensures
        opt_view(r) == opt_view(*s),
{
    match s {
        Some(s) => Some(s.clone()),
        None => None,
    }
}

pub proof fn lemma_nodes_size_take<D>(s: Seq<NodeView<D>>, k: int)
    requires
        0 <= k <= s.len(),
    ensures
        nodes_size(s.take(k)) <= nodes_size(s),
    decreases s.len(),
{
    if k < s.len() {
        lemma_nodes_size_take(s.drop_last(), k);
        assert(s.drop_last().take(k) =~= s.take(k));
    } else {
        assert(s.take(k) =~= s);
    }
}

pub proof fn lemma_create_bounds<D>(n: NodeView<D>, parent: nat, id: nat)
    ensures
        id + 1 <= create_node_patches(n, parent, id).1 <= id + node_size(n),
    decreases n,
{
    match n {
        NodeView::Element { attrs, children, .. } => {
            lemma_create_children_bounds(children, id, id + 1);
        },
        NodeView::Text { .. } => {},
    }
}

pub proof fn lemma_create_children_bounds<D>(cs: Seq<NodeView<D>>, parent: nat, id: nat)
    ensures
        id <= create_children_patches(cs, parent, id).1 <= id + nodes_size(cs),
    decreases cs,
{
    if cs.len() > 0 {
        lemma_create_children_bounds(cs.drop_last(), parent, id);
        let a = create_children_patches(cs.drop_last(), parent, id);
        lemma_create_bounds(cs.last(), parent, a.1);
    }
}

impl<D> Renderer<D> {
    /// Brings the DOM of the previous rendering `old` up to date with the
    /// description `n`, and returns the new virtual tree. An element of the
    /// same tag name and namespace, or a text node, is updated in place;
    /// otherwise the DOM for `n` is created and appended to `parent`.
    pub fn diff_node(&mut self, prev: VNode, n: Node<D>, parent: u64) -> (v: VNode)
        requires
            old(self).next_id + node_size(n@) <= u64::MAX,
        ensures
            ({
                let r = diff_node_patches(prev, n@, parent as nat, old(self).next_id as nat);
                &&& patches_view(final(self).patches@) == patches_view(old(self).patches@) + r.0
                &&& final(self).next_id == r.1
            }),
            vnode_model(v) == desc_model(n@),
            vnode_shape(v) == diff_shape(prev, n@, parent as nat, old(self).next_id as nat),
        decreases node_size(n@), 0nat,
    {
        let ghost gn = n;
        let ghost gold = prev;
        let ghost id0 = self.next_id as nat;
        let ghost start = patches_view(self.patches@);
        match n {
            Node::Element(e) => {
                let ghost ge = e;
                proof {
                    crate::node::lemma_element_children_view(e);
                    lemma_desc_model_element(gn@);
                    assert(gn@ == node_view(gn));
                }
                let same = match &prev {
                    VNode::Element(ve) => ve.tag_name.eq(&e.tag_name) && opt_string_eq(
                        &ve.namespace_uri,
                        &e.namespace_uri,
                    ),
                    VNode::Text(_) => false,
                };
                match prev {
                    VNode::Element(mut ve) if same => {
                        let ghost gve = ve;
                        let ElementNode { tag_name: _, namespace_uri: _, attrs, children } = e;
                        let ghost ops = ops_view(attrs@);
                        let ghost cs = nodes_view(children@);
                        proof {
                            lemma_nodes_size_take(cs, cs.len() as int);
                            assert(cs.take(cs.len() as int) =~= cs);
                        }
                        self.diff_attributes(&mut ve, attrs);
                        let ghost after_attrs = patches_view(self.patches@);
                        if ve.inner_html.is_none() {
                            let mut old_children: Vec<VNode> = Vec::new();
                            std::mem::swap(&mut old_children, &mut ve.children);
                            let node = ve.node;
                            assert(nodes_size(cs) < node_size(gn@));
                            let kids = self.diff_children(old_children, children, node);
                            ve.children = kids;
                        }
                        proof {
                            lemma_vnode_model_element(ve);
                            lemma_vnode_shape_element(ve);
                            if fold_ops(ops).inner_html is Some {
                                assert(vnodes_model(ve.children@) =~= Seq::<NodeModel>::empty());
                                assert(vnodes_shape(ve.children@) =~= Seq::<Shape>::empty());
                            }
                        }
                        assert(patches_view(self.patches@) =~= start + diff_node_patches(
                            gold,
                            gn@,
                            parent as nat,
                            id0,
                        ).0);
                        VNode::Element(ve)
                    },
                    _ => {
                        self.create_node(Node::Element(e), parent)
                    },
                }
            },
            Node::Text(data) => {
                match prev {
                    VNode::Text(t) => {
                        let mut t = t;
                        if !t.data.eq(&data) {
                            self.emit(Patch::SetData { node: t.node, data: data.clone() });
                            t.data = data;
                        }
                        assert(patches_view(self.patches@) =~= start + diff_node_patches(
                            gold,
                            gn@,
                            parent as nat,
                            id0,
                        ).0);
                        VNode::Text(t)
                    },
                    VNode::Element(_) => self.create_node(Node::Text(data), parent),
                }
            },
        }
    }

    /// Brings the children `old` of `parent` up to date with the descriptions
    /// `descs`, position by position, removes the previous children that are
    /// left over, and returns the new children.
    pub fn diff_children(&mut self, prev: Vec<VNode>, descs: Vec<Node<D>>, parent: u64) -> (r: Vec<VNode>)
        requires
            old(self).next_id + nodes_size(nodes_view(descs@)) <= u64::MAX,
        ensures
            ({
                let p = diff_children_patches(
                    prev@,
                    nodes_view(descs@),
                    parent as nat,
                    old(self).next_id as nat,
                );
                &&& patches_view(final(self).patches@) == patches_view(old(self).patches@) + p.0
                &&& final(self).next_id == p.1
            }),
            vnodes_model(r@) == descs_model(nodes_view(descs@)),
            vnodes_shape(r@) == diff_prefix_shape(prev@, nodes_view(descs@), parent as nat, old(self).next_id as nat),
        decreases nodes_size(nodes_view(descs@)), 1nat,
    {
        let ghost old_s = prev@;
        let ghost orig = descs@;
        let ghost ds = nodes_view(descs@);
        let ghost id0 = self.next_id as nat;
        let ghost start = patches_view(self.patches@);
        let olen = prev.len();
        let dlen = descs.len();
        let mut old_rev = crate::node::reversed(prev);
        let mut desc_rev = crate::node::reversed(descs);
        let mut result: Vec<VNode> = Vec::new();
        let mut k: usize = 0;
        assert(ds.take(0) =~= Seq::<NodeView<D>>::empty());
        assert(vnodes_model(result@) =~= descs_model(ds.take(0)));
        while k < dlen
            invariant
                k <= dlen,
                dlen == orig.len(),
                olen == old_s.len(),
                orig == descs@,
                ds == nodes_view(orig),
                k <= olen ==> old_rev@ == old_s.skip(k as int).reverse(),
                k > olen ==> old_rev@.len() == 0,
                desc_rev@ == orig.skip(k as int).reverse(),
                id0 + nodes_size(ds) <= u64::MAX,
                ({
                    let r = diff_prefix_patches(old_s, ds.take(k as int), parent as nat, id0);
                    &&& patches_view(self.patches@) == start + r.0
                    &&& self.next_id == r.1
                }),
                vnodes_model(result@) == descs_model(ds.take(k as int)),
                vnodes_shape(result@) == diff_prefix_shape(old_s, ds.take(k as int), parent as nat, id0),
            decreases dlen - k,
        {
            assert(desc_rev@.len() == dlen - k);
            let d = desc_rev.pop().unwrap();
            assert(d == orig[k as int]);
            assert(desc_rev@ =~= orig.skip(k + 1).reverse());
            assert(ds.take(k + 1).drop_last() =~= ds.take(k as int));
            assert(ds.take(k + 1).last() == d@);
            let ghost dv = d@;
            proof {
                lemma_diff_prefix_bounds(old_s, ds.take(k as int), parent as nat, id0);
                lemma_nodes_size_take(ds, k as int + 1);
                assert(node_size(dv) <= nodes_size(ds));
            }
            let ghost old_result = result@;
            let v;
            if k < olen {
                assert(old_rev@.len() == olen - k);
                let o = old_rev.pop().unwrap();
                assert(o == old_s[k as int]);
                assert(old_rev@ =~= old_s.skip(k + 1).reverse());
                v = self.diff_node(o, d, parent);
            } else {
                v = self.create_node(d, parent);
            }
            result.push(v);
            assert(vnodes_model(result@) =~= vnodes_model(old_result).push(vnode_model(v)));
            assert(vnodes_shape(result@) =~= vnodes_shape(old_result).push(vnode_shape(v)));
            assert(descs_model(ds.take(k + 1)) =~= descs_model(ds.take(k as int)).push(desc_model(dv)));
            k = k + 1;
        }
        assert(ds.take(dlen as int) =~= ds);
        let ghost mid = patches_view(self.patches@);
        let ghost removals = remove_child_patches::<D>(parent as nat, old_s, dlen as int);
        if olen > dlen {
            let mut j: usize = 0;
            assert(removals.take(0) =~= Seq::<PatchView<D>>::empty());
            while j < olen - dlen
                invariant
                    olen > dlen,
                    j <= olen - dlen,
                    olen == old_s.len(),
                    old_rev@ == old_s.skip(dlen + j).reverse(),
                    removals == remove_child_patches::<D>(parent as nat, old_s, dlen as int),
                    patches_view(self.patches@) == mid + removals.take(j as int),
                    self.next_id == diff_prefix_patches(old_s, ds, parent as nat, id0).1,
                decreases olen - dlen - j,
            {
                assert(old_rev@.len() == olen - dlen - j);
                let o = old_rev.pop().unwrap();
                assert(o == old_s[dlen + j]);
                assert(old_rev@ =~= old_s.skip(dlen + j + 1).reverse());
                let child = vnode_id(&o);
                self.emit(Patch::RemoveChild { parent, child });
                assert(removals.take(j + 1) =~= removals.take(j as int).push(
                    PatchView::RemoveChild { parent: parent as nat, child: node_id(old_s[dlen + j]) },
                ));
                j = j + 1;
            }
            assert(removals.take((olen - dlen) as int) =~= removals);
        } else {
            assert(removals =~= Seq::<PatchView<D>>::empty());
            assert(patches_view(self.patches@) =~= mid + removals);
        }
        result
    }
}

/// The description `n` is compared in place with the previous tree `v`:
/// both are text nodes, or elements of the same tag name and namespace.
pub open spec fn compared_in_place<D>(v: VNode, n: NodeView<D>) -> bool {
    match n {
        NodeView::Text { .. } => v is Text,
        NodeView::Element { tag_name, namespace_uri, .. } => match v {
            VNode::Element(ve) => ve.tag_name@ == tag_name && opt_view(ve.namespace_uri) == namespace_uri,
            VNode::Text(_) => false,
        },
    }
}

/// One step of comparing children position by position: bringing the first
/// `k + 1` children of `parent` up to date is bringing the first `k` up to
/// date, then comparing the description at position `k` with the previous
/// child there, or creating it and appending it where the previous rendering
/// has no child at `k`. The virtual trees before position `k` stay as they
/// were, and one tree is added for position `k`: the one compared in place,
/// or the new one.
pub proof fn law_children_step<D>(old: Seq<VNode>, descs: Seq<NodeView<D>>, parent: nat, id: nat)
    requires
        descs.len() > 0,
    ensures
        ({
            let k = descs.len() - 1;
            let a = diff_prefix_patches(old, descs.drop_last(), parent, id);
            let b = if k < old.len() {
                diff_node_patches(old[k], descs[k], parent, a.1)
            } else {
                create_node_patches(descs[k], parent, a.1)
            };
            let shapes = diff_prefix_shape(old, descs, parent, id);
            &&& diff_prefix_patches(old, descs, parent, id) == (a.0 + b.0, b.1)
            &&& shapes.len() == descs.len()
            &&& shapes.drop_last() == diff_prefix_shape(old, descs.drop_last(), parent, id)
            &&& shapes[k] == if k < old.len() {
                diff_shape(old[k], descs[k], parent, a.1)
            } else {
                create_shape(descs[k], parent, a.1)
            }
            &&& k < old.len() && compared_in_place(old[k], descs[k]) ==> shapes[k].handle == node_id(old[k])
            &&& !(k < old.len() && compared_in_place(old[k], descs[k])) ==> shapes[k].handle == a.1
            &&& descs_model(descs) == descs_model(descs.drop_last()).push(desc_model(descs[k]))
        }),
{
    let k = descs.len() - 1;
    lemma_diff_prefix_shape_len(old, descs, parent, id);
    assert(descs.last() == descs[k]);
    assert(descs_model(descs) =~= descs_model(descs.drop_last()).push(desc_model(descs[k])));
}

/// There is one shape for each description.
pub proof fn lemma_diff_prefix_shape_len<D>(old: Seq<VNode>, descs: Seq<NodeView<D>>, parent: nat, id: nat)
    ensures
        diff_prefix_shape(old, descs, parent, id).len() == descs.len(),
    decreases descs,
{
    if descs.len() > 0 {
        lemma_diff_prefix_shape_len(old, descs.drop_last(), parent, id);
    }
}

/// The handle of the DOM node behind `v`.
pub fn vnode_id(v: &VNode) -> (r: u64)
    ensures
        r == node_id(*v),
{
    match v {
        VNode::Element(ve) => ve.node,
        VNode::Text(t) => t.node,
    }
}

/// Equality of two optional strings.
pub fn opt_string_eq(a: &Option<String>, b: &Option<String>) -> (r: bool)
    ensures
        r == (opt_view(*a) == opt_view(*b)),
{
    match (a, b) {
        (Some(x), Some(y)) => x.eq(y),
        (None, None) => true,
        _ => false,
    }
}

pub proof fn lemma_diff_bounds<D>(old: VNode, n: NodeView<D>, parent: nat, id: nat)
    ensures
        id <= diff_node_patches(old, n, parent, id).1 <= id + node_size(n),
    decreases n,
{
    lemma_create_bounds(n, parent, id);
    match n {
        NodeView::Element { children, .. } => {
            if let VNode::Element(ve) = old {
                lemma_diff_prefix_bounds(ve.children@, children, ve.node as nat, id);
            }
        },
        NodeView::Text { .. } => {},
    }
}

pub proof fn lemma_diff_prefix_bounds<D>(old: Seq<VNode>, descs: Seq<NodeView<D>>, parent: nat, id: nat)
    ensures
        id <= diff_prefix_patches(old, descs, parent, id).1 <= id + nodes_size(descs),
    decreases descs,
{
    if descs.len() > 0 {
        lemma_diff_prefix_bounds(old, descs.drop_last(), parent, id);
        let a = diff_prefix_patches(old, descs.drop_last(), parent, id);
        let k = descs.len() - 1;
        if k < old.len() {
            lemma_diff_bounds(old[k], descs.last(), parent, a.1);
        } else {
            lemma_create_bounds(descs.last(), parent, a.1);
        }
    }
}

/// Children are ignored under inner HTML: an element whose annotations give
/// inner HTML, described with any children, is rendered and compared exactly
/// as the same element described with none, and creating it takes a single
/// handle.
pub proof fn law_inner_html_ignores_children<D>(
    tag_name: Seq<char>,
    namespace_uri: Option<Seq<char>>,
    attrs: Seq<AttrOpView<D>>,
    children: Seq<NodeView<D>>,
    prev: VNode,
    parent: nat,
    id: nat,
)
    requires
        fold_ops(attrs).inner_html is Some,
    ensures
        ({
            let with = NodeView::Element { tag_name, namespace_uri, attrs, children };
            let without = NodeView::Element { tag_name, namespace_uri, attrs, children: Seq::empty() };
            &&& desc_model(with) == desc_model(without)
            &&& create_node_patches(with, parent, id) == create_node_patches(without, parent, id)
            &&& create_node_patches(with, parent, id).1 == id + 1
            &&& diff_node_patches(prev, with, parent, id) == diff_node_patches(prev, without, parent, id)
        }),
{
    let with = NodeView::Element { tag_name, namespace_uri, attrs, children };
    let without = NodeView::Element { tag_name, namespace_uri, attrs, children: Seq::<NodeView<D>>::empty() };
    lemma_desc_model_element(with);
    lemma_desc_model_element(without);
}

// ==== rendering an unchanged description again ====

/// The value that the last annotation setting the attribute `x` gives it.
pub open spec fn last_attr<D>(ops: Seq<AttrOpView<D>>, x: Seq<char>) -> Option<AttributeView>
    decreases ops.len(),
{
    if ops.len() == 0 {
        None
    } else {
        match ops.last() {
            AttrOpView::Attribute { name, value } if name == x => Some(value),
            _ => last_attr(ops.drop_last(), x),
        }
    }
}

/// The value that the last annotation setting the property `x` gives it.
pub open spec fn last_prop<D>(ops: Seq<AttrOpView<D>>, x: Seq<char>) -> Option<PropertyView>
    decreases ops.len(),
{
    if ops.len() == 0 {
        None
    } else {
        match ops.last() {
            AttrOpView::Property { name, value } if name == x => Some(value),
            _ => last_prop(ops.drop_last(), x),
        }
    }
}

/// The inner HTML that the last annotation giving one gives.
pub open spec fn last_inner<D>(ops: Seq<AttrOpView<D>>) -> Option<Seq<char>>
    decreases ops.len(),
{
    if ops.len() == 0 {
        None
    } else {
        match ops.last() {
            AttrOpView::InnerHtml { inner_html } => Some(inner_html),
            _ => last_inner(ops.drop_last()),
        }
    }
}

/// No attribute and no property is named twice, no property is a NaN
/// number, and inner HTML is given at most once.
pub open spec fn ops_settled<D>(ops: Seq<AttrOpView<D>>) -> bool
    decreases ops.len(),
{
    if ops.len() == 0 {
        true
    } else {
        &&& ops_settled(ops.drop_last())
        &&& match ops.last() {
            AttrOpView::Attribute { name, .. } => last_attr(ops.drop_last(), name) is None,
            AttrOpView::Property { name, value } => {
                &&& last_prop(ops.drop_last(), name) is None
                &&& !(value matches PropertyView::Number(bits) && is_nan_bits(bits))
            },
            AttrOpView::InnerHtml { .. } => last_inner(ops.drop_last()) is None,
            _ => true,
        }
    }
}

/// The annotations of every element of the description are settled.
pub open spec fn desc_settled<D>(n: NodeView<D>) -> bool
    decreases n,
{
    match n {
        NodeView::Element { attrs, children, .. } => ops_settled(attrs) && descs_settled(children),
        NodeView::Text { .. } => true,
    }
}

/// The annotations of every element of the descriptions are settled.
pub open spec fn descs_settled<D>(cs: Seq<NodeView<D>>) -> bool
    decreases cs,
{
    if cs.len() == 0 {
        true
    } else {
        descs_settled(cs.drop_last()) && desc_settled(cs.last())
    }
}

/// An operation that a rendering of an unchanged description performs: the
/// listeners are registered again and the `class` and `style` attributes set.
pub open spec fn quiet_patch<D>(p: PatchView<D>) -> bool {
    match p {
        PatchView::ClearListeners { .. } => true,
        PatchView::AddListener { .. } => true,
        PatchView::SetAttribute { name, .. } => name == "class"@ || name == "style"@,
        _ => false,
    }
}

pub proof fn lemma_fold_entries<D>(ops: Seq<AttrOpView<D>>)
    ensures
        keys_unique(fold_ops(ops).attributes),
        keys_unique(fold_ops(ops).properties),
        forall|x: Seq<char>| #[trigger] entry_value(fold_ops(ops).attributes, x) == last_attr(ops, x),
        forall|x: Seq<char>| #[trigger] entry_value(fold_ops(ops).properties, x) == last_prop(ops, x),
        fold_ops(ops).inner_html == last_inner(ops),
    decreases ops.len(),
{
    if ops.len() > 0 {
        lemma_fold_entries(ops.drop_last());
        let st = fold_ops(ops.drop_last());
        match ops.last() {
            AttrOpView::Attribute { name, value } => {
                lemma_insert_unique(st.attributes, name, value);
                assert forall|x: Seq<char>| #[trigger] entry_value(fold_ops(ops).attributes, x) == last_attr(ops, x) by {
                    lemma_insert_value(st.attributes, name, value, x);
                }
            },
            AttrOpView::Property { name, value } => {
                lemma_insert_unique(st.properties, name, value);
                assert forall|x: Seq<char>| #[trigger] entry_value(fold_ops(ops).properties, x) == last_prop(ops, x) by {
                    lemma_insert_value(st.properties, name, value, x);
                }
            },
            _ => {},
        }
    }
}

/// Comparing settled annotations with the state they amount to registers
/// the listeners again and sets nothing else; an attribute or property that
/// an annotation names is no longer left over.
proof fn lemma_diff_ops_quiet<D>(
    node: nat,
    pre: Seq<AttrOpView<D>>,
    a: Seq<(Seq<char>, AttributeView)>,
    p: Seq<(Seq<char>, PropertyView)>,
    inner: Option<Seq<char>>,
)
    requires
        ops_settled(pre),
        keys_unique(a),
        keys_unique(p),
        forall|x: Seq<char>| #[trigger] last_attr(pre, x) is Some ==> entry_value(a, x) == last_attr(pre, x),
        forall|x: Seq<char>| #[trigger] last_prop(pre, x) is Some ==> entry_value(p, x) == last_prop(pre, x),
        last_inner(pre) is Some ==> inner == last_inner(pre),
    ensures
        ({
            let d = diff_ops(node, pre, a, p, inner);
            &&& forall|k: int| 0 <= k < d.patches.len() ==> #[trigger] d.patches[k] is AddListener
            &&& keys_unique(d.old_attributes)
            &&& keys_unique(d.old_properties)
            &&& forall|x: Seq<char>|
                #[trigger] entry_value(d.old_attributes, x) == if last_attr(pre, x) is Some {
                    None
                } else {
                    entry_value(a, x)
                }
            &&& forall|x: Seq<char>|
                #[trigger] entry_value(d.old_properties, x) == if last_prop(pre, x) is Some {
                    None
                } else {
                    entry_value(p, x)
                }
        }),
    decreases pre.len(),
{
    if pre.len() > 0 {
        let rest = pre.drop_last();
        let op = pre.last();
        assert forall|x: Seq<char>| #[trigger] last_attr(rest, x) is Some implies entry_value(a, x) == last_attr(rest, x) by {
            if let AttrOpView::Attribute { name, .. } = op {
                if name == x {
                    assert(last_attr(rest, name) is None);
                }
            }
            assert(last_attr(pre, x) == last_attr(rest, x));
        }
        assert forall|x: Seq<char>| #[trigger] last_prop(rest, x) is Some implies entry_value(p, x) == last_prop(rest, x) by {
            if let AttrOpView::Property { name, .. } = op {
                if name == x {
                    assert(last_prop(rest, name) is None);
                }
            }
            assert(last_prop(pre, x) == last_prop(rest, x));
        }
        if last_inner(rest) is Some {
            assert(!(op is InnerHtml));
            assert(last_inner(pre) == last_inner(rest));
        }
        lemma_diff_ops_quiet(node, rest, a, p, inner);
        let d0 = diff_ops(node, rest, a, p, inner);
        let d = diff_ops(node, pre, a, p, inner);
        assert(d == diff_op(node, d0, op, inner));
        match op {
            AttrOpView::Attribute { name, value } => {
                assert(last_attr(rest, name) is None);
                assert(last_attr(pre, name) == Some(value));
                lemma_key_index(d0.old_attributes, name);
                lemma_swap_remove_unique(d0.old_attributes, name);
                assert(entry_value(a, name) == Some(value));
                assert(entry_value(d0.old_attributes, name) == Some(value));
                assert(d.patches == d0.patches);
                assert forall|x: Seq<char>| #[trigger] entry_value(d.old_attributes, x) == if last_attr(pre, x) is Some {
                    None
                } else {
                    entry_value(a, x)
                } by {
                    lemma_swap_remove_value(d0.old_attributes, name, x);
                    if x != name {
                        assert(last_attr(pre, x) == last_attr(rest, x));
                    }
                }
                assert forall|x: Seq<char>| #[trigger] entry_value(d.old_properties, x) == if last_prop(pre, x) is Some {
                    None
                } else {
                    entry_value(p, x)
                } by {
                    assert(last_prop(pre, x) == last_prop(rest, x));
                }
            },
            AttrOpView::Property { name, value } => {
                assert(last_prop(rest, name) is None);
                assert(last_prop(pre, name) == Some(value));
                lemma_key_index(d0.old_properties, name);
                lemma_swap_remove_unique(d0.old_properties, name);
                assert(property_eq(value, value));
                assert(entry_value(p, name) == Some(value));
                assert(entry_value(d0.old_properties, name) == Some(value));
                assert(d.patches == d0.patches);
                assert forall|x: Seq<char>| #[trigger] entry_value(d.old_properties, x) == if last_prop(pre, x) is Some {
                    None
                } else {
                    entry_value(p, x)
                } by {
                    lemma_swap_remove_value(d0.old_properties, name, x);
                    if x != name {
                        assert(last_prop(pre, x) == last_prop(rest, x));
                    }
                }
                assert forall|x: Seq<char>| #[trigger] entry_value(d.old_attributes, x) == if last_attr(pre, x) is Some {
                    None
                } else {
                    entry_value(a, x)
                } by {
                    assert(last_attr(pre, x) == last_attr(rest, x));
                }
            },
            _ => {
                assert forall|x: Seq<char>| #[trigger] entry_value(d.old_attributes, x) == if last_attr(pre, x) is Some {
                    None
                } else {
                    entry_value(a, x)
                } by {
                    assert(last_attr(pre, x) == last_attr(rest, x));
                }
                assert forall|x: Seq<char>| #[trigger] entry_value(d.old_properties, x) == if last_prop(pre, x) is Some {
                    None
                } else {
                    entry_value(p, x)
                } by {
                    assert(last_prop(pre, x) == last_prop(rest, x));
                }
            },
        }
    }
}

/// Rendering an unchanged description again is quiet: where the virtual
/// tree `v` is what the description `n` renders to, and no element of `n`
/// names an attribute or property twice, holds a NaN property or gives inner
/// HTML twice, comparing `v` with `n` creates no DOM node, and only registers
/// the listeners again and sets the `class` and `style` attributes.
pub proof fn law_rerender_is_quiet<D>(v: VNode, n: NodeView<D>, parent: nat, id: nat)
    requires
        desc_settled(n),
        vnode_model(v) == desc_model(n),
    ensures
        diff_node_patches(v, n, parent, id).1 == id,
        forall|k: int|
            0 <= k < diff_node_patches(v, n, parent, id).0.len() ==> quiet_patch(
                #[trigger] diff_node_patches(v, n, parent, id).0[k],
            ),
    decreases n,
{
    lemma_desc_model_element(n);
    match n {
        NodeView::Element { tag_name, namespace_uri, attrs, children } => {
            if let VNode::Element(ve) = v {
                lemma_vnode_model_element(ve);
                let node = ve.node as nat;
                let st = fold_ops(attrs);
                lemma_fold_entries(attrs);
                assert(element_state(ve) == st);
                let d = diff_ops(
                    node,
                    attrs,
                    attribute_entries(ve.attributes),
                    property_entries(ve.properties),
                    opt_view(ve.inner_html),
                );
                lemma_diff_ops_quiet(
                    node,
                    attrs,
                    attribute_entries(ve.attributes),
                    property_entries(ve.properties),
                    opt_view(ve.inner_html),
                );
                assert forall|x: Seq<char>| #[trigger] entry_value(d.old_attributes, x) is None by {
                    assert(entry_value(st.attributes, x) == last_attr(attrs, x));
                }
                assert forall|x: Seq<char>| #[trigger] entry_value(d.old_properties, x) is None by {
                    assert(entry_value(st.properties, x) == last_prop(attrs, x));
                }
                lemma_no_values_empty(d.old_attributes);
                lemma_no_values_empty(d.old_properties);
                assert(remove_attribute_patches::<D>(node, d.old_attributes) =~= Seq::<PatchView<D>>::empty());
                assert(remove_property_patches::<D>(node, d.old_properties) =~= Seq::<PatchView<D>>::empty());
                let c = if st.inner_html is None {
                    let a = diff_prefix_patches(ve.children@, children, node, id);
                    (a.0 + remove_child_patches(node, ve.children@, children.len() as int), a.1)
                } else {
                    (Seq::empty(), id)
                };
                if st.inner_html is None {
                    assert(vnodes_model(ve.children@) == descs_model(children));
                    assert(vnodes_model(ve.children@).len() == ve.children@.len());
                    assert(descs_model(children).len() == children.len());
                    assert(ve.children@.len() == children.len());
                    assert forall|k: int| 0 <= k < children.len() implies vnode_model(ve.children@[k]) == desc_model(
                        #[trigger] children[k],
                    ) by {
                        assert(vnodes_model(ve.children@)[k] == descs_model(children)[k]);
                    }
                    lemma_prefix_quiet(ve.children@, children, node, id);
                    assert(remove_child_patches::<D>(node, ve.children@, children.len() as int) =~= Seq::<
                        PatchView<D>,
                    >::empty());
                }
                let all = seq![PatchView::ClearListeners { node }] + d.patches
                    + remove_attribute_patches(node, d.old_attributes)
                    + remove_property_patches(node, d.old_properties) + end_patches(node, st) + c.0;
                assert(diff_node_patches(v, n, parent, id) == (all, c.1));
                assert forall|k: int| 0 <= k < all.len() implies quiet_patch(#[trigger] all[k]) by {
                    let e = end_patches::<D>(node, st);
                    if k == 0 {
                    } else if k < 1 + d.patches.len() {
                        assert(all[k] == d.patches[k - 1]);
                    } else if k < 1 + d.patches.len() + 2 {
                        assert(all[k] == e[k - 1 - d.patches.len()]);
                    } else {
                        assert(all[k] == c.0[k - 3 - d.patches.len()]);
                    }
                }
            }
        },
        NodeView::Text { data } => {},
    }
}

/// Rendering unchanged descriptions again under a parent is quiet: where the
/// virtual trees `old` are what the settled descriptions `descs` render to,
/// bringing them up to date creates no DOM node, removes none, and only
/// registers listeners again and sets `class` and `style` attributes.
pub proof fn law_rerender_children_is_quiet<D>(old: Seq<VNode>, descs: Seq<NodeView<D>>, parent: nat, id: nat)
    requires
        descs_settled(descs),
        vnodes_model(old) == descs_model(descs),
    ensures
        diff_children_patches(old, descs, parent, id).1 == id,
        forall|k: int|
            0 <= k < diff_children_patches(old, descs, parent, id).0.len() ==> quiet_patch(
                #[trigger] diff_children_patches(old, descs, parent, id).0[k],
            ),
{
    assert(vnodes_model(old).len() == old.len());
    assert(descs_model(descs).len() == descs.len());
    assert forall|k: int| 0 <= k < descs.len() implies vnode_model(old[k]) == desc_model(#[trigger] descs[k]) by {
        assert(k < old.len());
        assert(vnodes_model(old)[k] == vnode_model(old[k]));
        assert(descs_model(descs)[k] == desc_model(descs[k]));
        assert(vnodes_model(old)[k] == descs_model(descs)[k]);
    }
    lemma_prefix_quiet(old, descs, parent, id);
    assert(remove_child_patches::<D>(parent, old, descs.len() as int) =~= Seq::<PatchView<D>>::empty());
    let a = diff_prefix_patches(old, descs, parent, id);
    assert(diff_children_patches(old, descs, parent, id).0 =~= a.0);
}

proof fn lemma_prefix_quiet<D>(old: Seq<VNode>, descs: Seq<NodeView<D>>, parent: nat, id: nat)
    requires
        descs_settled(descs),
        old.len() >= descs.len(),
        forall|k: int| 0 <= k < descs.len() ==> vnode_model(old[k]) == desc_model(#[trigger] descs[k]),
    ensures
        diff_prefix_patches(old, descs, parent, id).1 == id,
        forall|k: int|
            0 <= k < diff_prefix_patches(old, descs, parent, id).0.len() ==> quiet_patch(
                #[trigger] diff_prefix_patches(old, descs, parent, id).0[k],
            ),
    decreases descs,
{
    if descs.len() > 0 {
        let rest = descs.drop_last();
        assert forall|k: int| 0 <= k < rest.len() implies vnode_model(old[k]) == desc_model(#[trigger] rest[k]) by {
            assert(rest[k] == descs[k]);
        }
        lemma_prefix_quiet(old, rest, parent, id);
        let a = diff_prefix_patches(old, rest, parent, id);
        let last = descs.len() - 1;
        assert(descs.last() == descs[last]);
        law_rerender_is_quiet(old[last], descs.last(), parent, a.1);
        let b = diff_node_patches(old[last], descs.last(), parent, a.1);
        let all = a.0 + b.0;
        assert forall|k: int| 0 <= k < all.len() implies quiet_patch(#[trigger] all[k]) by {
            if k < a.0.len() {
                assert(all[k] == a.0[k]);
            } else {
                assert(all[k] == b.0[k - a.0.len()]);
            }
        }
    }
}

/// The virtual tree of an application mounted on a DOM node, and the next
/// free handle for the DOM nodes that rendering creates.
pub struct Scene {
    mountpoint: u64,
    vnodes: Vec<VNode>,
    next_id: u64,
}

impl Scene {
    pub closed spec fn spec_mountpoint(&self) -> u64 {
        self.mountpoint
    }

    pub closed spec fn spec_vnodes(&self) -> Seq<VNode> {
        self.vnodes@
    }

    pub closed spec fn spec_next_id(&self) -> u64 {
        self.next_id
    }

    /// A scene with nothing rendered yet, mounted on the DOM node `mountpoint`,
    /// that hands out handles from `next_id` on.
    pub fn new(mountpoint: u64, next_id: u64) -> (r: Scene)
        ensures
            r.spec_mountpoint() == mountpoint,
            r.spec_vnodes() == Seq::<VNode>::empty(),
            r.spec_next_id() == next_id,
    {
        Scene { mountpoint, vnodes: Vec::new(), next_id }
    }

    /// The DOM node that the scene is mounted on.
    pub fn mountpoint(&self) -> (r: u64)
        ensures
            r == self.spec_mountpoint(),
    {
        self.mountpoint
    }

    /// The next free handle.
    pub fn next_id(&self) -> (r: u64)
        ensures
            r == self.spec_next_id(),
    {
        self.next_id
    }

    /// The virtual trees of the nodes rendered under the mountpoint.
    pub fn vnodes(&self) -> (r: &Vec<VNode>)
        ensures
            r@ == self.spec_vnodes(),
    {
        &self.vnodes
    }

    /// Renders `nodes` under the mountpoint: brings the previous rendering up
    /// to date with them and returns the operations that bring the document up
    /// to date. Afterwards the virtual tree is what `nodes` describe.
    pub fn render<D, N: crate::node::Nodes<D>>(&mut self, nodes: N) -> (r: Vec<Patch<D>>)
        requires
            old(self).spec_next_id() + nodes_size(nodes.nodes()) <= u64::MAX,
        ensures
            ({
                let p = diff_children_patches(
                    old(self).spec_vnodes(),
                    nodes.nodes(),
                    old(self).spec_mountpoint() as nat,
                    old(self).spec_next_id() as nat,
                );
                &&& patches_view(r@) == p.0
                &&& final(self).spec_next_id() == p.1
            }),
            vnodes_model(final(self).spec_vnodes()) == descs_model(nodes.nodes()),
            vnodes_shape(final(self).spec_vnodes()) == diff_prefix_shape(
                old(self).spec_vnodes(),
                nodes.nodes(),
                old(self).spec_mountpoint() as nat,
                old(self).spec_next_id() as nat,
            ),
            final(self).spec_mountpoint() == old(self).spec_mountpoint(),
    {
        let descs = crate::node::collect_nodes(nodes);
        let mut renderer: Renderer<D> = Renderer::new(self.next_id);
        let mut prev: Vec<VNode> = Vec::new();
        std::mem::swap(&mut prev, &mut self.vnodes);
        let vnodes = renderer.diff_children(prev, descs, self.mountpoint);
        self.vnodes = vnodes;
        self.next_id = renderer.next_id;
        assert(patches_view(Seq::<Patch<D>>::empty()) =~= Seq::<PatchView<D>>::empty());
        renderer.patches
    }
}

/// The number of nodes in the descriptions `nodes`, or `None` where it does
/// not fit in a `u64`.
pub fn count_nodes<D>(nodes: &Vec<Node<D>>) -> (r: Option<u64>)
    ensures
        r matches Some(c) ==> c == nodes_size(nodes_view(nodes@)),
        r is None ==> nodes_size(nodes_view(nodes@)) > u64::MAX,
    decreases nodes_size(nodes_view(nodes@)), 1nat,
{
    let ghost ds = nodes_view(nodes@);
    let mut total: u64 = 0;
    let mut k: usize = 0;
    assert(ds.take(0) =~= Seq::<NodeView<D>>::empty());
    while k < nodes.len()
        invariant
            k <= nodes@.len(),
            ds == nodes_view(nodes@),
            total == nodes_size(ds.take(k as int)),
        decreases nodes@.len() - k,
    {
        proof {
            lemma_nodes_size_take(ds, k as int + 1);
            assert(ds.take(k + 1).drop_last() =~= ds.take(k as int));
            assert(ds.take(k + 1).last() == nodes@[k as int]@);
        }
        let c = count_node(&nodes[k]);
        match c {
            Some(c) => {
                if total > u64::MAX - c {
                    proof {
                        lemma_nodes_size_take(ds, k as int + 1);
                    }
                    return None;
                }
                total = total + c;
            },
            None => {
                proof {
                    lemma_nodes_size_take(ds, k as int + 1);
                }
                return None;
            },
        }
        k = k + 1;
    }
    assert(ds.take(nodes@.len() as int) =~= ds);
    Some(total)
}

/// The number of nodes in the description `n`, or `None` where it does not
/// fit in a `u64`.
pub fn count_node<D>(n: &Node<D>) -> (r: Option<u64>)
    ensures
        r matches Some(c) ==> c == node_size(n@),
        r is None ==> node_size(n@) > u64::MAX,
    decreases node_size(n@), 0nat,
{
    match n {
        Node::Text(_) => Some(1),
        Node::Element(e) => {
            proof {
                crate::node::lemma_element_children_view(*e);
            }
            match count_nodes(&e.children) {
                Some(c) => if c < u64::MAX {
                    Some(c + 1)
                } else {
                    None
                },
                None => None,
            }
        },
    }
}

} // verus!
