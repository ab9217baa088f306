//! A minimal virtual DOM: trees of elements with string attributes and text
//! nodes, each node with an identity of its own, compared node by node with
//! the tree of the previous rendering. The DOM nodes behind the rendered
//! nodes are kept in a cache keyed by the identities of the nodes.
use crate::ordered::{entries_insert, key_index, lemma_key_index};
use itertools::{EitherOrBoth, Itertools};
use std::collections::HashMap;
use vstd::prelude::*;

verus! {

broadcast use vstd::std_specs::hash::group_hash_axioms;

// ==== nodes ====

/// A source of node identities: each identity is handed out once.
pub struct NodeIds {
    next: u64,
}

impl NodeIds {
    pub closed spec fn spec_next(&self) -> u64 {
        self.next
    }

    /// A source that hands out identities from 0 on.
    pub fn new() -> (r: NodeIds)
        ensures
            r.spec_next() == 0,
    {
        NodeIds { next: 0 }
    }

    /// The next identity that `fresh` hands out.
    pub fn peek(&self) -> (r: u64)
        ensures
            r == self.spec_next(),
    {
        self.next
    }

    /// An identity that was not handed out before.
    pub fn fresh(&mut self) -> (r: u64)
        requires
            old(self).spec_next() < u64::MAX,
        ensures
            r == old(self).spec_next(),
            final(self).spec_next() == old(self).spec_next() + 1,
    {
        let r = self.next;
        self.next = r + 1;
        r
    }
}

/// An element node.
pub struct Element {
    pub id: u64,
    pub tag_name: String,
    pub attrs: Vec<(String, String)>,
    pub children: Vec<Node>,
}

/// A text node.
pub struct Text {
    pub id: u64,
    pub value: String,
}

/// A node of the virtual DOM.
pub enum Node {
    Element(Element),
    Text(Text),
}

/// The attributes of an element, by name, in the order of their first setting.
pub open spec fn attrs_view(attrs: Seq<(String, String)>) -> Seq<(Seq<char>, Seq<char>)> {
    attrs.map_values(|p: (String, String)| (p.0@, p.1@))
}

/// The identity of a node.
pub open spec fn spec_node_id(n: Node) -> u64 {
    match n {
        Node::Element(e) => e.id,
        Node::Text(t) => t.id,
    }
}

/// The identity of a node.
pub fn node_id(n: &Node) -> (r: u64)
    ensures
        r == spec_node_id(*n),
{
    match n {
        Node::Element(e) => e.id,
        Node::Text(t) => t.id,
    }
}

/// Create an element node of `tag_name` with no attributes and no children.
pub fn element(tag_name: String, ids: &mut NodeIds) -> (r: Element)
    requires
        old(ids).spec_next() < u64::MAX,
    ensures
        r.id == old(ids).spec_next(),
        final(ids).spec_next() == old(ids).spec_next() + 1,
        r.tag_name == tag_name,
        r.attrs@.len() == 0,
        r.children@.len() == 0,
{
    Element { id: ids.fresh(), tag_name, attrs: Vec::new(), children: Vec::new() }
}

/// Create a text node holding `value`.
pub fn text(value: String, ids: &mut NodeIds) -> (r: Text)
    requires
        old(ids).spec_next() < u64::MAX,
    ensures
        r.id == old(ids).spec_next(),
        final(ids).spec_next() == old(ids).spec_next() + 1,
        r.value == value,
{
    Text { id: ids.fresh(), value }
}

/// The position of the attribute `name` among `attrs`, as `key_index` gives it.
fn find_attr(attrs: &Vec<(String, String)>, name: &String) -> (r: Option<usize>)
    ensures
        r matches Some(i) ==> i < attrs@.len() && i as int == key_index(attrs_view(attrs@), name@),
        r is None ==> key_index(attrs_view(attrs@), name@) == -1,
{
    let ghost e = attrs_view(attrs@);
    proof {
        lemma_key_index(e, name@);
    }
    let mut i = attrs.len();
    assert(e.take(i as int) =~= e);
    while i > 0
        invariant
            i <= attrs@.len(),
            e == attrs_view(attrs@),
            key_index(e, name@) == key_index(e.take(i as int), name@),
        decreases i,
    {
        if attrs[i - 1].0.eq(name) {
            assert(e.take(i as int).last().0 == name@);
            return Some(i - 1);
        }
        assert(e.take(i as int).drop_last() =~= e.take(i - 1));
        i = i - 1;
    }
    assert(e.take(0) =~= Seq::<(Seq<char>, Seq<char>)>::empty());
    None
}

impl Element {
    /// Set the attribute `name` to `value`: an attribute of that name takes
    /// the new value in its place; otherwise the attribute is added last.
    pub fn attr(self, name: String, value: String) -> (r: Element)
        ensures
            attrs_view(r.attrs@) == entries_insert(attrs_view(self.attrs@), name@, value@),
            r.id == self.id,
            r.tag_name == self.tag_name,
            r.children == self.children,
    {
        let mut e = self;
        let ghost before = attrs_view(e.attrs@);
        match find_attr(&e.attrs, &name) {
            Some(i) => {
                e.attrs.set(i, (name, value));
                assert(attrs_view(e.attrs@) =~= before.update(i as int, (name@, value@)));
            },
            None => {
                e.attrs.push((name, value));
                assert(attrs_view(e.attrs@) =~= before.push((name@, value@)));
            },
        }
        e
    }

    /// Append a child node.
    pub fn child(self, child: Node) -> (r: Element)
        ensures
            r.children@ == self.children@.push(child),
            r.id == self.id,
            r.tag_name == self.tag_name,
            r.attrs == self.attrs,
    {
        let mut e = self;
        e.children.push(child);
        e
    }
}

// ==== DOM operations ====

/// An operation on the document.
#[derive(Debug, Clone, PartialEq)]
#[allow(inconsistent_fields)]
pub enum Op {
    /// `document.createElement(tag_name)`.
    CreateElement { node: u64, tag_name: String },
    /// `document.createTextNode(data)`.
    CreateTextNode { node: u64, data: String },
    /// `node.setAttribute(name, value)`.
    SetAttribute { node: u64, name: String, value: String },
    /// `node.removeAttribute(name)`.
    RemoveAttribute { node: u64, name: String },
    /// `parent.appendChild(child)`.
    AppendChild { parent: u64, child: u64 },
    /// `parent.removeChild(child)`.
    RemoveChild { parent: u64, child: u64 },
    /// `parent.replaceChild(new_child, old_child)`.
    ReplaceChild { parent: u64, new_child: u64, old_child: u64 },
    /// `node.data = data`, for a text node.
    SetData { node: u64, data: String },
}

/// The mathematical value of an [`Op`].
#[allow(inconsistent_fields)]
pub enum OpView {
    CreateElement { node: nat, tag_name: Seq<char> },
    CreateTextNode { node: nat, data: Seq<char> },
    SetAttribute { node: nat, name: Seq<char>, value: Seq<char> },
    RemoveAttribute { node: nat, name: Seq<char> },
    AppendChild { parent: nat, child: nat },
    RemoveChild { parent: nat, child: nat },
    ReplaceChild { parent: nat, new_child: nat, old_child: nat },
    SetData { node: nat, data: Seq<char> },
}

impl View for Op {
    type V = OpView;

    open spec fn view(&self) -> OpView {
        match self {
            Op::CreateElement { node, tag_name } => OpView::CreateElement {
                node: *node as nat,
                tag_name: tag_name@,
            },
            Op::CreateTextNode { node, data } => OpView::CreateTextNode {
                node: *node as nat,
                data: data@,
            },
            Op::SetAttribute { node, name, value } => OpView::SetAttribute {
                node: *node as nat,
                name: name@,
                value: value@,
            },
            Op::RemoveAttribute { node, name } => OpView::RemoveAttribute {
                node: *node as nat,
                name: name@,
            },
            Op::AppendChild { parent, child } => OpView::AppendChild {
                parent: *parent as nat,
                child: *child as nat,
            },
            Op::RemoveChild { parent, child } => OpView::RemoveChild {
                parent: *parent as nat,
                child: *child as nat,
            },
            Op::ReplaceChild { parent, new_child, old_child } => OpView::ReplaceChild {
                parent: *parent as nat,
                new_child: *new_child as nat,
                old_child: *old_child as nat,
            },
            Op::SetData { node, data } => OpView::SetData { node: *node as nat, data: data@ },
        }
    }
}

/// The views of a sequence of operations.
pub open spec fn ops_view(s: Seq<Op>) -> Seq<OpView> {
    s.map_values(|o: Op| o@)
}

// ==== the model of rendering and comparing ====

/// The progress of rendering: the operations so far, the DOM node behind each
/// node identity, the next free DOM handle, and whether every node that was
/// looked up in the cache was found there.
pub struct MState {
    pub ops: Seq<OpView>,
    pub cache: Map<u64, u64>,
    pub next: nat,
    pub ok: bool,
}

/// Setting every attribute of a new element, in order.
pub open spec fn set_attr_ops(node: nat, attrs: Seq<(Seq<char>, Seq<char>)>) -> Seq<OpView> {
    Seq::new(attrs.len(), |i: int| OpView::SetAttribute { node, name: attrs[i].0, value: attrs[i].1 })
}

/// Rendering `n`: its DOM node is created, its attributes are set, its
/// children are rendered and appended in order, and the DOM node is cached
/// under the identity of `n`. The result is the state and the DOM handle.
pub open spec fn render_spec(n: Node, s: MState) -> (MState, nat)
    decreases n,
{
    match n {
        Node::Text(t) => {
            let dom = s.next;
            (
                MState {
                    ops: s.ops.push(OpView::CreateTextNode { node: dom, data: t.value@ }),
                    cache: s.cache.insert(t.id, dom as u64),
                    next: dom + 1,
                    ok: s.ok,
                },
                dom,
            )
        },
        Node::Element(e) => {
            let dom = s.next;
            let s1 = MState {
                ops: s.ops.push(OpView::CreateElement { node: dom, tag_name: e.tag_name@ })
                    + set_attr_ops(dom, attrs_view(e.attrs@)),
                cache: s.cache,
                next: dom + 1,
                ok: s.ok,
            };
            let s2 = render_children_spec(e.children@, dom, s1);
            (
                MState { ops: s2.ops, cache: s2.cache.insert(e.id, dom as u64), next: s2.next, ok: s2.ok },
                dom,
            )
        },
    }
}

/// Rendering the children `cs` of the DOM node `parent`, appending each.
pub open spec fn render_children_spec(cs: Seq<Node>, parent: nat, s: MState) -> MState
    decreases cs,
{
    if cs.len() == 0 {
        s
    } else {
        let s1 = render_children_spec(cs.drop_last(), parent, s);
        let r = render_spec(cs.last(), s1);
        MState {
            ops: r.0.ops.push(OpView::AppendChild { parent, child: r.1 }),
            cache: r.0.cache,
            next: r.0.next,
            ok: r.0.ok,
        }
    }
}

/// Comparing the attributes: each new attribute is set unless the old
/// element held the same value under its name; then each old attribute that
/// the new element lacks is removed.
pub open spec fn attr_diff_ops(
    node: nat,
    old_attrs: Seq<(Seq<char>, Seq<char>)>,
    new_attrs: Seq<(Seq<char>, Seq<char>)>,
) -> Seq<OpView> {
    set_changed_ops(node, old_attrs, new_attrs) + remove_missing_ops(node, old_attrs, new_attrs)
}

/// Setting the new attributes whose value changed, in order.
pub open spec fn set_changed_ops(
    node: nat,
    old_attrs: Seq<(Seq<char>, Seq<char>)>,
    new_attrs: Seq<(Seq<char>, Seq<char>)>,
) -> Seq<OpView>
    decreases new_attrs.len(),
{
    if new_attrs.len() == 0 {
        Seq::empty()
    } else {
        let rest = set_changed_ops(node, old_attrs, new_attrs.drop_last());
        let (name, value) = new_attrs.last();
        let i = key_index(old_attrs, name);
        if i >= 0 && old_attrs[i].1 == value {
            rest
        } else {
            rest.push(OpView::SetAttribute { node, name, value })
        }
    }
}

/// Removing the old attributes that the new element lacks, in order.
pub open spec fn remove_missing_ops(
    node: nat,
    old_attrs: Seq<(Seq<char>, Seq<char>)>,
    new_attrs: Seq<(Seq<char>, Seq<char>)>,
) -> Seq<OpView>
    decreases old_attrs.len(),
{
    if old_attrs.len() == 0 {
        Seq::empty()
    } else {
        let rest = remove_missing_ops(node, old_attrs.drop_last(), new_attrs);
        let name = old_attrs.last().0;
        if key_index(new_attrs, name) < 0 {
            rest.push(OpView::RemoveAttribute { node, name })
        } else {
            rest
        }
    }
}

/// Comparing the old node `old` with the new node `new`, given the parent of
/// each DOM node that has one. Nothing is done for the same node. Otherwise
/// the DOM node of `old` is taken from the cache (a node missing from it makes
/// the state fail) and cached under `new`: elements of the same tag name are
/// updated in place, their children compared position by position; text nodes
/// get the new text where it differs; otherwise, where the DOM node has a
/// parent, `new` is rendered and replaces it there.
pub open spec fn diff_spec(old: Node, new: Node, s: MState, parents: Map<u64, u64>) -> MState
    decreases new, 0nat,
{
    if !s.ok {
        s
    } else if spec_node_id(old) == spec_node_id(new) {
        s
    } else if !s.cache.contains_key(spec_node_id(old)) {
        MState { ok: false, ..s }
    } else {
        let node = s.cache[spec_node_id(old)];
        let s1 = MState {
            cache: s.cache.remove(spec_node_id(old)).insert(spec_node_id(new), node),
            ..s
        };
        match new {
            Node::Element(n) => match old {
                Node::Element(o) => if o.tag_name@ == n.tag_name@ {
                    let s2 = MState {
                        ops: s1.ops + attr_diff_ops(node as nat, attrs_view(o.attrs@), attrs_view(n.attrs@)),
                        ..s1
                    };
                    let len = if o.children@.len() >= n.children@.len() {
                        o.children@.len()
                    } else {
                        n.children@.len()
                    };
                    zip_spec(o.children@, n.children@, node as nat, s2, parents, len)
                } else {
                    replace_spec(new, node, s1, parents)
                },
                Node::Text(_) => replace_spec(new, node, s1, parents),
            },
            Node::Text(n) => match old {
                Node::Text(o) => if o.value@ != n.value@ {
                    MState { ops: s1.ops.push(OpView::SetData { node: node as nat, data: n.value@ }), ..s1 }
                } else {
                    s1
                },
                Node::Element(_) => replace_spec(new, node, s1, parents),
            },
        }
    }
}

/// Where the DOM node `node` has a parent, `new` is rendered and replaces it.
pub open spec fn replace_spec(new: Node, node: u64, s: MState, parents: Map<u64, u64>) -> MState {
    if parents.contains_key(node) {
        let r = render_spec(new, s);
        MState {
            ops: r.0.ops.push(
                OpView::ReplaceChild { parent: parents[node] as nat, new_child: r.1, old_child: node as nat },
            ),
            ..r.0
        }
    } else {
        s
    }
}

/// The comparison of the children, over the first `k` positions: at a
/// position with an old and a new child they are compared; an old child alone
/// is taken from the cache and removed from `parent`; a new child alone is
/// rendered and appended to `parent`.
pub open spec fn zip_spec(
    olds: Seq<Node>,
    news: Seq<Node>,
    parent: nat,
    s: MState,
    parents: Map<u64, u64>,
    k: nat,
) -> MState
    decreases news, k,
{
    if k == 0 {
        s
    } else {
        let s1 = zip_spec(olds, news, parent, s, parents, (k - 1) as nat);
        let p = k - 1;
        if !s1.ok {
            s1
        } else if p < olds.len() && p < news.len() {
            diff_spec(olds[p], news[p], s1, parents)
        } else if p < olds.len() {
            let id = spec_node_id(olds[p]);
            if s1.cache.contains_key(id) {
                MState {
                    ops: s1.ops.push(OpView::RemoveChild { parent, child: s1.cache[id] as nat }),
                    cache: s1.cache.remove(id),
                    ..s1
                }
            } else {
                MState { ok: false, ..s1 }
            }
        } else if p < news.len() {
            let r = render_spec(news[p], s1);
            MState { ops: r.0.ops.push(OpView::AppendChild { parent, child: r.1 }), ..r.0 }
        } else {
            s1
        }
    }
}

/// The number of nodes in a tree.
pub open spec fn tree_size(n: Node) -> nat
    decreases n,
{
    match n {
        Node::Text(_) => 1,
        Node::Element(e) => 1 + trees_size(e.children@),
    }
}

/// The number of nodes in a sequence of trees.
pub open spec fn trees_size(cs: Seq<Node>) -> nat
    decreases cs,
{
    if cs.len() == 0 {
        0
    } else {
        trees_size(cs.drop_last()) + tree_size(cs.last())
    }
}


pub proof fn lemma_trees_size_take(cs: Seq<Node>, i: int)
    requires
        0 <= i < cs.len(),
    ensures
        trees_size(cs.take(i + 1)) == trees_size(cs.take(i)) + tree_size(cs[i]),
        trees_size(cs.take(i + 1)) <= trees_size(cs),
{
    assert(cs.take(i + 1).drop_last() =~= cs.take(i));
    lemma_trees_size_prefix(cs, i + 1);
}

pub proof fn lemma_trees_size_prefix(cs: Seq<Node>, i: int)
    requires
        0 <= i <= cs.len(),
    ensures
        trees_size(cs.take(i)) <= trees_size(cs),
    decreases cs.len(),
{
    if i == cs.len() {
        assert(cs.take(i) =~= cs);
    } else {
        assert(cs.drop_last().take(i) =~= cs.take(i));
        lemma_trees_size_prefix(cs.drop_last(), i);
    }
}

/// Rendering a tree takes one DOM handle per node, the first for its root,
/// and keeps whether the state is sound.
pub proof fn lemma_render_next(n: Node, s: MState)
    ensures
        render_spec(n, s).0.next == s.next + tree_size(n),
        render_spec(n, s).1 == s.next,
        render_spec(n, s).0.ok == s.ok,
    decreases n,
{
    match n {
        Node::Text(_) => {},
        Node::Element(e) => {
            let s1 = MState {
                ops: s.ops.push(OpView::CreateElement { node: s.next, tag_name: e.tag_name@ })
                    + set_attr_ops(s.next, attrs_view(e.attrs@)),
                cache: s.cache,
                next: s.next + 1,
                ok: s.ok,
            };
            lemma_render_children_next(e.children@, s.next, s1);
        },
    }
}

pub proof fn lemma_render_children_next(cs: Seq<Node>, parent: nat, s: MState)
    ensures
        render_children_spec(cs, parent, s).next == s.next + trees_size(cs),
        render_children_spec(cs, parent, s).ok == s.ok,
    decreases cs,
{
    if cs.len() > 0 {
        lemma_render_children_next(cs.drop_last(), parent, s);
        lemma_render_next(cs.last(), render_children_spec(cs.drop_last(), parent, s));
    }
}

// ==== rendering and comparing ====

/// The DOM nodes behind the rendered nodes: for each node identity, the
/// handle of its DOM node.
pub struct NodeCaches {
    map: HashMap<u64, u64>,
}

impl View for NodeCaches {
    type V = Map<u64, u64>;

    closed spec fn view(&self) -> Map<u64, u64> {
        self.map@
    }
}

impl NodeCaches {
    /// An empty cache.
    pub fn new() -> (r: NodeCaches)
        ensures
            r@ == Map::<u64, u64>::empty(),
    {
        NodeCaches { map: HashMap::new() }
    }

    /// Cache the DOM node `node` under the identity `id`.
    pub fn set(&mut self, id: u64, node: u64)
        ensures
            final(self)@ == old(self)@.insert(id, node),
    {
        self.map.insert(id, node);
    }

    /// Take the DOM node cached under `id` out of the cache.
    pub fn remove(&mut self, id: u64) -> (r: Option<u64>)
        ensures
            final(self)@ == old(self)@.remove(id),
            r == (if old(self)@.contains_key(id) {
                Some(old(self)@[id])
            } else {
                None::<u64>
            }),
    {
        self.map.remove(&id)
    }

    /// A cache with the same entries.
    fn copy(&self) -> (r: NodeCaches)
        ensures
            r@ == self@,
    {
        NodeCaches { map: self.map.clone() }
    }
}

impl Default for NodeCaches {
    fn default() -> (r: NodeCaches)
        ensures
            r@ == Map::<u64, u64>::empty(),
    {
        NodeCaches::new()
    }
}

/// The document as the renderer sees it: the operations emitted so far, the
/// cache of DOM nodes, and the next free DOM handle.
pub struct Dom {
    pub ops: Vec<Op>,
    pub caches: NodeCaches,
    pub next: u64,
}

/// The state of rendering that `d` holds.
pub open spec fn dom_state(d: Dom, ok: bool) -> MState {
    MState { ops: ops_view(d.ops@), cache: d.caches@, next: d.next as nat, ok }
}

impl Dom {
    /// A document with no operations, an empty cache and DOM handles from
    /// `first` on.
    pub fn new(first: u64) -> (r: Dom)
        ensures
            r.ops@.len() == 0,
            r.caches@ == Map::<u64, u64>::empty(),
            r.next == first,
    {
        Dom { ops: Vec::new(), caches: NodeCaches::new(), next: first }
    }

    fn emit(&mut self, op: Op)
        ensures
            ops_view(final(self).ops@) == ops_view(old(self).ops@).push(op@),
            final(self).caches == old(self).caches,
            final(self).next == old(self).next,
    {
        self.ops.push(op);
        assert(ops_view(self.ops@) =~= ops_view(old(self).ops@).push(op@));
    }
}

/// Render `node` into `dom`: its DOM node and those of its descendants are
/// created, their attributes set and their children appended, and each is
/// cached under the identity of its node. Returns the DOM handle of `node`.
pub fn render(node: &Node, dom: &mut Dom) -> (r: u64)
    requires
        old(dom).next + tree_size(*node) <= u64::MAX,
    ensures
        (dom_state(*final(dom), true), r as nat) == render_spec(*node, dom_state(*old(dom), true)),
    decreases tree_size(*node),
{
    let ghost s0 = dom_state(*dom, true);
    proof {
        lemma_render_next(*node, s0);
    }
    match node {
        Node::Text(t) => {
            let handle = dom.next;
            dom.emit(Op::CreateTextNode { node: handle, data: t.value.clone() });
            dom.next = handle + 1;
            dom.caches.set(t.id, handle);
            handle
        },
        Node::Element(e) => {
            let handle = dom.next;
            dom.emit(Op::CreateElement { node: handle, tag_name: e.tag_name.clone() });
            dom.next = handle + 1;
            let ghost created = s0.ops.push(OpView::CreateElement { node: handle as nat, tag_name: e.tag_name@ });
            let ghost av = attrs_view(e.attrs@);
            let mut i: usize = 0;
            while i < e.attrs.len()
                invariant
                    i <= e.attrs@.len(),
                    av == attrs_view(e.attrs@),
                    ops_view(dom.ops@) == created + set_attr_ops(handle as nat, av.take(i as int)),
                    dom.caches@ == s0.cache,
                    dom.next == handle + 1,
                decreases e.attrs@.len() - i,
            {
                let pair = &e.attrs[i];
                dom.emit(Op::SetAttribute { node: handle, name: pair.0.clone(), value: pair.1.clone() });
                assert(set_attr_ops(handle as nat, av.take(i + 1)) =~= set_attr_ops(handle as nat, av.take(i as int)).push(
                    OpView::SetAttribute { node: handle as nat, name: pair.0@, value: pair.1@ },
                ));
                i = i + 1;
            }
            assert(av.take(i as int) =~= av);
            let ghost s1 = dom_state(*dom, true);
            let ghost cs = e.children@;
            proof {
                lemma_trees_size_prefix(cs, 0);
            }
            let mut j: usize = 0;
            while j < e.children.len()
                invariant
                    j <= cs.len(),
                    cs == e.children@,
                    *node == Node::Element(*e),
                    s1.next == handle + 1,
                    s1.next + trees_size(cs) <= u64::MAX,
                    tree_size(*node) == 1 + trees_size(cs),
                    dom_state(*dom, true) == render_children_spec(cs.take(j as int), handle as nat, s1),
                decreases cs.len() - j,
            {
                proof {
                    lemma_render_children_next(cs.take(j as int), handle as nat, s1);
                    lemma_trees_size_take(cs, j as int);
                    assert(cs.take(j + 1).drop_last() =~= cs.take(j as int));
                }
                let c = render(&e.children[j], dom);
                dom.emit(Op::AppendChild { parent: handle, child: c });
                j = j + 1;
            }
            assert(cs.take(j as int) =~= cs);
            dom.caches.set(e.id, handle);
            handle
        },
    }
}


/// Comparing takes at most one DOM handle per node of the new tree.
pub proof fn lemma_diff_next(old: Node, new: Node, s: MState, parents: Map<u64, u64>)
    ensures
        diff_spec(old, new, s, parents).next <= s.next + tree_size(new),
    decreases new, 0nat,
{
    if s.ok && spec_node_id(old) != spec_node_id(new) && s.cache.contains_key(spec_node_id(old)) {
        let node = s.cache[spec_node_id(old)];
        let s1 = MState {
            cache: s.cache.remove(spec_node_id(old)).insert(spec_node_id(new), node),
            ..s
        };
        lemma_render_next(new, s1);
        match new {
            Node::Element(n) => match old {
                Node::Element(o) => if o.tag_name@ == n.tag_name@ {
                    let s2 = MState {
                        ops: s1.ops + attr_diff_ops(node as nat, attrs_view(o.attrs@), attrs_view(n.attrs@)),
                        ..s1
                    };
                    let len = if o.children@.len() >= n.children@.len() {
                        o.children@.len()
                    } else {
                        n.children@.len()
                    };
                    lemma_zip_next(o.children@, n.children@, node as nat, s2, parents, len);
                    assert(n.children@.take(n.children@.len() as int) =~= n.children@);
                },
                _ => {},
            },
            _ => {},
        }
    }
}

pub proof fn lemma_zip_next(
    olds: Seq<Node>,
    news: Seq<Node>,
    parent: nat,
    s: MState,
    parents: Map<u64, u64>,
    k: nat,
)
    ensures
        zip_spec(olds, news, parent, s, parents, k).next <= s.next + trees_size(
            news.take(if k <= news.len() { k as int } else { news.len() as int }),
        ),
    decreases news, k,
{
    if k > 0 {
        lemma_zip_next(olds, news, parent, s, parents, (k - 1) as nat);
        let s1 = zip_spec(olds, news, parent, s, parents, (k - 1) as nat);
        let p = k - 1;
        if p < news.len() {
            lemma_trees_size_take(news, p);
            lemma_render_next(news[p], s1);
            if p < olds.len() {
                lemma_diff_next(olds[p], news[p], s1, parents);
            }
        }
    }
}

/// Once comparing the children has failed, it stays failed.
proof fn lemma_zip_stuck(
    olds: Seq<Node>,
    news: Seq<Node>,
    parent: nat,
    s: MState,
    parents: Map<u64, u64>,
    k: nat,
    m: nat,
)
    requires
        k <= m,
        !zip_spec(olds, news, parent, s, parents, k).ok,
    ensures
        zip_spec(olds, news, parent, s, parents, m) == zip_spec(olds, news, parent, s, parents, k),
    decreases m,
{
    if m > k {
        lemma_zip_stuck(olds, news, parent, s, parents, k, (m - 1) as nat);
    }
}

/// The states agree in all but the operations emitted so far.
pub open spec fn same_but_ops(s: MState, t: MState) -> bool {
    s.cache == t.cache && s.next == t.next && s.ok == t.ok
}

/// What rendering does to the cache, the next handle and soundness does not
/// depend on the operations emitted before.
pub proof fn lemma_render_ops_free(n: Node, s: MState, t: MState)
    requires
        same_but_ops(s, t),
    ensures
        same_but_ops(render_spec(n, s).0, render_spec(n, t).0),
        render_spec(n, s).1 == render_spec(n, t).1,
    decreases n,
{
    match n {
        Node::Text(_) => {},
        Node::Element(e) => {
            let s1 = MState {
                ops: s.ops.push(OpView::CreateElement { node: s.next, tag_name: e.tag_name@ })
                    + set_attr_ops(s.next, attrs_view(e.attrs@)),
                cache: s.cache,
                next: s.next + 1,
                ok: s.ok,
            };
            let t1 = MState {
                ops: t.ops.push(OpView::CreateElement { node: t.next, tag_name: e.tag_name@ })
                    + set_attr_ops(t.next, attrs_view(e.attrs@)),
                cache: t.cache,
                next: t.next + 1,
                ok: t.ok,
            };
            lemma_render_children_ops_free(e.children@, s.next, s1, t1);
        },
    }
}

pub proof fn lemma_render_children_ops_free(cs: Seq<Node>, parent: nat, s: MState, t: MState)
    requires
        same_but_ops(s, t),
    ensures
        same_but_ops(render_children_spec(cs, parent, s), render_children_spec(cs, parent, t)),
    decreases cs,
{
    if cs.len() > 0 {
        lemma_render_children_ops_free(cs.drop_last(), parent, s, t);
        lemma_render_ops_free(
            cs.last(),
            render_children_spec(cs.drop_last(), parent, s),
            render_children_spec(cs.drop_last(), parent, t),
        );
    }
}

/// What comparing does to the cache, the next handle and soundness does not
/// depend on the operations emitted before.
pub proof fn lemma_diff_ops_free(old: Node, new: Node, s: MState, t: MState, parents: Map<u64, u64>)
    requires
        same_but_ops(s, t),
    ensures
        same_but_ops(diff_spec(old, new, s, parents), diff_spec(old, new, t, parents)),
    decreases new, 0nat,
{
    if s.ok && spec_node_id(old) != spec_node_id(new) && s.cache.contains_key(spec_node_id(old)) {
        let node = s.cache[spec_node_id(old)];
        let s1 = MState { cache: s.cache.remove(spec_node_id(old)).insert(spec_node_id(new), node), ..s };
        let t1 = MState { cache: t.cache.remove(spec_node_id(old)).insert(spec_node_id(new), node), ..t };
        lemma_render_ops_free(new, s1, t1);
        match new {
            Node::Element(n) => match old {
                Node::Element(o) => if o.tag_name@ == n.tag_name@ {
                    let s2 = MState {
                        ops: s1.ops + attr_diff_ops(node as nat, attrs_view(o.attrs@), attrs_view(n.attrs@)),
                        ..s1
                    };
                    let t2 = MState {
                        ops: t1.ops + attr_diff_ops(node as nat, attrs_view(o.attrs@), attrs_view(n.attrs@)),
                        ..t1
                    };
                    let len = if o.children@.len() >= n.children@.len() {
                        o.children@.len()
                    } else {
                        n.children@.len()
                    };
                    lemma_zip_ops_free(o.children@, n.children@, node as nat, s2, t2, parents, len);
                },
                _ => {},
            },
            _ => {},
        }
    }
}

pub proof fn lemma_zip_ops_free(
    olds: Seq<Node>,
    news: Seq<Node>,
    parent: nat,
    s: MState,
    t: MState,
    parents: Map<u64, u64>,
    k: nat,
)
    requires
        same_but_ops(s, t),
    ensures
        same_but_ops(zip_spec(olds, news, parent, s, parents, k), zip_spec(olds, news, parent, t, parents, k)),
    decreases news, k,
{
    if k > 0 {
        lemma_zip_ops_free(olds, news, parent, s, t, parents, (k - 1) as nat);
        let s1 = zip_spec(olds, news, parent, s, parents, (k - 1) as nat);
        let t1 = zip_spec(olds, news, parent, t, parents, (k - 1) as nat);
        let p = k - 1;
        if p < news.len() {
            lemma_render_ops_free(news[p], s1, t1);
            if p < olds.len() {
                lemma_diff_ops_free(olds[p], news[p], s1, t1, parents);
            }
        }
    }
}

/// The positions of `(0..left).zip_longest(0..right)`: for each position up
/// to the longer of the two lengths, the position on each side that has one.
#[verifier::external_body]
fn zip_longest_positions(left: usize, right: usize) -> (r: Vec<(Option<usize>, Option<usize>)>)
    ensures
        r@.len() == if left >= right { left } else { right },
        forall|k: int|
            0 <= k < r@.len() ==> #[trigger] r@[k] == (
                if k < left { Some(k as usize) } else { None::<usize> },
                if k < right { Some(k as usize) } else { None::<usize> },
            ),
{
    (0..left).zip_longest(0..right).map(|e| match e {
        EitherOrBoth::Both(a, b) => (Some(a), Some(b)),
        EitherOrBoth::Left(a) => (Some(a), None),
        EitherOrBoth::Right(b) => (None, Some(b)),
    }).collect()
}

/// Emit the attribute changes from `old_attrs` to `new_attrs` on the DOM node
/// `node`.
fn diff_attrs(node: u64, old_attrs: &Vec<(String, String)>, new_attrs: &Vec<(String, String)>, dom: &mut Dom)
    ensures
        ops_view(final(dom).ops@) == ops_view(old(dom).ops@) + attr_diff_ops(
            node as nat,
            attrs_view(old_attrs@),
            attrs_view(new_attrs@),
        ),
        final(dom).caches == old(dom).caches,
        final(dom).next == old(dom).next,
{
    let ghost ov = attrs_view(old_attrs@);
    let ghost nv = attrs_view(new_attrs@);
    let ghost ops0 = ops_view(dom.ops@);
    let mut i: usize = 0;
    while i < new_attrs.len()
        invariant
            i <= new_attrs@.len(),
            ov == attrs_view(old_attrs@),
            nv == attrs_view(new_attrs@),
            ops_view(dom.ops@) == ops0 + set_changed_ops(node as nat, ov, nv.take(i as int)),
            dom.caches == old(dom).caches,
            dom.next == old(dom).next,
        decreases new_attrs@.len() - i,
    {
        let pair = &new_attrs[i];
        assert(nv.take(i + 1).drop_last() =~= nv.take(i as int));
        assert(nv.take(i + 1).last() == (pair.0@, pair.1@));
        let unchanged = match find_attr(old_attrs, &pair.0) {
            Some(k) => old_attrs[k].1.eq(&pair.1),
            None => false,
        };
        if !unchanged {
            dom.emit(Op::SetAttribute { node, name: pair.0.clone(), value: pair.1.clone() });
            assert(ops_view(dom.ops@) =~= ops0 + set_changed_ops(node as nat, ov, nv.take(i + 1)));
        }
        i = i + 1;
    }
    assert(nv.take(i as int) =~= nv);
    let ghost ops1 = ops_view(dom.ops@);
    let mut j: usize = 0;
    while j < old_attrs.len()
        invariant
            j <= old_attrs@.len(),
            ov == attrs_view(old_attrs@),
            nv == attrs_view(new_attrs@),
            ops_view(dom.ops@) == ops1 + remove_missing_ops(node as nat, ov.take(j as int), nv),
            dom.caches == old(dom).caches,
            dom.next == old(dom).next,
        decreases old_attrs@.len() - j,
    {
        let pair = &old_attrs[j];
        assert(ov.take(j + 1).drop_last() =~= ov.take(j as int));
        assert(ov.take(j + 1).last() == (pair.0@, pair.1@));
        if find_attr(new_attrs, &pair.0).is_none() {
            dom.emit(Op::RemoveAttribute { node, name: pair.0.clone() });
            assert(ops_view(dom.ops@) =~= ops1 + remove_missing_ops(node as nat, ov.take(j + 1), nv));
        }
        j = j + 1;
    }
    assert(ov.take(j as int) =~= ov);
    assert(ops_view(dom.ops@) =~= ops0 + attr_diff_ops(node as nat, ov, nv));
}

/// Where the DOM node `node` has a parent, render `new` and put it in the
/// place of `node` there.
fn replace(new: &Node, node: u64, dom: &mut Dom, parents: &HashMap<u64, u64>)
    requires
        old(dom).next + tree_size(*new) <= u64::MAX,
    ensures
        dom_state(*final(dom), true) == replace_spec(*new, node, dom_state(*old(dom), true), parents@),
{
    match parents.get(&node) {
        Some(parent) => {
            let replacement = render(new, dom);
            dom.emit(Op::ReplaceChild { parent: *parent, new_child: replacement, old_child: node });
        },
        None => {},
    }
}

/// Compare the old node `prev` with the new node `new` and emit into `dom`
/// the operations that bring the DOM node of `prev` up to date with `new`;
/// `parents` gives the parent of each DOM node that has one. Every node of
/// the old tree that the comparison looks for must have its DOM node in the
/// cache: `diff_succeeds` tells whether it does.
pub fn diff(prev: &Node, new: &Node, dom: &mut Dom, parents: &HashMap<u64, u64>)
    requires
        spec_node_id(*prev) == spec_node_id(*new) || old(dom).next + tree_size(*new) <= u64::MAX,
        diff_spec(*prev, *new, dom_state(*old(dom), true), parents@).ok,
    ensures
        dom_state(*final(dom), true) == diff_spec(*prev, *new, dom_state(*old(dom), true), parents@),
{
    if node_id(prev) != node_id(new) {
        let _found = compare(prev, new, dom, parents);
    }
}

/// Whether comparing `prev` with `new` on `dom` finds in the cache every node
/// of the old tree that it looks for.
pub fn diff_succeeds(prev: &Node, new: &Node, dom: &Dom, parents: &HashMap<u64, u64>) -> (r: bool)
    requires
        spec_node_id(*prev) == spec_node_id(*new) || dom.next + tree_size(*new) <= u64::MAX,
    ensures
        r == diff_spec(*prev, *new, dom_state(*dom, true), parents@).ok,
{
    if node_id(prev) == node_id(new) {
        return true;
    }
    let mut scratch = Dom { ops: Vec::new(), caches: dom.caches.copy(), next: dom.next };
    proof {
        lemma_diff_ops_free(*prev, *new, dom_state(scratch, true), dom_state(*dom, true), parents@);
    }
    compare(prev, new, &mut scratch, parents)
}

/// The comparison of `diff`, on any cache: returns `false` where a node of
/// the old tree has no DOM node in the cache; the state is then the one at
/// that point.
fn compare(prev: &Node, new: &Node, dom: &mut Dom, parents: &HashMap<u64, u64>) -> (r: bool)
    requires
        old(dom).next + tree_size(*new) <= u64::MAX,
    ensures
        dom_state(*final(dom), r) == diff_spec(*prev, *new, dom_state(*old(dom), true), parents@),
    decreases tree_size(*new), 0nat,
{
    let ghost s0 = dom_state(*dom, true);
    let old_id = node_id(prev);
    let new_id = node_id(new);
    if old_id == new_id {
        return true;
    }
    let node = match dom.caches.remove(old_id) {
        Some(h) => h,
        None => {
            assert(dom.caches@ =~= s0.cache);
            return false;
        },
    };
    dom.caches.set(new_id, node);
    match new {
        Node::Element(n) => match prev {
            Node::Element(o) => {
                if o.tag_name.eq(&n.tag_name) {
                    diff_attrs(node, &o.attrs, &n.attrs, dom);
                    diff_children(&o.children, &n.children, node, dom, parents)
                } else {
                    replace(new, node, dom, parents);
                    true
                }
            },
            Node::Text(_) => {
                replace(new, node, dom, parents);
                true
            },
        },
        Node::Text(n) => match prev {
            Node::Text(o) => {
                if !o.value.eq(&n.value) {
                    dom.emit(Op::SetData { node, data: n.value.clone() });
                }
                true
            },
            Node::Element(_) => {
                replace(new, node, dom, parents);
                true
            },
        },
    }
}

/// Compare the children `olds` of the DOM node `parent` with the new
/// children `news`, position by position.
fn diff_children(
    olds: &Vec<Node>,
    news: &Vec<Node>,
    parent: u64,
    dom: &mut Dom,
    parents: &HashMap<u64, u64>,
) -> (r: bool)
    requires
        old(dom).next + trees_size(news@) <= u64::MAX,
    ensures
        dom_state(*final(dom), r) == zip_spec(
            olds@,
            news@,
            parent as nat,
            dom_state(*old(dom), true),
            parents@,
            if olds@.len() >= news@.len() { olds@.len() } else { news@.len() },
        ),
    decreases trees_size(news@), 1nat,
{
    let ghost s0 = dom_state(*dom, true);
    let ghost len: nat = if olds@.len() >= news@.len() { olds@.len() } else { news@.len() };
    let positions = zip_longest_positions(olds.len(), news.len());
    let mut k: usize = 0;
    while k < positions.len()
        invariant
            k <= positions@.len(),
            positions@.len() == len,
            len == if olds@.len() >= news@.len() { olds@.len() } else { news@.len() },
            forall|q: int|
                0 <= q < positions@.len() ==> #[trigger] positions@[q] == (
                    if q < olds@.len() { Some(q as usize) } else { None::<usize> },
                    if q < news@.len() { Some(q as usize) } else { None::<usize> },
                ),
            s0 == dom_state(*old(dom), true),
            s0.next + trees_size(news@) <= u64::MAX,
            dom_state(*dom, true) == zip_spec(olds@, news@, parent as nat, s0, parents@, k as nat),
        decreases len - k,
    {
        proof {
            lemma_zip_next(olds@, news@, parent as nat, s0, parents@, k as nat);
            if k < news@.len() {
                lemma_trees_size_take(news@, k as int);
            } else {
                assert(news@.take(news@.len() as int) =~= news@);
            }
        }
        let pos = positions[k];
        match pos {
            (Some(i), Some(j)) => {
                let ok = compare(&olds[i], &news[j], dom, parents);
                if !ok {
                    proof {
                        lemma_zip_stuck(olds@, news@, parent as nat, s0, parents@, (k + 1) as nat, len);
                    }
                    return false;
                }
            },
            (Some(i), None) => {
                let ghost before = *dom;
                match dom.caches.remove(node_id(&olds[i])) {
                    Some(h) => {
                        dom.emit(Op::RemoveChild { parent, child: h });
                    },
                    None => {
                        assert(dom.caches@ =~= before.caches@);
                        proof {
                            lemma_zip_stuck(olds@, news@, parent as nat, s0, parents@, (k + 1) as nat, len);
                        }
                        return false;
                    },
                }
            },
            (None, Some(j)) => {
                let c = render(&news[j], dom);
                dom.emit(Op::AppendChild { parent, child: c });
            },
            (None, None) => {},
        }
        k = k + 1;
    }
    true
}


/// The number of nodes in the tree `n`, where it fits in a `u64`.
pub fn tree_count(n: &Node) -> (r: Option<u64>)
    ensures
        r matches Some(c) ==> c == tree_size(*n),
        r is None ==> tree_size(*n) > u64::MAX,
    decreases tree_size(*n), 0nat,
{
    match n {
        Node::Text(_) => Some(1),
        Node::Element(e) => match trees_count(&e.children) {
            Some(c) => if c < u64::MAX {
                Some(c + 1)
            } else {
                None
            },
            None => None,
        },
    }
}

/// The number of nodes in the trees `cs`, where it fits in a `u64`.
pub fn trees_count(cs: &Vec<Node>) -> (r: Option<u64>)
    ensures
        r matches Some(c) ==> c == trees_size(cs@),
        r is None ==> trees_size(cs@) > u64::MAX,
    decreases trees_size(cs@), 1nat,
{
    let mut total: u64 = 0;
    let mut k: usize = 0;
    assert(cs@.take(0) =~= Seq::<Node>::empty());
    while k < cs.len()
        invariant
            k <= cs@.len(),
            total == trees_size(cs@.take(k as int)),
        decreases cs@.len() - k,
    {
        proof {
            lemma_trees_size_take(cs@, k as int);
        }
        match tree_count(&cs[k]) {
            Some(c) => {
                if total > u64::MAX - c {
                    return None;
                }
                total = total + c;
            },
            None => {
                return None;
            },
        }
        k = k + 1;
    }
    assert(cs@.take(k as int) =~= cs@);
    Some(total)
}

/// A mounted application: the view on display and the document it was
/// rendered into.
pub struct App {
    pub view: Node,
    pub dom: Dom,
}

/// The text that a freshly mounted application shows.
pub open spec fn mount_text() -> Seq<char> {
    "Now rendering..."@
}

/// Mount an application on the DOM node `mountpoint`: a text node reading
/// "Now rendering..." is rendered as the first view and appended to the
/// mountpoint. DOM handles from `mountpoint + 1` on are taken for the nodes
/// that the application renders. Returns the application and the operations
/// to perform.
pub fn mount(mountpoint: u64, ids: &mut NodeIds) -> (r: (App, Vec<Op>))
    requires
        mountpoint < u64::MAX - 1,
        old(ids).spec_next() < u64::MAX,
    ensures
        final(ids).spec_next() == old(ids).spec_next() + 1,
        r.0.view matches Node::Text(t) && t.id == old(ids).spec_next() && t.value@ == mount_text(),
        ops_view(r.1@) == seq![
            OpView::CreateTextNode { node: (mountpoint + 1) as nat, data: mount_text() },
            OpView::AppendChild { parent: mountpoint as nat, child: (mountpoint + 1) as nat },
        ],
        r.0.dom.ops@.len() == 0,
        r.0.dom.caches@ == Map::<u64, u64>::empty().insert(old(ids).spec_next(), (mountpoint + 1) as u64),
        r.0.dom.next == mountpoint + 2,
{
    proof {
        reveal_strlit("Now rendering...");
    }
    let view = Node::Text(text("Now rendering...".to_owned(), ids));
    let mut dom = Dom::new(mountpoint + 1);
    let node = render(&view, &mut dom);
    dom.emit(Op::AppendChild { parent: mountpoint, child: node });
    let mut ops = Vec::new();
    std::mem::swap(&mut ops, &mut dom.ops);
    assert(ops_view(ops@) =~= seq![
        OpView::CreateTextNode { node: (mountpoint + 1) as nat, data: mount_text() },
        OpView::AppendChild { parent: mountpoint as nat, child: (mountpoint + 1) as nat },
    ]);
    (App { view, dom }, ops)
}

/// Mount an application with the first view `initial_view` on the DOM node
/// `mountpoint`: the view is rendered, handing out DOM handles from
/// `mountpoint + 1` on, and appended to the mountpoint. Returns the
/// application and the operations to perform.
pub fn scene(mountpoint: u64, initial_view: Node) -> (r: (App, Vec<Op>))
    requires
        mountpoint + 1 + tree_size(initial_view) <= u64::MAX,
    ensures
        ({
            let rr = render_spec(
                initial_view,
                MState { ops: Seq::empty(), cache: Map::empty(), next: (mountpoint + 1) as nat, ok: true },
            );
            &&& ops_view(r.1@) == rr.0.ops.push(OpView::AppendChild { parent: mountpoint as nat, child: rr.1 })
            &&& r.0.view == initial_view
            &&& r.0.dom.caches@ == rr.0.cache
            &&& r.0.dom.next == rr.0.next
            &&& r.0.dom.ops@.len() == 0
        }),
{
    let mut dom = Dom::new(mountpoint + 1);
    assert(ops_view(dom.ops@) =~= Seq::<OpView>::empty());
    let node = render(&initial_view, &mut dom);
    dom.emit(Op::AppendChild { parent: mountpoint, child: node });
    let mut ops = Vec::new();
    std::mem::swap(&mut ops, &mut dom.ops);
    (App { view: initial_view, dom }, ops)
}

impl App {
    /// Bring the document from the view on display to `view`; `parents`
    /// gives the parent of each DOM node that has one, and every node of the
    /// old view that the comparison looks for must have its DOM node in the
    /// cache (`render_succeeds` tells). Returns the operations to perform and
    /// the view that was on display; `view` becomes the view on display.
    pub fn render(&mut self, view: Node, parents: &HashMap<u64, u64>) -> (r: (Vec<Op>, Node))
        requires
            old(self).dom.next + tree_size(view) <= u64::MAX,
            diff_spec(
                old(self).view,
                view,
                MState { ops: Seq::empty(), cache: old(self).dom.caches@, next: old(self).dom.next as nat, ok: true },
                parents@,
            ).ok,
        ensures
            ({
                let s = diff_spec(
                    old(self).view,
                    view,
                    MState {
                        ops: Seq::empty(),
                        cache: old(self).dom.caches@,
                        next: old(self).dom.next as nat,
                        ok: true,
                    },
                    parents@,
                );
                &&& ops_view(r.0@) == s.ops
                &&& r.1 == old(self).view
                &&& final(self).dom.caches@ == s.cache
                &&& final(self).dom.next == s.next
                &&& final(self).dom.ops@.len() == 0
                &&& final(self).view == view
            }),
    {
        self.dom.ops = Vec::new();
        assert(ops_view(self.dom.ops@) =~= Seq::<OpView>::empty());
        diff(&self.view, &view, &mut self.dom, parents);
        let mut ops = Vec::new();
        std::mem::swap(&mut ops, &mut self.dom.ops);
        let mut previous = view;
        std::mem::swap(&mut previous, &mut self.view);
        (ops, previous)
    }

    /// Whether `render` of `view` finds in the cache every node of the view
    /// on display that it looks for.
    pub fn render_succeeds(&self, view: &Node, parents: &HashMap<u64, u64>) -> (r: bool)
        requires
            self.dom.next + tree_size(*view) <= u64::MAX,
        ensures
            r == diff_spec(
                self.view,
                *view,
                MState { ops: Seq::empty(), cache: self.dom.caches@, next: self.dom.next as nat, ok: true },
                parents@,
            ).ok,
    {
        proof {
            lemma_diff_ops_free(
                self.view,
                *view,
                MState { ops: Seq::empty(), cache: self.dom.caches@, next: self.dom.next as nat, ok: true },
                dom_state(self.dom, true),
                parents@,
            );
        }
        diff_succeeds(&self.view, view, &self.dom, parents)
    }
}


// ==== the cache holds every node ====

/// The identities of the nodes of a tree.
pub open spec fn tree_ids(n: Node) -> Set<u64>
    decreases n,
{
    match n {
        Node::Text(t) => Set::empty().insert(t.id),
        Node::Element(e) => trees_ids(e.children@).insert(e.id),
    }
}

/// The identities of the nodes of a sequence of trees.
pub open spec fn trees_ids(cs: Seq<Node>) -> Set<u64>
    decreases cs,
{
    if cs.len() == 0 {
        Set::empty()
    } else {
        trees_ids(cs.drop_last()).union(tree_ids(cs.last()))
    }
}

/// No two nodes of the tree share an identity.
pub open spec fn ids_distinct(n: Node) -> bool
    decreases n,
{
    match n {
        Node::Text(_) => true,
        Node::Element(e) => !trees_ids(e.children@).contains(e.id) && trees_distinct(e.children@),
    }
}

/// No two nodes of the trees share an identity.
pub open spec fn trees_distinct(cs: Seq<Node>) -> bool
    decreases cs,
{
    if cs.len() == 0 {
        true
    } else {
        &&& trees_distinct(cs.drop_last())
        &&& ids_distinct(cs.last())
        &&& trees_ids(cs.drop_last()).disjoint(tree_ids(cs.last()))
    }
}

pub proof fn lemma_trees_ids_take(cs: Seq<Node>, i: int)
    requires
        0 <= i < cs.len(),
    ensures
        trees_ids(cs.take(i + 1)) == trees_ids(cs.take(i)).union(tree_ids(cs[i])),
        forall|x: u64| #[trigger] tree_ids(cs[i]).contains(x) ==> trees_ids(cs).contains(x),
        forall|x: u64| #[trigger] trees_ids(cs.take(i)).contains(x) ==> trees_ids(cs).contains(x),
{
    assert(cs.take(i + 1).drop_last() =~= cs.take(i));
    assert(cs.take(i + 1).last() == cs[i]);
    lemma_trees_ids_prefix(cs, i + 1);
    assert forall|x: u64| #[trigger] tree_ids(cs[i]).contains(x) implies trees_ids(cs).contains(x) by {
        assert(trees_ids(cs.take(i + 1)).contains(x));
    }
    assert forall|x: u64| #[trigger] trees_ids(cs.take(i)).contains(x) implies trees_ids(cs).contains(x) by {
        assert(trees_ids(cs.take(i + 1)).contains(x));
    }
}

pub proof fn lemma_trees_ids_prefix(cs: Seq<Node>, i: int)
    requires
        0 <= i <= cs.len(),
    ensures
        forall|x: u64| #[trigger] trees_ids(cs.take(i)).contains(x) ==> trees_ids(cs).contains(x),
    decreases cs.len(),
{
    if i == cs.len() {
        assert(cs.take(i) =~= cs);
    } else {
        assert(cs.drop_last().take(i) =~= cs.take(i));
        lemma_trees_ids_prefix(cs.drop_last(), i);
    }
}

pub proof fn lemma_trees_distinct_elem(cs: Seq<Node>, i: int)
    requires
        0 <= i < cs.len(),
        trees_distinct(cs),
    ensures
        ids_distinct(cs[i]),
        trees_ids(cs.take(i)).disjoint(tree_ids(cs[i])),
    decreases cs.len(),
{
    if i == cs.len() - 1 {
        assert(cs.take(i) =~= cs.drop_last());
    } else {
        assert(cs.drop_last().take(i) =~= cs.take(i));
        assert(cs.drop_last()[i] == cs[i]);
        lemma_trees_distinct_elem(cs.drop_last(), i);
    }
}

pub proof fn lemma_own_id(n: Node)
    ensures
        tree_ids(n).contains(spec_node_id(n)),
{
}

/// Rendering a tree caches the DOM node of each of its nodes, and leaves the
/// other entries of the cache as they were.
pub proof fn law_render_caches_every_node(n: Node, s: MState)
    ensures
        forall|x: u64|
            #[trigger] render_spec(n, s).0.cache.contains_key(x) <==> s.cache.contains_key(x) || tree_ids(n).contains(x),
        forall|x: u64|
            s.cache.contains_key(x) && !tree_ids(n).contains(x) ==> #[trigger] render_spec(n, s).0.cache[x] == s.cache[x],
    decreases n,
{
    match n {
        Node::Text(t) => {
            assert(render_spec(n, s).0.cache == s.cache.insert(t.id, s.next as u64));
            assert(tree_ids(n) == Set::<u64>::empty().insert(t.id));
        },
        Node::Element(e) => {
            let s1 = MState {
                ops: s.ops.push(OpView::CreateElement { node: s.next, tag_name: e.tag_name@ })
                    + set_attr_ops(s.next, attrs_view(e.attrs@)),
                cache: s.cache,
                next: s.next + 1,
                ok: s.ok,
            };
            lemma_render_children_cache(e.children@, s.next, s1);
            let s2 = render_children_spec(e.children@, s.next, s1);
            assert(render_spec(n, s).0.cache == s2.cache.insert(e.id, s.next as u64));
            assert(tree_ids(n) == trees_ids(e.children@).insert(e.id));
        },
    }
}

pub proof fn lemma_render_children_cache(cs: Seq<Node>, parent: nat, s: MState)
    ensures
        forall|x: u64|
            #[trigger] render_children_spec(cs, parent, s).cache.contains_key(x) <==> s.cache.contains_key(x)
                || trees_ids(cs).contains(x),
        forall|x: u64|
            s.cache.contains_key(x) && !trees_ids(cs).contains(x) ==> #[trigger] render_children_spec(
                cs,
                parent,
                s,
            ).cache[x] == s.cache[x],
    decreases cs,
{
    if cs.len() > 0 {
        lemma_render_children_cache(cs.drop_last(), parent, s);
        let s1 = render_children_spec(cs.drop_last(), parent, s);
        law_render_caches_every_node(cs.last(), s1);
        assert(render_children_spec(cs, parent, s).cache == render_spec(cs.last(), s1).0.cache);
        assert(trees_ids(cs) == trees_ids(cs.drop_last()).union(tree_ids(cs.last())));
    }
}


/// What comparing needs of the cache: the identities of the old trees are
/// distinct and cached, each with a DOM node that has a parent, and none is
/// an identity of the new trees.
pub open spec fn diff_ready(old_ids: Set<u64>, new_ids: Set<u64>, s: MState, parents: Map<u64, u64>) -> bool {
    &&& s.ok
    &&& old_ids.disjoint(new_ids)
    &&& forall|x: u64| #[trigger] old_ids.contains(x) ==> s.cache.contains_key(x) && parents.contains_key(s.cache[x])
}

/// Comparing never misses the cache: where the identities of the old tree
/// are distinct and cached, each DOM node of the old tree has a parent, and
/// the identities of the new tree are fresh, the comparison finds every node
/// it looks for. Afterwards every node of the new tree has its DOM node in the
/// cache, the entries of nodes of neither tree are as they were, no other
/// entry is added, and the old root's entry is gone.
pub proof fn law_diff_finds_every_node(old: Node, new: Node, s: MState, parents: Map<u64, u64>)
    requires
        ids_distinct(old),
        diff_ready(tree_ids(old), tree_ids(new), s, parents),
    ensures
        diff_spec(old, new, s, parents).ok,
        forall|x: u64| #[trigger] tree_ids(new).contains(x) ==> diff_spec(old, new, s, parents).cache.contains_key(x),
        forall|x: u64|
            s.cache.contains_key(x) && !tree_ids(old).contains(x) && !tree_ids(new).contains(x) ==> {
                &&& #[trigger] diff_spec(old, new, s, parents).cache.contains_key(x)
                &&& diff_spec(old, new, s, parents).cache[x] == s.cache[x]
            },
        forall|x: u64|
            #[trigger] diff_spec(old, new, s, parents).cache.contains_key(x) ==> (s.cache.contains_key(x) && x
                != spec_node_id(old)) || tree_ids(new).contains(x),
        !diff_spec(old, new, s, parents).cache.contains_key(spec_node_id(old)),
    decreases new, 0nat,
{
    let oid = spec_node_id(old);
    let nid = spec_node_id(new);
    lemma_own_id(old);
    lemma_own_id(new);
    let node = s.cache[oid];
    let s1 = MState { cache: s.cache.remove(oid).insert(nid, node), ..s };
    let r = diff_spec(old, new, s, parents);
    match new {
        Node::Element(n) => match old {
            Node::Element(o) => if o.tag_name@ == n.tag_name@ {
                let s2 = MState {
                    ops: s1.ops + attr_diff_ops(node as nat, attrs_view(o.attrs@), attrs_view(n.attrs@)),
                    ..s1
                };
                let len = if o.children@.len() >= n.children@.len() {
                    o.children@.len()
                } else {
                    n.children@.len()
                };
                assert(tree_ids(old) == trees_ids(o.children@).insert(o.id));
                assert(tree_ids(new) == trees_ids(n.children@).insert(n.id));
                assert(s2.cache == s.cache.remove(oid).insert(nid, node));
                assert forall|x: u64| #[trigger] trees_ids(o.children@).contains(x) implies s2.cache.contains_key(x)
                    && s2.cache[x] == s.cache[x] && parents.contains_key(s2.cache[x])
                    && !trees_ids(n.children@).contains(x) by {
                    assert(tree_ids(old).contains(x));
                    assert(!tree_ids(new).contains(x));
                    assert(x != oid);
                    assert(x != nid);
                }
                assert(diff_ready(trees_ids(o.children@), trees_ids(n.children@), s2, parents));
                lemma_zip_finds_every_node(o.children@, n.children@, node as nat, s2, parents, len);
                assert(o.children@.take(upto(len, o.children@.len())) =~= o.children@);
                assert(n.children@.take(upto(len, n.children@.len())) =~= n.children@);
                assert(r == zip_spec(o.children@, n.children@, node as nat, s2, parents, len));
            } else {
                law_render_caches_every_node(new, s1);
                lemma_render_next(new, s1);
            },
            Node::Text(_) => {
                law_render_caches_every_node(new, s1);
                lemma_render_next(new, s1);
            },
        },
        Node::Text(_) => {
            law_render_caches_every_node(new, s1);
            lemma_render_next(new, s1);
        },
    }
}

/// Comparing a node with itself leaves everything as it was: no operation,
/// the same cache, the same next handle.
pub proof fn law_same_node_left_alone(old: Node, new: Node, s: MState, parents: Map<u64, u64>)
    requires
        spec_node_id(old) == spec_node_id(new),
    ensures
        diff_spec(old, new, s, parents) == s,
{
}

/// `k`, or `len` where `k` is past it.
pub open spec fn upto(k: nat, len: nat) -> int {
    if k <= len {
        k as int
    } else {
        len as int
    }
}

pub proof fn lemma_zip_finds_every_node(
    olds: Seq<Node>,
    news: Seq<Node>,
    parent: nat,
    s: MState,
    parents: Map<u64, u64>,
    k: nat,
)
    requires
        trees_distinct(olds),
        diff_ready(trees_ids(olds), trees_ids(news), s, parents),
    ensures
        zip_spec(olds, news, parent, s, parents, k).ok,
        forall|x: u64|
            #[trigger] trees_ids(news.take(upto(k, news.len()))).contains(x) ==> zip_spec(
                olds,
                news,
                parent,
                s,
                parents,
                k,
            ).cache.contains_key(x),
        forall|x: u64|
            s.cache.contains_key(x) && !trees_ids(olds.take(upto(k, olds.len()))).contains(x) && !trees_ids(
                news.take(upto(k, news.len())),
            ).contains(x) ==> {
                &&& #[trigger] zip_spec(olds, news, parent, s, parents, k).cache.contains_key(x)
                &&& zip_spec(olds, news, parent, s, parents, k).cache[x] == s.cache[x]
            },
        forall|x: u64|
            #[trigger] zip_spec(olds, news, parent, s, parents, k).cache.contains_key(x) ==> s.cache.contains_key(x)
                || trees_ids(news.take(upto(k, news.len()))).contains(x),
    decreases news, k,
{
    if k == 0 {
        assert(olds.take(0) =~= Seq::<Node>::empty());
        assert(news.take(0) =~= Seq::<Node>::empty());
    } else {
        let k1 = (k - 1) as nat;
        lemma_zip_finds_every_node(olds, news, parent, s, parents, k1);
        let s1 = zip_spec(olds, news, parent, s, parents, k1);
        let r = zip_spec(olds, news, parent, s, parents, k);
        let p = k1 as int;
        let on1 = olds.take(upto(k1, olds.len()));
        let nn1 = news.take(upto(k1, news.len()));
        let on = olds.take(upto(k, olds.len()));
        let nn = news.take(upto(k, news.len()));
        lemma_trees_ids_prefix(olds, upto(k1, olds.len()));
        lemma_trees_ids_prefix(news, upto(k1, news.len()));
        lemma_trees_ids_prefix(olds, upto(k, olds.len()));
        lemma_trees_ids_prefix(news, upto(k, news.len()));
        if p < olds.len() {
            lemma_trees_ids_take(olds, p);
            lemma_trees_distinct_elem(olds, p);
        }
        if p < news.len() {
            lemma_trees_ids_take(news, p);
        }
        if p < olds.len() && p < news.len() {
            assert(on1 == olds.take(p) && nn1 == news.take(p) && on == olds.take(p + 1) && nn == news.take(p + 1));
            assert forall|x: u64| #[trigger] tree_ids(olds[p]).contains(x) implies s1.cache.contains_key(x)
                && s1.cache[x] == s.cache[x] && !tree_ids(news[p]).contains(x) by {
                assert(trees_ids(olds).contains(x));
                assert(!trees_ids(news).contains(x));
                assert(!trees_ids(on1).contains(x));
                assert(!trees_ids(nn1).contains(x));
            }
            assert(diff_ready(tree_ids(olds[p]), tree_ids(news[p]), s1, parents));
            law_diff_finds_every_node(olds[p], news[p], s1, parents);
            assert(r == diff_spec(olds[p], news[p], s1, parents));
            assert forall|x: u64| #[trigger] trees_ids(nn).contains(x) implies r.cache.contains_key(x) by {
                if !tree_ids(news[p]).contains(x) {
                    assert(trees_ids(nn1).contains(x));
                    assert(trees_ids(news).contains(x));
                    assert(!tree_ids(olds[p]).contains(x));
                    assert(s1.cache.contains_key(x));
                }
            }
        } else if p < olds.len() {
            assert(on1 == olds.take(p) && on == olds.take(p + 1) && nn1 == nn);
            lemma_own_id(olds[p]);
            let id = spec_node_id(olds[p]);
            assert(!trees_ids(on1).contains(id));
            assert(trees_ids(olds).contains(id));
            assert(!trees_ids(news).contains(id));
            assert(!trees_ids(nn1).contains(id));
            assert(s1.cache.contains_key(id));
            assert(r.cache == s1.cache.remove(id));
            assert forall|x: u64| #[trigger] trees_ids(nn).contains(x) implies r.cache.contains_key(x) by {
                assert(trees_ids(news).contains(x));
                assert(x != id);
                assert(trees_ids(nn1).contains(x));
                assert(s1.cache.contains_key(x));
            }
        } else if p < news.len() {
            assert(nn1 == news.take(p) && nn == news.take(p + 1) && on1 == on);
            law_render_caches_every_node(news[p], s1);
            lemma_render_next(news[p], s1);
        } else {
            assert(on1 == on && nn1 == nn);
        }
        assert forall|x: u64|
            s.cache.contains_key(x) && !trees_ids(on).contains(x) && !trees_ids(nn).contains(
                x,
            ) implies #[trigger] r.cache.contains_key(x) && r.cache[x] == s.cache[x] by {
            assert(!trees_ids(on1).contains(x));
            assert(!trees_ids(nn1).contains(x));
            assert(!trees_ids(olds.take(upto(k1, olds.len()))).contains(x));
            assert(!trees_ids(news.take(upto(k1, news.len()))).contains(x));
            assert(zip_spec(olds, news, parent, s, parents, k1).cache.contains_key(x));
            assert(s1.cache.contains_key(x) && s1.cache[x] == s.cache[x]);
            if p < olds.len() && p < news.len() {
                assert(!tree_ids(olds[p]).contains(x));
                assert(!tree_ids(news[p]).contains(x));
            } else if p < olds.len() {
                assert(!tree_ids(olds[p]).contains(x));
                lemma_own_id(olds[p]);
            } else if p < news.len() {
                assert(!tree_ids(news[p]).contains(x));
            }
        }
    }
}

} // verus!
