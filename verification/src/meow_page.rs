//! A model of the document that the operations of the `meow` engine act on,
//! and what it means for it to show a tree of `meow` nodes. Rendering and
//! comparing are stated over the document that the operations so far have
//! made of a base document.
use crate::meow::{
    attr_diff_ops, attrs_view, diff_spec, remove_missing_ops, render_children_spec, render_spec,
    replace_spec, set_attr_ops, set_changed_ops, spec_node_id, zip_spec, MState, Node, OpView,
    tree_ids, trees_ids, lemma_own_id, lemma_trees_ids_take, lemma_trees_ids_prefix,
    lemma_trees_distinct_elem, lemma_zip_finds_every_node, law_diff_finds_every_node,
    law_render_caches_every_node, diff_ready, ids_distinct, trees_distinct, upto, tree_size,
    trees_size, lemma_diff_next, lemma_zip_next, lemma_trees_size_take, lemma_trees_size_prefix,
    App, mount_text,
};
use crate::ordered::{entry_value, key_index, keys_unique, lemma_key_index};
use vstd::prelude::*;

verus! {

/// What a node of the page is: an element of a tag name, or a text node.
pub enum PageKind {
    Element { tag_name: Seq<char> },
    Text { data: Seq<char> },
}

/// A node of the page.
pub struct PageNode {
    pub kind: PageKind,
    pub attributes: Map<Seq<char>, Seq<char>>,
    pub children: Seq<nat>,
}

/// The handles `s` with the last occurrence of `old` replaced by `new`.
pub open spec fn replace_value(s: Seq<nat>, old: nat, new: nat) -> Seq<nat>
    decreases s.len(),
{
    if s.len() == 0 {
        s
    } else if s.last() == old {
        s.drop_last().push(new)
    } else {
        replace_value(s.drop_last(), old, new).push(s.last())
    }
}

/// The handles `s` without the last occurrence of `x`.
pub open spec fn drop_value(s: Seq<nat>, x: nat) -> Seq<nat>
    decreases s.len(),
{
    if s.len() == 0 {
        s
    } else if s.last() == x {
        s.drop_last()
    } else {
        drop_value(s.drop_last(), x).push(s.last())
    }
}

/// The node that an operation other than a creation acts on.
pub open spec fn op_target(op: OpView) -> nat {
    match op {
        OpView::CreateElement { node, .. } => node,
        OpView::CreateTextNode { node, .. } => node,
        OpView::SetAttribute { node, .. } => node,
        OpView::RemoveAttribute { node, .. } => node,
        OpView::AppendChild { parent, .. } => parent,
        OpView::RemoveChild { parent, .. } => parent,
        OpView::ReplaceChild { parent, .. } => parent,
        OpView::SetData { node, .. } => node,
    }
}

/// What an operation other than a creation does to the node it acts on.
pub open spec fn op_effect(nd: PageNode, op: OpView) -> PageNode {
    match op {
        OpView::SetAttribute { name, value, .. } => PageNode { attributes: nd.attributes.insert(name, value), ..nd },
        OpView::RemoveAttribute { name, .. } => PageNode { attributes: nd.attributes.remove(name), ..nd },
        OpView::AppendChild { child, .. } => PageNode { children: nd.children.push(child), ..nd },
        OpView::RemoveChild { child, .. } => PageNode { children: drop_value(nd.children, child), ..nd },
        OpView::ReplaceChild { new_child, old_child, .. } => PageNode {
            children: replace_value(nd.children, old_child, new_child),
            ..nd
        },
        OpView::SetData { data, .. } => PageNode { kind: PageKind::Text { data }, ..nd },
        _ => nd,
    }
}

/// The page after one operation; an operation on a node that the page lacks
/// does nothing.
pub open spec fn apply_op(page: Map<nat, PageNode>, op: OpView) -> Map<nat, PageNode> {
    match op {
        OpView::CreateElement { node, tag_name } => page.insert(
            node,
            PageNode { kind: PageKind::Element { tag_name }, attributes: Map::empty(), children: Seq::empty() },
        ),
        OpView::CreateTextNode { node, data } => page.insert(
            node,
            PageNode { kind: PageKind::Text { data }, attributes: Map::empty(), children: Seq::empty() },
        ),
        _ => if page.contains_key(op_target(op)) {
            page.insert(op_target(op), op_effect(page[op_target(op)], op))
        } else {
            page
        },
    }
}

/// The page after the operations `ops`, in order.
pub open spec fn apply_ops(page: Map<nat, PageNode>, ops: Seq<OpView>) -> Map<nat, PageNode>
    decreases ops.len(),
{
    if ops.len() == 0 {
        page
    } else {
        apply_op(apply_ops(page, ops.drop_last()), ops.last())
    }
}

proof fn lemma_apply_ops_concat(page: Map<nat, PageNode>, a: Seq<OpView>, b: Seq<OpView>)
    ensures
        apply_ops(page, a + b) == apply_ops(apply_ops(page, a), b),
    decreases b.len(),
{
    if b.len() == 0 {
        assert(a + b =~= a);
    } else {
        assert((a + b).drop_last() =~= a + b.drop_last());
        assert((a + b).last() == b.last());
        lemma_apply_ops_concat(page, a, b.drop_last());
    }
}

// ==== what the page shows ====

/// The value under `x` of the attributes `entries`: that of the last entry
/// of that name.
pub open spec fn attr_map(entries: Seq<(Seq<char>, Seq<char>)>) -> Map<Seq<char>, Seq<char>> {
    Map::new(
        |x: Seq<char>| key_index(entries, x) >= 0,
        |x: Seq<char>| entries[key_index(entries, x)].1,
    )
}

/// The page node `h` shows the tree `n`: its kind and attributes are those
/// of `n`, and its children show the children of `n` in order.
pub open spec fn page_shows(page: Map<nat, PageNode>, h: nat, n: Node) -> bool
    decreases n,
{
    &&& page.contains_key(h)
    &&& match n {
        Node::Text(t) => page[h].kind == PageKind::Text { data: t.value@ },
        Node::Element(e) => {
            &&& page[h].kind == PageKind::Element { tag_name: e.tag_name@ }
            &&& page[h].attributes == attr_map(attrs_view(e.attrs@))
            &&& page_shows_all(page, page[h].children, e.children@)
        },
    }
}

/// The page nodes `hs` show the trees `cs`, one by one.
pub open spec fn page_shows_all(page: Map<nat, PageNode>, hs: Seq<nat>, cs: Seq<Node>) -> bool
    decreases cs,
{
    &&& hs.len() == cs.len()
    &&& cs.len() > 0 ==> page_shows_all(page, hs.drop_last(), cs.drop_last()) && page_shows(page, hs.last(), cs.last())
}

/// The page nodes that `page_shows(page, h, n)` reads.
pub open spec fn page_footprint(page: Map<nat, PageNode>, h: nat, n: Node) -> Set<nat>
    decreases n,
{
    if !page.contains_key(h) {
        Set::empty().insert(h)
    } else {
        match n {
            Node::Text(_) => Set::empty().insert(h),
            Node::Element(e) => page_footprint_all(page, page[h].children, e.children@).insert(h),
        }
    }
}

/// The page nodes that `page_shows_all(page, hs, cs)` reads.
pub open spec fn page_footprint_all(page: Map<nat, PageNode>, hs: Seq<nat>, cs: Seq<Node>) -> Set<nat>
    decreases cs,
{
    if cs.len() == 0 || hs.len() == 0 {
        Set::empty()
    } else {
        page_footprint_all(page, hs.drop_last(), cs.drop_last()).union(page_footprint(page, hs.last(), cs.last()))
    }
}

/// Two pages agree on the nodes `s`.
pub open spec fn pages_agree(a: Map<nat, PageNode>, b: Map<nat, PageNode>, s: Set<nat>) -> bool {
    forall|x: nat|
        #[trigger] s.contains(x) ==> (a.contains_key(x) <==> b.contains_key(x)) && (a.contains_key(x) ==> a[x]
            == b[x])
}

/// The page has no node from the handle `from` on.
pub open spec fn page_fresh(page: Map<nat, PageNode>, from: nat) -> bool {
    forall|h: nat| h >= from ==> !#[trigger] page.contains_key(h)
}

/// The pages agree on every node outside `s` and the handles from `lo` up to
/// `hi`.
pub open spec fn page_unchanged_outside(a: Map<nat, PageNode>, b: Map<nat, PageNode>, s: Set<nat>, lo: nat, hi: nat) -> bool {
    forall|h: nat|
        !s.contains(h) && !(lo <= h < hi) ==> (#[trigger] b.contains_key(h) <==> a.contains_key(h)) && (
        a.contains_key(h) ==> b[h] == a[h])
}

pub proof fn lemma_page_shows_frame(a: Map<nat, PageNode>, b: Map<nat, PageNode>, h: nat, n: Node)
    requires
        pages_agree(a, b, page_footprint(a, h, n)),
    ensures
        page_shows(a, h, n) == page_shows(b, h, n),
        page_footprint(a, h, n) == page_footprint(b, h, n),
    decreases n,
{
    assert(page_footprint(a, h, n).contains(h));
    match n {
        Node::Text(_) => {},
        Node::Element(e) => {
            if a.contains_key(h) {
                let fa = page_footprint_all(a, a[h].children, e.children@);
                assert forall|x: nat| #[trigger] fa.contains(x) implies page_footprint(a, h, n).contains(x) by {}
                lemma_page_shows_all_frame(a, b, a[h].children, e.children@);
            }
        },
    }
}

pub proof fn lemma_page_shows_all_frame(a: Map<nat, PageNode>, b: Map<nat, PageNode>, hs: Seq<nat>, cs: Seq<Node>)
    requires
        pages_agree(a, b, page_footprint_all(a, hs, cs)),
    ensures
        page_shows_all(a, hs, cs) == page_shows_all(b, hs, cs),
        page_footprint_all(a, hs, cs) == page_footprint_all(b, hs, cs),
    decreases cs,
{
    if cs.len() > 0 && hs.len() > 0 {
        let f1 = page_footprint_all(a, hs.drop_last(), cs.drop_last());
        let f2 = page_footprint(a, hs.last(), cs.last());
        assert forall|x: nat| #[trigger] f1.contains(x) implies page_footprint_all(a, hs, cs).contains(x) by {}
        assert forall|x: nat| #[trigger] f2.contains(x) implies page_footprint_all(a, hs, cs).contains(x) by {}
        lemma_page_shows_all_frame(a, b, hs.drop_last(), cs.drop_last());
        lemma_page_shows_frame(a, b, hs.last(), cs.last());
    }
}

// ==== rendering ====

/// Setting the attributes `entries` one by one on a node gives it the value
/// of the last entry of each name.
proof fn lemma_set_attrs(base: Map<nat, PageNode>, h: nat, entries: Seq<(Seq<char>, Seq<char>)>)
    requires
        base.contains_key(h),
        base[h].attributes == Map::<Seq<char>, Seq<char>>::empty(),
    ensures
        apply_ops(base, set_attr_ops(h, entries)) == base.insert(
            h,
            PageNode { attributes: attr_map(entries), ..base[h] },
        ),
    decreases entries.len(),
{
    let ops = set_attr_ops(h, entries);
    if entries.len() == 0 {
        assert(ops =~= Seq::<OpView>::empty());
        assert(attr_map(entries) =~= Map::<Seq<char>, Seq<char>>::empty());
        assert(base.insert(h, PageNode { attributes: attr_map(entries), ..base[h] }) =~= base);
    } else {
        let rest = entries.drop_last();
        lemma_set_attrs(base, h, rest);
        assert(ops.drop_last() =~= set_attr_ops(h, rest));
        let (name, value) = entries.last();
        assert(ops.last() == OpView::SetAttribute { node: h, name, value });
        let m = attr_map(rest).insert(name, value);
        assert(m =~= attr_map(entries)) by {
            assert forall|x: Seq<char>| #[trigger] m.contains_key(x) == attr_map(entries).contains_key(x) && (
            m.contains_key(x) ==> m[x] == attr_map(entries)[x]) by {
                lemma_key_index(entries, x);
                lemma_key_index(rest, x);
                if x != name {
                    assert(key_index(entries, x) == key_index(rest, x));
                    if key_index(rest, x) >= 0 {
                        assert(entries[key_index(rest, x)] == rest[key_index(rest, x)]);
                    }
                }
            }
        }
        assert(apply_ops(base, ops) =~= base.insert(h, PageNode { attributes: attr_map(entries), ..base[h] }));
    }
}

/// Rendering a tree into a page makes a new page node that shows it: where
/// the page made of `base` by the operations so far has no node from the next
/// free handle on, the operations of the rendering add nodes from that
/// handle on, the first of which shows `n`; no node that was there changes.
pub proof fn law_render_page(base: Map<nat, PageNode>, n: Node, s: MState)
    requires
        page_fresh(apply_ops(base, s.ops), s.next),
    ensures
        ({
            let r = render_spec(n, s);
            let before = apply_ops(base, s.ops);
            let after = apply_ops(base, r.0.ops);
            &&& page_shows(after, r.1, n)
            &&& forall|x: nat| #[trigger] page_footprint(after, r.1, n).contains(x) ==> s.next <= x < r.0.next
            &&& page_fresh(after, r.0.next)
            &&& page_unchanged_outside(before, after, Set::empty(), s.next, r.0.next)
            &&& s.next <= r.0.next
        }),
    decreases n,
{
    let r = render_spec(n, s);
    let before = apply_ops(base, s.ops);
    crate::meow::lemma_render_next(n, s);
    match n {
        Node::Text(t) => {
            let op = OpView::CreateTextNode { node: s.next, data: t.value@ };
            assert(r.0.ops == s.ops.push(op));
            assert(r.0.ops.drop_last() == s.ops);
            let after = apply_ops(base, r.0.ops);
            assert(after == apply_op(before, op));
            assert(page_footprint(after, r.1, n) =~= Set::<nat>::empty().insert(s.next));
        },
        Node::Element(e) => {
            let h = s.next;
            let create = OpView::CreateElement { node: h, tag_name: e.tag_name@ };
            let av = attrs_view(e.attrs@);
            let s1 = MState {
                ops: s.ops.push(create) + set_attr_ops(h, av),
                cache: s.cache,
                next: h + 1,
                ok: s.ok,
            };
            lemma_apply_ops_concat(base, s.ops.push(create), set_attr_ops(h, av));
            assert(s.ops.push(create).drop_last() == s.ops);
            let p0 = apply_ops(base, s.ops.push(create));
            assert(p0 == apply_op(before, create));
            lemma_set_attrs(p0, h, av);
            let p1 = apply_ops(base, s1.ops);
            assert(p1 == p0.insert(h, PageNode { attributes: attr_map(av), ..p0[h] }));
            assert(p1[h].children == Seq::<nat>::empty());
            lemma_render_children_page(base, e.children@, h, s1);
            let s2 = render_children_spec(e.children@, h, s1);
            assert(r.0.ops == s2.ops);
            let after = apply_ops(base, s2.ops);
            assert(after[h].children.skip(0) =~= after[h].children);
            assert(page_shows(after, h, n));
            assert forall|x: nat| #[trigger] page_footprint(after, h, n).contains(x) implies s.next <= x < r.0.next by {
                if x != h {
                    assert(page_footprint_all(after, after[h].children, e.children@).contains(x));
                }
            }
        },
    }
}

/// Rendering children under the page node `h` appends a new node for each,
/// showing it.
proof fn lemma_render_children_page(base: Map<nat, PageNode>, cs: Seq<Node>, h: nat, s: MState)
    requires
        apply_ops(base, s.ops).contains_key(h),
        h < s.next,
        page_fresh(apply_ops(base, s.ops), s.next),
    ensures
        ({
            let r = render_children_spec(cs, h, s);
            let before = apply_ops(base, s.ops);
            let after = apply_ops(base, r.ops);
            let k = before[h].children.len();
            &&& after.contains_key(h)
            &&& after[h] == PageNode { children: after[h].children, ..before[h] }
            &&& after[h].children.len() == k + cs.len()
            &&& after[h].children.take(k as int) == before[h].children
            &&& page_shows_all(after, after[h].children.skip(k as int), cs)
            &&& forall|x: nat| #[trigger]
                page_footprint_all(after, after[h].children.skip(k as int), cs).contains(x) ==> s.next <= x < r.next
            &&& page_fresh(after, r.next)
            &&& page_unchanged_outside(before, after, Set::empty().insert(h), s.next, r.next)
            &&& s.next <= r.next
        }),
    decreases cs,
{
    let r = render_children_spec(cs, h, s);
    let before = apply_ops(base, s.ops);
    let k = before[h].children.len();
    crate::meow::lemma_render_children_next(cs, h, s);
    if cs.len() == 0 {
        assert(before[h].children.take(k as int) =~= before[h].children);
        assert(before[h].children.skip(k as int) =~= Seq::<nat>::empty());
    } else {
        lemma_render_children_page(base, cs.drop_last(), h, s);
        let s1 = render_children_spec(cs.drop_last(), h, s);
        let p1 = apply_ops(base, s1.ops);
        law_render_page(base, cs.last(), s1);
        let rr = render_spec(cs.last(), s1);
        let p2 = apply_ops(base, rr.0.ops);
        let op = OpView::AppendChild { parent: h, child: rr.1 };
        assert(r.ops == rr.0.ops.push(op));
        assert(r.ops.drop_last() == rr.0.ops);
        let after = apply_ops(base, r.ops);
        assert(p2.contains_key(h) && p2[h] == p1[h]);
        assert(after == p2.insert(h, op_effect(p2[h], op)));
        let hs1 = p1[h].children.skip(k as int);
        let hs = after[h].children.skip(k as int);
        assert(hs =~= hs1.push(rr.1));
        assert(hs.drop_last() =~= hs1);
        assert(after[h].children.take(k as int) =~= p1[h].children.take(k as int));
        let fp1 = page_footprint_all(p1, hs1, cs.drop_last());
        assert(pages_agree(p1, after, fp1)) by {
            assert forall|x: nat| #[trigger] fp1.contains(x) implies (p1.contains_key(x) <==> after.contains_key(x)) && (
            p1.contains_key(x) ==> p1[x] == after[x]) by {
                assert(x != h);
                assert(p2.contains_key(x) == p1.contains_key(x));
            }
        }
        lemma_page_shows_all_frame(p1, after, hs1, cs.drop_last());
        let fp2 = page_footprint(p2, rr.1, cs.last());
        assert(pages_agree(p2, after, fp2)) by {
            assert forall|x: nat| #[trigger] fp2.contains(x) implies x != h by {}
        }
        lemma_page_shows_frame(p2, after, rr.1, cs.last());
        assert forall|x: nat| #[trigger] page_footprint_all(after, hs, cs).contains(x) implies s.next <= x < r.next by {
            assert(page_footprint_all(after, hs, cs) == page_footprint_all(after, hs1, cs.drop_last()).union(
                page_footprint(after, rr.1, cs.last()),
            ));
        }
        assert(page_unchanged_outside(before, after, Set::empty().insert(h), s.next, r.next)) by {
            assert forall|x: nat| !Set::<nat>::empty().insert(h).contains(x) && !(s.next <= x < r.next) implies (
            #[trigger] after.contains_key(x) <==> before.contains_key(x)) && (before.contains_key(x) ==> after[x]
                == before[x]) by {
                assert(p1.contains_key(x) == before.contains_key(x));
                assert(p2.contains_key(x) == p1.contains_key(x));
            }
        }
    }
}


// ==== comparing attributes ====

/// Setting the changed attributes leaves each attribute that `new` names at
/// its new value, and the others as they were.
proof fn lemma_set_changed_page(base: Map<nat, PageNode>, h: nat, old: Seq<(Seq<char>, Seq<char>)>, new: Seq<(Seq<char>, Seq<char>)>)
    requires
        base.contains_key(h),
        base[h].attributes == attr_map(old),
        keys_unique(new),
    ensures
        ({
            let p = apply_ops(base, set_changed_ops(h, old, new));
            let m = p[h].attributes;
            &&& p == base.insert(h, PageNode { attributes: m, ..base[h] })
            &&& forall|x: Seq<char>| #[trigger] m.contains_key(x) == (key_index(new, x) >= 0 || key_index(old, x) >= 0)
            &&& forall|x: Seq<char>|
                m.contains_key(x) ==> #[trigger] m[x] == if key_index(new, x) >= 0 {
                    new[key_index(new, x)].1
                } else {
                    old[key_index(old, x)].1
                }
        }),
    decreases new.len(),
{
    let ops = set_changed_ops(h, old, new);
    if new.len() == 0 {
        assert(ops =~= Seq::<OpView>::empty());
        assert(base.insert(h, PageNode { attributes: base[h].attributes, ..base[h] }) =~= base);
    } else {
        let rest = new.drop_last();
        let (name, value) = new.last();
        assert(keys_unique(rest));
        lemma_set_changed_page(base, h, old, rest);
        let p0 = apply_ops(base, set_changed_ops(h, old, rest));
        let m0 = p0[h].attributes;
        lemma_key_index(new, name);
        lemma_key_index(rest, name);
        lemma_key_index(old, name);
        assert(key_index(rest, name) < 0) by {
            if key_index(rest, name) >= 0 {
                let j = key_index(rest, name);
                assert(new[j].0 == name);
                assert(new[new.len() - 1].0 == name);
            }
        }
        let i = key_index(old, name);
        if i >= 0 && old[i].1 == value {
            assert(ops == set_changed_ops(h, old, rest));
        } else {
            let op = OpView::SetAttribute { node: h, name, value };
            assert(ops == set_changed_ops(h, old, rest).push(op));
            assert(ops.drop_last() == set_changed_ops(h, old, rest));
        }
        let p = apply_ops(base, ops);
        let m = p[h].attributes;
        assert forall|x: Seq<char>| #[trigger] m.contains_key(x) == (key_index(new, x) >= 0 || key_index(old, x) >= 0) && (
        m.contains_key(x) ==> m[x] == if key_index(new, x) >= 0 {
            new[key_index(new, x)].1
        } else {
            old[key_index(old, x)].1
        }) by {
            lemma_key_index(new, x);
            lemma_key_index(rest, x);
            if x != name {
                assert(key_index(new, x) == key_index(rest, x));
                if key_index(rest, x) >= 0 {
                    assert(new[key_index(rest, x)] == rest[key_index(rest, x)]);
                }
            } else {
                assert(key_index(new, x) == new.len() - 1);
            }
        }
        assert(p =~= base.insert(h, PageNode { attributes: m, ..base[h] }));
    }
}

/// Removing the missing attributes drops each attribute that `old` names and
/// `new` does not.
proof fn lemma_remove_missing_page(base: Map<nat, PageNode>, h: nat, old: Seq<(Seq<char>, Seq<char>)>, new: Seq<(Seq<char>, Seq<char>)>)
    requires
        base.contains_key(h),
    ensures
        ({
            let p = apply_ops(base, remove_missing_ops(h, old, new));
            let m = p[h].attributes;
            &&& p == base.insert(h, PageNode { attributes: m, ..base[h] })
            &&& forall|x: Seq<char>|
                #[trigger] m.contains_key(x) == (base[h].attributes.contains_key(x) && !(key_index(old, x) >= 0
                    && key_index(new, x) < 0))
            &&& forall|x: Seq<char>| m.contains_key(x) ==> #[trigger] m[x] == base[h].attributes[x]
        }),
    decreases old.len(),
{
    let ops = remove_missing_ops(h, old, new);
    if old.len() == 0 {
        assert(ops =~= Seq::<OpView>::empty());
        assert(base.insert(h, PageNode { attributes: base[h].attributes, ..base[h] }) =~= base);
    } else {
        let rest = old.drop_last();
        let name = old.last().0;
        lemma_remove_missing_page(base, h, rest, new);
        if key_index(new, name) < 0 {
            let op = OpView::RemoveAttribute { node: h, name };
            assert(ops == remove_missing_ops(h, rest, new).push(op));
            assert(ops.drop_last() == remove_missing_ops(h, rest, new));
        } else {
            assert(ops == remove_missing_ops(h, rest, new));
        }
        let p = apply_ops(base, ops);
        let m = p[h].attributes;
        assert forall|x: Seq<char>| #[trigger] m.contains_key(x) == (base[h].attributes.contains_key(x) && !(key_index(
            old,
            x,
        ) >= 0 && key_index(new, x) < 0)) by {
            lemma_key_index(old, x);
            lemma_key_index(rest, x);
            if x != name {
                assert(key_index(old, x) == key_index(rest, x));
            }
        }
        assert(p =~= base.insert(h, PageNode { attributes: m, ..base[h] }));
    }
}

/// Comparing the attributes gives the node the new ones.
proof fn lemma_attr_diff_page(base: Map<nat, PageNode>, h: nat, old: Seq<(Seq<char>, Seq<char>)>, new: Seq<(Seq<char>, Seq<char>)>)
    requires
        base.contains_key(h),
        base[h].attributes == attr_map(old),
        keys_unique(new),
    ensures
        apply_ops(base, attr_diff_ops(h, old, new)) == base.insert(h, PageNode { attributes: attr_map(new), ..base[h] }),
{
    let a = set_changed_ops(h, old, new);
    let b = remove_missing_ops(h, old, new);
    lemma_apply_ops_concat(base, a, b);
    lemma_set_changed_page(base, h, old, new);
    let p1 = apply_ops(base, a);
    lemma_remove_missing_page(p1, h, old, new);
    let p2 = apply_ops(p1, b);
    assert(p2[h].attributes =~= attr_map(new)) by {
        assert forall|x: Seq<char>| #[trigger] p2[h].attributes.contains_key(x) == attr_map(new).contains_key(x) && (
        p2[h].attributes.contains_key(x) ==> p2[h].attributes[x] == attr_map(new)[x]) by {
            assert(p1[h].attributes.contains_key(x) == (key_index(new, x) >= 0 || key_index(old, x) >= 0));
        }
    }
    assert(p2 =~= base.insert(h, PageNode { attributes: attr_map(new), ..base[h] }));
}


// ==== the page holding the previous tree ====

/// The page handles of the nodes of a tree, as the cache gives them.
pub open spec fn tree_handles(cache: Map<u64, u64>, n: Node) -> Set<nat>
    decreases n,
{
    match n {
        Node::Text(t) => Set::empty().insert(cache[t.id] as nat),
        Node::Element(e) => trees_handles(cache, e.children@).insert(cache[e.id] as nat),
    }
}

/// The page handles of the nodes of a sequence of trees.
pub open spec fn trees_handles(cache: Map<u64, u64>, cs: Seq<Node>) -> Set<nat>
    decreases cs,
{
    if cs.len() == 0 {
        Set::empty()
    } else {
        trees_handles(cache, cs.drop_last()).union(tree_handles(cache, cs.last()))
    }
}

/// No two nodes of the tree have the same page node.
pub open spec fn handles_distinct(cache: Map<u64, u64>, n: Node) -> bool
    decreases n,
{
    match n {
        Node::Text(_) => true,
        Node::Element(e) => !trees_handles(cache, e.children@).contains(cache[e.id] as nat) && trees_handles_distinct(
            cache,
            e.children@,
        ),
    }
}

/// No two nodes of the trees have the same page node.
pub open spec fn trees_handles_distinct(cache: Map<u64, u64>, cs: Seq<Node>) -> bool
    decreases cs,
{
    if cs.len() == 0 {
        true
    } else {
        &&& trees_handles_distinct(cache, cs.drop_last())
        &&& handles_distinct(cache, cs.last())
        &&& trees_handles(cache, cs.drop_last()).disjoint(tree_handles(cache, cs.last()))
    }
}

/// The page nodes of the trees, in order, as the cache gives them.
pub open spec fn cached(cache: Map<u64, u64>, cs: Seq<Node>) -> Seq<nat> {
    cs.map_values(|c: Node| cache[spec_node_id(c)] as nat)
}

/// The parent of the page node of each tree of `cs` is `h`.
pub open spec fn parented(cache: Map<u64, u64>, parents: Map<u64, u64>, cs: Seq<Node>, h: nat) -> bool {
    forall|i: int|
        0 <= i < cs.len() ==> parents.contains_key(cache[spec_node_id(#[trigger] cs[i])]) && parents[cache[spec_node_id(
            cs[i],
        )]] as nat == h
}

/// The page holds the tree `n` through the cache: each node of `n` has its
/// page node in the cache, of its kind and with its attributes, whose
/// children are the page nodes of its children, each with it as parent.
pub open spec fn page_holds(page: Map<nat, PageNode>, cache: Map<u64, u64>, parents: Map<u64, u64>, n: Node) -> bool
    decreases n,
{
    let h = cache[spec_node_id(n)] as nat;
    &&& cache.contains_key(spec_node_id(n))
    &&& page.contains_key(h)
    &&& match n {
        Node::Text(t) => page[h].kind == PageKind::Text { data: t.value@ },
        Node::Element(e) => {
            &&& page[h].kind == PageKind::Element { tag_name: e.tag_name@ }
            &&& page[h].attributes == attr_map(attrs_view(e.attrs@))
            &&& page[h].children == cached(cache, e.children@)
            &&& parented(cache, parents, e.children@, h)
            &&& page_holds_all(page, cache, parents, e.children@)
        },
    }
}

/// The page holds each of the trees `cs`.
pub open spec fn page_holds_all(page: Map<nat, PageNode>, cache: Map<u64, u64>, parents: Map<u64, u64>, cs: Seq<Node>) -> bool
    decreases cs,
{
    cs.len() > 0 ==> page_holds_all(page, cache, parents, cs.drop_last()) && page_holds(page, cache, parents, cs.last())
}

/// No element of the tree names an attribute twice.
pub open spec fn attrs_unique(n: Node) -> bool
    decreases n,
{
    match n {
        Node::Text(_) => true,
        Node::Element(e) => keys_unique(attrs_view(e.attrs@)) && all_attrs_unique(e.children@),
    }
}

/// No element of the trees names an attribute twice.
pub open spec fn all_attrs_unique(cs: Seq<Node>) -> bool
    decreases cs,
{
    cs.len() > 0 ==> all_attrs_unique(cs.drop_last()) && attrs_unique(cs.last())
}

/// Whether the page holds a tree depends only on its page nodes and on the
/// cache entries of its nodes.
proof fn lemma_page_holds_frame(
    a: Map<nat, PageNode>,
    b: Map<nat, PageNode>,
    ca: Map<u64, u64>,
    cb: Map<u64, u64>,
    parents: Map<u64, u64>,
    n: Node,
)
    requires
        forall|x: u64| #[trigger] tree_ids(n).contains(x) ==> (ca.contains_key(x) <==> cb.contains_key(x)) && ca[x] == cb[x],
        pages_agree(a, b, tree_handles(ca, n)),
    ensures
        page_holds(a, ca, parents, n) == page_holds(b, cb, parents, n),
        tree_handles(ca, n) == tree_handles(cb, n),
        handles_distinct(ca, n) == handles_distinct(cb, n),
    decreases n,
{
    lemma_own_id(n);
    lemma_own_handle(ca, n);
    assert(tree_handles(ca, n).contains(ca[spec_node_id(n)] as nat));
    match n {
        Node::Text(_) => {},
        Node::Element(e) => {
            assert forall|x: u64| #[trigger] trees_ids(e.children@).contains(x) implies (ca.contains_key(x)
                <==> cb.contains_key(x)) && ca[x] == cb[x] by {
                assert(tree_ids(n).contains(x));
            }
            assert forall|x: nat| #[trigger] trees_handles(ca, e.children@).contains(x) implies tree_handles(ca, n).contains(x) by {}
            lemma_page_holds_all_frame(a, b, ca, cb, parents, e.children@);
            assert(cached(ca, e.children@) =~= cached(cb, e.children@)) by {
                assert forall|i: int| 0 <= i < e.children@.len() implies ca[spec_node_id(e.children@[i])]
                    == cb[spec_node_id(e.children@[i])] by {
                    lemma_trees_ids_take(e.children@, i);
                    lemma_own_id(e.children@[i]);
                }
            }
            assert(parented(ca, parents, e.children@, ca[e.id] as nat) == parented(cb, parents, e.children@, cb[e.id] as nat)) by {
                assert forall|i: int| 0 <= i < e.children@.len() implies ca[spec_node_id(#[trigger] e.children@[i])]
                    == cb[spec_node_id(e.children@[i])] by {
                    lemma_trees_ids_take(e.children@, i);
                    lemma_own_id(e.children@[i]);
                }
            }
        },
    }
}

proof fn lemma_page_holds_all_frame(
    a: Map<nat, PageNode>,
    b: Map<nat, PageNode>,
    ca: Map<u64, u64>,
    cb: Map<u64, u64>,
    parents: Map<u64, u64>,
    cs: Seq<Node>,
)
    requires
        forall|x: u64| #[trigger] trees_ids(cs).contains(x) ==> (ca.contains_key(x) <==> cb.contains_key(x)) && ca[x]
            == cb[x],
        pages_agree(a, b, trees_handles(ca, cs)),
    ensures
        page_holds_all(a, ca, parents, cs) == page_holds_all(b, cb, parents, cs),
        trees_handles(ca, cs) == trees_handles(cb, cs),
        trees_handles_distinct(ca, cs) == trees_handles_distinct(cb, cs),
    decreases cs,
{
    if cs.len() > 0 {
        lemma_trees_ids_take(cs, cs.len() - 1);
        assert(cs.take(cs.len() - 1) =~= cs.drop_last());
        assert(cs[cs.len() - 1] == cs.last());
        assert forall|x: nat| #[trigger] trees_handles(ca, cs.drop_last()).contains(x) implies trees_handles(ca, cs).contains(x) by {}
        assert forall|x: nat| #[trigger] tree_handles(ca, cs.last()).contains(x) implies trees_handles(ca, cs).contains(x) by {}
        lemma_page_holds_all_frame(a, b, ca, cb, parents, cs.drop_last());
        lemma_page_holds_frame(a, b, ca, cb, parents, cs.last());
    }
}

/// The page node of each element of the tree has as children the page nodes
/// that the cache gives the element's children.
pub open spec fn page_cached(page: Map<nat, PageNode>, cache: Map<u64, u64>, n: Node) -> bool
    decreases n,
{
    match n {
        Node::Text(_) => true,
        Node::Element(e) => {
            &&& page.contains_key(cache[e.id] as nat)
            &&& page[cache[e.id] as nat].children == cached(cache, e.children@)
            &&& page_cached_all(page, cache, e.children@)
        },
    }
}

/// `page_cached` of each of the trees `cs`.
pub open spec fn page_cached_all(page: Map<nat, PageNode>, cache: Map<u64, u64>, cs: Seq<Node>) -> bool
    decreases cs,
{
    cs.len() > 0 ==> page_cached_all(page, cache, cs.drop_last()) && page_cached(page, cache, cs.last())
}

/// Whether the page nodes of a tree are arranged as the cache says depends
/// only on those page nodes and on the cache entries of its nodes.
proof fn lemma_page_cached_frame(
    a: Map<nat, PageNode>,
    b: Map<nat, PageNode>,
    ca: Map<u64, u64>,
    cb: Map<u64, u64>,
    n: Node,
)
    requires
        forall|x: u64| #[trigger] tree_ids(n).contains(x) ==> (ca.contains_key(x) <==> cb.contains_key(x)) && ca[x] == cb[x],
        pages_agree(a, b, tree_handles(ca, n)),
    ensures
        page_cached(a, ca, n) == page_cached(b, cb, n),
        tree_handles(ca, n) == tree_handles(cb, n),
        handles_distinct(ca, n) == handles_distinct(cb, n),
    decreases n,
{
    lemma_own_id(n);
    lemma_own_handle(ca, n);
    match n {
        Node::Text(_) => {},
        Node::Element(e) => {
            assert forall|x: u64| #[trigger] trees_ids(e.children@).contains(x) implies (ca.contains_key(x)
                <==> cb.contains_key(x)) && ca[x] == cb[x] by {
                assert(tree_ids(n).contains(x));
            }
            assert forall|x: nat| #[trigger] trees_handles(ca, e.children@).contains(x) implies tree_handles(ca, n).contains(x) by {}
            lemma_page_cached_all_frame(a, b, ca, cb, e.children@);
            assert(cached(ca, e.children@) =~= cached(cb, e.children@)) by {
                assert forall|i: int| 0 <= i < e.children@.len() implies ca[spec_node_id(e.children@[i])]
                    == cb[spec_node_id(e.children@[i])] by {
                    lemma_trees_ids_take(e.children@, i);
                    lemma_own_id(e.children@[i]);
                }
            }
        },
    }
}

proof fn lemma_page_cached_all_frame(
    a: Map<nat, PageNode>,
    b: Map<nat, PageNode>,
    ca: Map<u64, u64>,
    cb: Map<u64, u64>,
    cs: Seq<Node>,
)
    requires
        forall|x: u64| #[trigger] trees_ids(cs).contains(x) ==> (ca.contains_key(x) <==> cb.contains_key(x)) && ca[x]
            == cb[x],
        pages_agree(a, b, trees_handles(ca, cs)),
    ensures
        page_cached_all(a, ca, cs) == page_cached_all(b, cb, cs),
        trees_handles(ca, cs) == trees_handles(cb, cs),
        trees_handles_distinct(ca, cs) == trees_handles_distinct(cb, cs),
    decreases cs,
{
    if cs.len() > 0 {
        lemma_trees_ids_take(cs, cs.len() - 1);
        assert(cs.take(cs.len() - 1) =~= cs.drop_last());
        assert(cs[cs.len() - 1] == cs.last());
        assert forall|x: nat| #[trigger] trees_handles(ca, cs.drop_last()).contains(x) implies trees_handles(ca, cs).contains(x) by {}
        assert forall|x: nat| #[trigger] tree_handles(ca, cs.last()).contains(x) implies trees_handles(ca, cs).contains(x) by {}
        lemma_page_cached_all_frame(a, b, ca, cb, cs.drop_last());
        lemma_page_cached_frame(a, b, ca, cb, cs.last());
    }
}

proof fn lemma_trees_handles_take(cache: Map<u64, u64>, cs: Seq<Node>, i: int)
    requires
        0 <= i <= cs.len(),
    ensures
        forall|x: nat| #[trigger] trees_handles(cache, cs.take(i)).contains(x) ==> trees_handles(cache, cs).contains(x),
        i < cs.len() ==> trees_handles(cache, cs.take(i + 1)) == trees_handles(cache, cs.take(i)).union(
            tree_handles(cache, cs[i]),
        ),
        i < cs.len() ==> forall|x: nat| #[trigger] tree_handles(cache, cs[i]).contains(x) ==> trees_handles(cache, cs).contains(x),
    decreases cs.len() - i,
{
    if i < cs.len() {
        assert(cs.take(i + 1).drop_last() =~= cs.take(i));
        assert(cs.take(i + 1).last() == cs[i]);
        lemma_trees_handles_take(cache, cs, i + 1);
        assert forall|x: nat| #[trigger] trees_handles(cache, cs.take(i)).contains(x) implies trees_handles(cache, cs).contains(x) by {
            assert(trees_handles(cache, cs.take(i + 1)).contains(x));
        }
        assert forall|x: nat| #[trigger] tree_handles(cache, cs[i]).contains(x) implies trees_handles(cache, cs).contains(x) by {
            assert(trees_handles(cache, cs.take(i + 1)).contains(x));
        }
    } else {
        assert(cs.take(i) =~= cs);
    }
}

proof fn lemma_trees_handles_distinct_elem(cache: Map<u64, u64>, cs: Seq<Node>, i: int)
    requires
        0 <= i < cs.len(),
        trees_handles_distinct(cache, cs),
    ensures
        handles_distinct(cache, cs[i]),
        trees_handles(cache, cs.take(i)).disjoint(tree_handles(cache, cs[i])),
    decreases cs.len(),
{
    if i == cs.len() - 1 {
        assert(cs.take(i) =~= cs.drop_last());
    } else {
        assert(cs.drop_last().take(i) =~= cs.take(i));
        assert(cs.drop_last()[i] == cs[i]);
        lemma_trees_handles_distinct_elem(cache, cs.drop_last(), i);
    }
}

proof fn lemma_page_holds_all_elem(page: Map<nat, PageNode>, cache: Map<u64, u64>, parents: Map<u64, u64>, cs: Seq<Node>, i: int)
    requires
        0 <= i < cs.len(),
        page_holds_all(page, cache, parents, cs),
    ensures
        page_holds(page, cache, parents, cs[i]),
    decreases cs.len(),
{
    if i < cs.len() - 1 {
        assert(cs.drop_last()[i] == cs[i]);
        lemma_page_holds_all_elem(page, cache, parents, cs.drop_last(), i);
    }
}

proof fn lemma_all_attrs_unique_elem(cs: Seq<Node>, i: int)
    requires
        0 <= i < cs.len(),
        all_attrs_unique(cs),
    ensures
        attrs_unique(cs[i]),
    decreases cs.len(),
{
    if i < cs.len() - 1 {
        assert(cs.drop_last()[i] == cs[i]);
        lemma_all_attrs_unique_elem(cs.drop_last(), i);
    }
}

proof fn lemma_own_handle(cache: Map<u64, u64>, n: Node)
    ensures
        tree_handles(cache, n).contains(cache[spec_node_id(n)] as nat),
{
}

proof fn lemma_replace_value_at(s: Seq<nat>, i: int, x: nat)
    requires
        0 <= i < s.len(),
        forall|j: int| 0 <= j < s.len() && j != i ==> s[j] != s[i],
    ensures
        replace_value(s, s[i], x) == s.update(i, x),
    decreases s.len(),
{
    if i == s.len() - 1 {
        assert(s.drop_last().push(x) =~= s.update(i, x));
    } else {
        assert(s.last() != s[i]);
        assert(s.drop_last()[i] == s[i]);
        lemma_replace_value_at(s.drop_last(), i, x);
        assert(s.drop_last().update(i, x).push(s.last()) =~= s.update(i, x));
    }
}

proof fn lemma_drop_value_at(s: Seq<nat>, i: int)
    requires
        0 <= i < s.len(),
        forall|j: int| 0 <= j < s.len() && j != i ==> s[j] != s[i],
    ensures
        drop_value(s, s[i]) == s.remove(i),
    decreases s.len(),
{
    if i == s.len() - 1 {
        assert(s.drop_last() =~= s.remove(i));
    } else {
        assert(s.last() != s[i]);
        assert(s.drop_last()[i] == s[i]);
        lemma_drop_value_at(s.drop_last(), i);
        assert(s.drop_last().remove(i).push(s.last()) =~= s.remove(i));
    }
}

proof fn lemma_replace_value_same(s: Seq<nat>, x: nat)
    ensures
        replace_value(s, x, x) == s,
    decreases s.len(),
{
    if s.len() > 0 {
        if s.last() != x {
            lemma_replace_value_same(s.drop_last(), x);
        }
        assert(s.drop_last().push(s.last()) =~= s);
    }
}


// ==== comparing ====

/// Comparing brings the page up to date: where the page made of the
/// operations so far holds the old tree through the cache (its page nodes
/// distinct, below the next free handle, each with its parent in `parents`,
/// the root's being `p`), the identities of the old tree and of the new one
/// are distinct and no identity is in both, and no element of the new tree
/// names an attribute twice, then after the operations of the comparison
/// the page node that the cache gives for the new tree shows it. That node
/// is the old root's, or a new one that took its place among the children
/// of `p`; only the nodes of the old tree, `p` and new nodes change.
pub proof fn law_diff_page(base: Map<nat, PageNode>, old: Node, new: Node, s: MState, parents: Map<u64, u64>, p: nat)
    requires
        ids_distinct(old),
        ids_distinct(new),
        diff_ready(tree_ids(old), tree_ids(new), s, parents),
        page_holds(apply_ops(base, s.ops), s.cache, parents, old),
        handles_distinct(s.cache, old),
        forall|x: nat| #[trigger] tree_handles(s.cache, old).contains(x) ==> x < s.next,
        page_fresh(apply_ops(base, s.ops), s.next),
        attrs_unique(new),
        parents[s.cache[spec_node_id(old)]] as nat == p,
        !tree_handles(s.cache, old).contains(p),
        p < s.next,
        s.next + tree_size(new) <= u64::MAX,
    ensures
        ({
            let r = diff_spec(old, new, s, parents);
            let before = apply_ops(base, s.ops);
            let after = apply_ops(base, r.ops);
            let h0 = s.cache[spec_node_id(old)] as nat;
            let h1 = r.cache[spec_node_id(new)] as nat;
            &&& r.ok
            &&& s.next <= r.next
            &&& page_shows(after, h1, new)
            &&& forall|x: nat| #[trigger]
                page_footprint(after, h1, new).contains(x) ==> tree_handles(s.cache, old).contains(x) || (s.next <= x
                    < r.next)
            &&& page_fresh(after, r.next)
            &&& page_unchanged_outside(before, after, tree_handles(s.cache, old).insert(p), s.next, r.next)
            &&& after.contains_key(p) == before.contains_key(p)
            &&& before.contains_key(p) ==> after[p] == PageNode {
                children: replace_value(before[p].children, h0, h1),
                ..before[p]
            }
            &&& h1 == h0 || (s.next <= h1 < r.next)
            &&& settled(after, r.cache, new, tree_handles(s.cache, old), s.next, r.next)
        }),
    decreases new, 0nat,
{
    let oid = spec_node_id(old);
    let nid = spec_node_id(new);
    lemma_own_id(old);
    lemma_own_id(new);
    lemma_own_handle(s.cache, old);
    law_diff_finds_every_node(old, new, s, parents);
    lemma_diff_next(old, new, s, parents);
    let before = apply_ops(base, s.ops);
    let node = s.cache[oid];
    let h0 = node as nat;
    assert(oid != nid);
    let s1 = MState { cache: s.cache.remove(oid).insert(nid, node), ..s };
    let r = diff_spec(old, new, s, parents);
    let in_place = match (old, new) {
        (Node::Element(o), Node::Element(n)) => o.tag_name@ == n.tag_name@,
        (Node::Text(_), Node::Text(_)) => true,
        _ => false,
    };
    if !in_place {
        assert(r == replace_spec(new, node, s1, parents));
        assert(parents.contains_key(node));
        let r2 = render_spec(new, s1);
        law_render_page(base, new, s1);
        crate::meow::lemma_render_next(new, s1);
        let rc = OpView::ReplaceChild { parent: p, new_child: r2.1, old_child: h0 };
        assert(r.ops == r2.0.ops.push(rc));
        assert(r.ops.drop_last() == r2.0.ops);
        let mid = apply_ops(base, r2.0.ops);
        let after = apply_ops(base, r.ops);
        assert(after == apply_op(mid, rc));
        assert(r.cache == r2.0.cache);
        assert(r2.0.cache[nid] == r2.1 as u64) by {
            match new {
                Node::Text(_) => {},
                Node::Element(e) => {},
            }
        }
        assert(mid.contains_key(p) == before.contains_key(p));
        if before.contains_key(p) {
            assert(mid[p] == before[p]);
        }
        let fp = page_footprint(mid, r2.1, new);
        assert(pages_agree(mid, after, fp)) by {
            assert forall|x: nat| #[trigger] fp.contains(x) implies x != p by {}
        }
        lemma_page_shows_frame(mid, after, r2.1, new);
        assert(page_unchanged_outside(before, after, tree_handles(s.cache, old).insert(p), s.next, r.next)) by {
            assert forall|x: nat| !tree_handles(s.cache, old).insert(p).contains(x) && !(s.next <= x < r.next) implies (
            #[trigger] after.contains_key(x) <==> before.contains_key(x)) && (before.contains_key(x) ==> after[x]
                == before[x]) by {
                assert(mid.contains_key(x) == before.contains_key(x));
            }
        }
        lemma_render_cached(base, new, s1);
        assert(page_unchanged_outside(mid, after, Set::empty().insert(p), r.next, r.next)) by {
            assert forall|x: nat| !Set::<nat>::empty().insert(p).contains(x) && !(r.next <= x < r.next) implies (
            #[trigger] after.contains_key(x) <==> mid.contains_key(x)) && (mid.contains_key(x) ==> after[x] == mid[x]) by {}
        }
        lemma_replace_settled(mid, after, r2.0.cache, new, tree_handles(s.cache, old), p, s.next, r.next);
    } else {
        match new {
            Node::Text(nt) => {
                if let Node::Text(ot) = old {
                    let after = apply_ops(base, r.ops);
                    if ot.value@ != nt.value@ {
                        let op = OpView::SetData { node: h0, data: nt.value@ };
                        assert(r.ops == s1.ops.push(op));
                        assert(r.ops.drop_last() == s.ops);
                        assert(after == apply_op(before, op));
                    } else {
                        assert(r.ops == s.ops);
                    }
                    assert(r.cache[nid] == node);
                    assert(page_footprint(after, h0, new) =~= Set::<nat>::empty().insert(h0));
                    lemma_replace_value_same(before[p].children, h0);
                    assert(settled(after, r.cache, new, tree_handles(s.cache, old), s.next, r.next)) by {
                        reveal(settled);
                        assert(tree_handles(r.cache, new) =~= Set::<nat>::empty().insert(h0));
                    }
                }
            },
            Node::Element(n) => {
                if let Node::Element(o) = old {
                    let oa = attrs_view(o.attrs@);
                    let na = attrs_view(n.attrs@);
                    let s2 = MState { ops: s1.ops + attr_diff_ops(h0, oa, na), ..s1 };
                    let len = if o.children@.len() >= n.children@.len() {
                        o.children@.len()
                    } else {
                        n.children@.len()
                    };
                    assert(r == zip_spec(o.children@, n.children@, h0, s2, parents, len));
                    lemma_apply_ops_concat(base, s.ops, attr_diff_ops(h0, oa, na));
                    lemma_attr_diff_page(before, h0, oa, na);
                    let p2 = apply_ops(base, s2.ops);
                    assert(p2 == before.insert(h0, PageNode { attributes: attr_map(na), ..before[h0] }));
                    // the children, compared position by position
                    assert(tree_ids(old) == trees_ids(o.children@).insert(o.id));
                    assert(tree_ids(new) == trees_ids(n.children@).insert(n.id));
                    assert(tree_handles(s.cache, old) == trees_handles(s.cache, o.children@).insert(h0));
                    assert forall|x: u64| #[trigger] trees_ids(o.children@).contains(x) implies (s.cache.contains_key(x)
                        <==> s2.cache.contains_key(x)) && s.cache[x] == s2.cache[x] by {
                        assert(tree_ids(old).contains(x));
                        assert(!tree_ids(new).contains(x));
                    }
                    assert(pages_agree(before, p2, trees_handles(s.cache, o.children@))) by {
                        assert forall|x: nat| #[trigger] trees_handles(s.cache, o.children@).contains(x) implies x != h0 by {}
                    }
                    lemma_page_holds_all_frame(before, p2, s.cache, s2.cache, parents, o.children@);
                    assert(cached(s.cache, o.children@) =~= cached(s2.cache, o.children@)) by {
                        assert forall|i: int| 0 <= i < o.children@.len() implies s.cache[spec_node_id(o.children@[i])]
                            == s2.cache[spec_node_id(o.children@[i])] by {
                            lemma_trees_ids_take(o.children@, i);
                            lemma_own_id(o.children@[i]);
                        }
                    }
                    assert(parented(s2.cache, parents, o.children@, h0)) by {
                        assert forall|i: int| 0 <= i < o.children@.len() implies s.cache[spec_node_id(
                            #[trigger] o.children@[i],
                        )] == s2.cache[spec_node_id(o.children@[i])] by {
                            lemma_trees_ids_take(o.children@, i);
                            lemma_own_id(o.children@[i]);
                        }
                    }
                    assert forall|x: u64| #[trigger] trees_ids(o.children@).contains(x) implies s2.cache.contains_key(x)
                        && parents.contains_key(s2.cache[x]) && !trees_ids(n.children@).contains(x) by {
                        assert(tree_ids(old).contains(x));
                        assert(!tree_ids(new).contains(x));
                    }
                    assert(diff_ready(trees_ids(o.children@), trees_ids(n.children@), s2, parents));
                    assert forall|x: nat| #[trigger] trees_handles(s2.cache, o.children@).contains(x) implies x < s2.next by {
                        assert(trees_handles(s.cache, o.children@).contains(x));
                        assert(tree_handles(s.cache, old).contains(x));
                    }
                    assert(s2.next + trees_size(n.children@) <= u64::MAX);
                    lemma_zip_page(base, o.children@, n.children@, h0, s2, parents, len);
                    lemma_zip_finds_every_node(o.children@, n.children@, h0 as nat, s2, parents, len);
                    assert(o.children@.take(upto(len, o.children@.len())) =~= o.children@);
                    assert(n.children@.take(upto(len, n.children@.len())) =~= n.children@);
                    let after = apply_ops(base, r.ops);
                    assert(cached(s2.cache, o.children@).skip(upto(len, o.children@.len())) =~= Seq::<nat>::empty());
                    let nh = cached(r.cache, n.children@);
                    assert(after[h0] == PageNode { children: nh, ..p2[h0] }) by {
                        assert(nh + Seq::<nat>::empty() =~= nh);
                    }
                    assert(!trees_ids(n.children@).contains(nid));
                    assert(!trees_ids(o.children@).contains(nid));
                    assert(r.cache.contains_key(nid) && r.cache[nid] == s2.cache[nid]);
                    assert(page_shows(after, h0, new));
                    assert forall|x: nat| #[trigger] page_footprint(after, h0, new).contains(x) implies tree_handles(
                        s.cache,
                        old,
                    ).contains(x) || (s.next <= x < r.next) by {
                        if x != h0 {
                            assert(page_footprint_all(after, nh, n.children@).contains(x));
                        }
                    }
                    lemma_replace_value_same(before[p].children, h0);
                    assert(page_unchanged_outside(before, after, tree_handles(s.cache, old).insert(p), s.next, r.next)) by {
                        assert forall|x: nat| !tree_handles(s.cache, old).insert(p).contains(x) && !(s.next <= x < r.next) implies (
                        #[trigger] after.contains_key(x) <==> before.contains_key(x)) && (before.contains_key(x) ==> after[x]
                            == before[x]) by {
                            assert(!trees_handles(s2.cache, o.children@.take(upto(len, o.children@.len()))).contains(x));
                            assert(x != h0);
                            assert(p2.contains_key(x) == before.contains_key(x));
                            if before.contains_key(x) {
                                assert(p2[x] == before[x]);
                            }
                        }
                    }
                    assert(after.contains_key(p) == p2.contains_key(p));
                    assert(trees_handles(s2.cache, o.children@.take(upto(len, o.children@.len()))) == trees_handles(
                        s.cache,
                        o.children@,
                    ));
                    lemma_inplace_settled(after, s.cache, r.cache, old, new, s.next, r.next);
                }
            },
        }
    }
}

/// Comparing the children of the page node `h`, position by position.
#[verifier::rlimit(100)]
#[verifier::spinoff_prover]
proof fn lemma_zip_page(base: Map<nat, PageNode>, olds: Seq<Node>, news: Seq<Node>, h: nat, s: MState, parents: Map<u64, u64>, k: nat)
    requires
        trees_distinct(olds),
        trees_distinct(news),
        diff_ready(trees_ids(olds), trees_ids(news), s, parents),
        page_holds_all(apply_ops(base, s.ops), s.cache, parents, olds),
        parented(s.cache, parents, olds, h),
        trees_handles_distinct(s.cache, olds),
        !trees_handles(s.cache, olds).contains(h),
        forall|x: nat| #[trigger] trees_handles(s.cache, olds).contains(x) ==> x < s.next,
        h < s.next,
        page_fresh(apply_ops(base, s.ops), s.next),
        apply_ops(base, s.ops).contains_key(h),
        apply_ops(base, s.ops)[h].children == cached(s.cache, olds),
        all_attrs_unique(news),
        s.next + trees_size(news) <= u64::MAX,
    ensures
        ({
            let r = zip_spec(olds, news, h, s, parents, k);
            let before = apply_ops(base, s.ops);
            let after = apply_ops(base, r.ops);
            let ko = upto(k, olds.len());
            let kn = upto(k, news.len());
            let nh = cached(r.cache, news.take(kn));
            &&& s.next <= r.next
            &&& after.contains_key(h)
            &&& after[h] == PageNode { children: nh + cached(s.cache, olds).skip(ko), ..before[h] }
            &&& page_shows_all(after, nh, news.take(kn))
            &&& forall|x: nat| #[trigger]
                page_footprint_all(after, nh, news.take(kn)).contains(x) ==> trees_handles(s.cache, olds.take(ko)).contains(x)
                    || (s.next <= x < r.next)
            &&& forall|i: int|
                0 <= i < nh.len() ==> (i < olds.len() && #[trigger] nh[i] == cached(s.cache, olds)[i]) || (s.next
                    <= nh[i] < r.next)
            &&& page_fresh(after, r.next)
            &&& page_unchanged_outside(before, after, trees_handles(s.cache, olds.take(ko)).insert(h), s.next, r.next)
            &&& settled_all(after, r.cache, news.take(kn), trees_handles(s.cache, olds.take(ko)), s.next, r.next)
        }),
    decreases news, k,
{
    let before = apply_ops(base, s.ops);
    let oh = cached(s.cache, olds);
    if k == 0 {
        assert(olds.take(0) =~= Seq::<Node>::empty());
        assert(news.take(0) =~= Seq::<Node>::empty());
        assert(cached(s.cache, news.take(0)) =~= Seq::<nat>::empty());
        assert(Seq::<nat>::empty() + oh.skip(0) =~= oh);
        assert(before[h] == PageNode { children: before[h].children, ..before[h] });
        lemma_settled_none(before, s.cache, trees_handles(s.cache, olds.take(0)), s.next, s.next);
    } else {
        let k1 = (k - 1) as nat;
        let q = k1 as int;
        lemma_zip_page(base, olds, news, h, s, parents, k1);
        lemma_zip_finds_every_node(olds, news, h, s, parents, k1);
        lemma_zip_next(olds, news, h, s, parents, k1);
        lemma_trees_size_prefix(news, upto(k1, news.len()));
        let s1 = zip_spec(olds, news, h, s, parents, k1);
        let r = zip_spec(olds, news, h, s, parents, k);
        let b1 = apply_ops(base, s1.ops);
        let after = apply_ops(base, r.ops);
        let ko1 = upto(k1, olds.len());
        let kn1 = upto(k1, news.len());
        let ko = upto(k, olds.len());
        let kn = upto(k, news.len());
        let nh1 = cached(s1.cache, news.take(kn1));
        let nh = cached(r.cache, news.take(kn));
        lemma_trees_handles_take(s.cache, olds, ko1);
        lemma_trees_handles_take(s.cache, olds, ko);
        lemma_trees_ids_prefix(news, kn1);
        lemma_trees_ids_prefix(olds, ko1);
        if q < olds.len() {
            lemma_trees_ids_take(olds, q);
            lemma_trees_distinct_elem(olds, q);
            lemma_trees_handles_take(s.cache, olds, q);
            lemma_trees_handles_distinct_elem(s.cache, olds, q);
            lemma_page_holds_all_elem(before, s.cache, parents, olds, q);
            lemma_own_id(olds[q]);
        }
        if q < news.len() {
            lemma_trees_ids_take(news, q);
            lemma_trees_distinct_elem(news, q);
            lemma_all_attrs_unique_elem(news, q);
            lemma_trees_size_take(news, q);
        }
        if q < olds.len() && q < news.len() {
            assert(ko1 == q && kn1 == q && ko == q + 1 && kn == q + 1);
            let o = olds[q];
            let n = news[q];
            // the old tree at this position is still held
            assert forall|x: u64| #[trigger] tree_ids(o).contains(x) implies (s.cache.contains_key(x) <==> s1.cache.contains_key(x))
                && s.cache[x] == s1.cache[x] by {
                assert(trees_ids(olds).contains(x));
                assert(!trees_ids(news).contains(x));
                assert(!trees_ids(olds.take(q)).contains(x));
                assert(!trees_ids(news.take(q)).contains(x));
            }
            assert(pages_agree(before, b1, tree_handles(s.cache, o))) by {
                assert forall|x: nat| #[trigger] tree_handles(s.cache, o).contains(x) implies (before.contains_key(x)
                    <==> b1.contains_key(x)) && (before.contains_key(x) ==> before[x] == b1[x]) by {
                    assert(trees_handles(s.cache, olds).contains(x));
                    assert(!trees_handles(s.cache, olds.take(q)).contains(x));
                    assert(x != h);
                    assert(b1.contains_key(x) == before.contains_key(x));
                }
            }
            lemma_page_holds_frame(before, b1, s.cache, s1.cache, parents, o);
            assert(parents[s1.cache[spec_node_id(o)]] as nat == h) by {
                assert(o == olds[q]);
            }
            assert forall|x: u64| #[trigger] tree_ids(o).contains(x) implies s1.cache.contains_key(x) && parents.contains_key(
                s1.cache[x],
            ) && !tree_ids(n).contains(x) by {
                assert(trees_ids(olds).contains(x));
                assert(!trees_ids(news).contains(x));
            }
            assert(diff_ready(tree_ids(o), tree_ids(n), s1, parents));
            assert forall|x: nat| #[trigger] tree_handles(s1.cache, o).contains(x) implies x < s1.next by {
                assert(trees_handles(s.cache, olds).contains(x));
            }
            law_diff_page(base, o, n, s1, parents, h);
            law_diff_finds_every_node(o, n, s1, parents);
            assert(r == diff_spec(o, n, s1, parents));
            let h0 = s1.cache[spec_node_id(o)] as nat;
            let h1 = r.cache[spec_node_id(n)] as nat;
            assert(h0 == oh[q]);
            // the list of children
            let l1 = nh1 + oh.skip(q);
            assert(b1[h].children == l1);
            assert(l1[q] == h0);
            assert forall|j: int| 0 <= j < l1.len() && j != q implies l1[j] != l1[q] by {
                if j < q {
                    assert(l1[j] == nh1[j]);
                    if j < olds.len() && nh1[j] == oh[j] {
                        lemma_trees_handles_take(s.cache, olds.take(q), j);
                        assert(olds.take(q)[j] == olds[j]);
                        lemma_own_handle(s.cache, olds[j]);
                        lemma_own_handle(s.cache, o);
                    }
                } else {
                    assert(l1[j] == oh[j]);
                    lemma_trees_handles_distinct_elem(s.cache, olds, j);
                    lemma_trees_handles_take(s.cache, olds, j);
                    lemma_trees_handles_take(s.cache, olds.take(j), q);
                    assert(olds.take(j)[q] == olds[q]);
                    lemma_own_handle(s.cache, olds[j]);
                    lemma_own_handle(s.cache, o);
                }
            }
            lemma_replace_value_at(l1, q, h1);
            assert(nh =~= nh1.push(h1)) by {
                assert forall|i: int| 0 <= i < q implies r.cache[spec_node_id(#[trigger] news.take(q + 1)[i])] == s1.cache[spec_node_id(news.take(q)[i])] by {
                    assert(news.take(q + 1)[i] == news[i]);
                    assert(news.take(q)[i] == news[i]);
                    lemma_trees_ids_take(news.take(q), i);
                    lemma_own_id(news[i]);
                    let x = spec_node_id(news[i]);
                    assert(trees_ids(news.take(q)).contains(x));
                    assert(trees_ids(news).contains(x));
                    assert(!tree_ids(o).contains(x));
                    assert(!tree_ids(n).contains(x)) by {
                        assert(trees_ids(news.take(q)).disjoint(tree_ids(news[q])));
                    }
                    assert(trees_ids(news.take(kn1)).contains(x));
                    assert(s1.cache.contains_key(x));
                    assert(r.cache.contains_key(x));
                }
            }
            assert(l1.update(q, h1) =~= nh + oh.skip(q + 1));
            assert(after[h] == PageNode { children: nh + oh.skip(q + 1), ..before[h] });
            // what the children show
            let fp1 = page_footprint_all(b1, nh1, news.take(q));
            assert(pages_agree(b1, after, fp1)) by {
                assert forall|x: nat| #[trigger] fp1.contains(x) implies (b1.contains_key(x) <==> after.contains_key(x)) && (
                b1.contains_key(x) ==> b1[x] == after[x]) by {
                    if trees_handles(s.cache, olds.take(q)).contains(x) {
                        assert(!tree_handles(s.cache, o).contains(x));
                        assert(x < s.next);
                    }
                    assert(x != h);
                    assert(after.contains_key(x) == b1.contains_key(x));
                }
            }
            lemma_page_shows_all_frame(b1, after, nh1, news.take(q));
            assert(nh.drop_last() =~= nh1);
            assert(news.take(q + 1).drop_last() =~= news.take(q));
            assert(news.take(q + 1).last() == n);
            assert(page_shows_all(after, nh, news.take(kn)));
            assert forall|x: nat| #[trigger] page_footprint_all(after, nh, news.take(kn)).contains(x) implies trees_handles(
                s.cache,
                olds.take(ko),
            ).contains(x) || (s.next <= x < r.next) by {
                assert(page_footprint_all(after, nh, news.take(kn)) == page_footprint_all(after, nh1, news.take(q)).union(
                    page_footprint(after, h1, n),
                ));
            }
            assert forall|i: int| 0 <= i < nh.len() implies (i < olds.len() && #[trigger] nh[i] == oh[i]) || (s.next
                <= nh[i] < r.next) by {
                if i < q {
                    assert(nh[i] == nh1[i]);
                }
            }
            let all = trees_handles(s.cache, olds.take(ko)).insert(h);
            assert forall|x: nat| #[trigger] trees_handles(s.cache, olds.take(q)).insert(h).contains(x) implies all.contains(x) by {}
            assert forall|x: nat| #[trigger] tree_handles(s1.cache, o).insert(h).contains(x) implies all.contains(x) by {}
            lemma_unchanged_chain(
                before,
                b1,
                after,
                trees_handles(s.cache, olds.take(q)).insert(h),
                tree_handles(s1.cache, o).insert(h),
                all,
                s.next,
                s1.next,
                r.next,
            );
            assert forall|x: u64| #[trigger] trees_ids(news.take(q)).contains(x) implies (s1.cache.contains_key(x)
                <==> r.cache.contains_key(x)) && s1.cache[x] == r.cache[x] by {
                assert(trees_ids(news).contains(x));
                assert(!tree_ids(o).contains(x)) by {
                    if tree_ids(o).contains(x) {
                        assert(trees_ids(olds).contains(x));
                    }
                }
                assert(!tree_ids(n).contains(x)) by {
                    assert(trees_ids(news.take(q)).disjoint(tree_ids(news[q])));
                }
            }
            lemma_zip_both_settled(b1, after, s.cache, s1.cache, r.cache, olds, news, q, h, s.next, s1.next, r.next);
        } else if q < olds.len() {
            assert(ko1 == q && ko == q + 1 && kn1 == kn);
            let o = olds[q];
            let id = spec_node_id(o);
            assert(!trees_ids(news).contains(id));
            assert(!trees_ids(olds.take(q)).contains(id));
            assert(!trees_ids(news.take(kn1)).contains(id));
            assert(s1.cache.contains_key(id) && s1.cache[id] == s.cache[id]);
            let op = OpView::RemoveChild { parent: h, child: s1.cache[id] as nat };
            assert(r.ops == s1.ops.push(op));
            assert(r.ops.drop_last() == s1.ops);
            assert(r.cache == s1.cache.remove(id));
            assert(after == apply_op(b1, op));
            let l1 = nh1 + oh.skip(q);
            let at = nh1.len() as int;
            assert(b1[h].children == l1);
            assert(l1[at] == oh[q]);
            assert forall|j: int| 0 <= j < l1.len() && j != at implies l1[j] != l1[at] by {
                if j < at {
                    assert(l1[j] == nh1[j]);
                    if j < olds.len() && nh1[j] == oh[j] {
                        lemma_trees_handles_take(s.cache, olds.take(q), j);
                        assert(olds.take(q)[j] == olds[j]);
                        lemma_own_handle(s.cache, olds[j]);
                        lemma_own_handle(s.cache, o);
                    }
                } else {
                    let jj = j - at + q;
                    assert(l1[j] == oh[jj]);
                    lemma_trees_handles_distinct_elem(s.cache, olds, jj);
                    lemma_trees_handles_take(s.cache, olds, jj);
                    lemma_trees_handles_take(s.cache, olds.take(jj), q);
                    assert(olds.take(jj)[q] == olds[q]);
                    lemma_own_handle(s.cache, olds[jj]);
                    lemma_own_handle(s.cache, o);
                }
            }
            lemma_drop_value_at(l1, at);
            assert(nh =~= nh1) by {
                assert forall|i: int| 0 <= i < nh.len() implies nh[i] == nh1[i] by {
                    lemma_trees_ids_take(news.take(kn), i);
                    assert(news.take(kn)[i] == news[i]);
                    lemma_own_id(news[i]);
                    assert(trees_ids(news).contains(spec_node_id(news[i])));
                }
            }
            assert(l1.remove(at) =~= nh + oh.skip(q + 1));
            let fp1 = page_footprint_all(b1, nh1, news.take(kn1));
            assert(pages_agree(b1, after, fp1)) by {
                assert forall|x: nat| #[trigger] fp1.contains(x) implies x != h by {}
            }
            lemma_page_shows_all_frame(b1, after, nh1, news.take(kn1));
            assert forall|i: int| 0 <= i < nh.len() implies (i < olds.len() && #[trigger] nh[i] == oh[i]) || (s.next
                <= nh[i] < r.next) by {
                assert(nh[i] == nh1[i]);
            }
            assert(page_unchanged_outside(before, after, trees_handles(s.cache, olds.take(ko)).insert(h), s.next, r.next)) by {
                assert forall|x: nat| !trees_handles(s.cache, olds.take(ko)).insert(h).contains(x) && !(s.next <= x < r.next) implies (
                #[trigger] after.contains_key(x) <==> before.contains_key(x)) && (before.contains_key(x) ==> after[x]
                    == before[x]) by {
                    assert(!trees_handles(s.cache, olds.take(q)).contains(x));
                    assert(b1.contains_key(x) == before.contains_key(x));
                }
            }
            assert(page_unchanged_outside(b1, after, Set::empty().insert(h), r.next, r.next)) by {
                assert forall|x: nat| !Set::<nat>::empty().insert(h).contains(x) && !(r.next <= x < r.next) implies (
                #[trigger] after.contains_key(x) <==> b1.contains_key(x)) && (b1.contains_key(x) ==> after[x] == b1[x]) by {}
            }
            assert forall|x: u64| #[trigger] trees_ids(news.take(kn)).contains(x) implies (s1.cache.contains_key(x)
                <==> r.cache.contains_key(x)) && s1.cache[x] == r.cache[x] by {
                assert(trees_ids(news).contains(x));
            }
            lemma_zip_remove_settled(b1, after, s.cache, s1.cache, r.cache, olds, news.take(kn), q, h, s.next, r.next);
        } else if q < news.len() {
            assert(kn1 == q && kn == q + 1 && ko1 == ko);
            assert(ko == olds.len());
            let n = news[q];
            law_render_page(base, n, s1);
            law_render_caches_every_node(n, s1);
            crate::meow::lemma_render_next(n, s1);
            let r2 = render_spec(n, s1);
            let mid = apply_ops(base, r2.0.ops);
            let op = OpView::AppendChild { parent: h, child: r2.1 };
            assert(r.ops == r2.0.ops.push(op));
            assert(r.ops.drop_last() == r2.0.ops);
            assert(r.cache == r2.0.cache);
            assert(after == apply_op(mid, op));
            assert(mid.contains_key(h) && mid[h] == b1[h]);
            assert(r2.0.cache[spec_node_id(n)] == r2.1 as u64) by {
                match n {
                    Node::Text(_) => {},
                    Node::Element(_) => {},
                }
            }
            assert(oh.skip(ko) =~= Seq::<nat>::empty());
            assert(oh.skip(ko1) =~= Seq::<nat>::empty());
            assert(nh1 + oh.skip(ko1) =~= nh1);
            assert(nh =~= nh1.push(r2.1)) by {
                assert forall|i: int| 0 <= i < q implies r.cache[spec_node_id(#[trigger] news.take(q + 1)[i])] == s1.cache[spec_node_id(news.take(q)[i])] by {
                    assert(news.take(q + 1)[i] == news[i]);
                    assert(news.take(q)[i] == news[i]);
                    lemma_trees_ids_take(news.take(q), i);
                    lemma_own_id(news[i]);
                    let x = spec_node_id(news[i]);
                    assert(trees_ids(news.take(q)).contains(x));
                    assert(!tree_ids(n).contains(x)) by {
                        assert(trees_ids(news.take(q)).disjoint(tree_ids(news[q])));
                    }
                    assert(s1.cache.contains_key(x));
                }
            }
            assert(nh + oh.skip(ko) =~= nh);
            let fp1 = page_footprint_all(b1, nh1, news.take(q));
            assert(pages_agree(b1, after, fp1)) by {
                assert forall|x: nat| #[trigger] fp1.contains(x) implies (b1.contains_key(x) <==> after.contains_key(x)) && (
                b1.contains_key(x) ==> b1[x] == after[x]) by {
                    if trees_handles(s.cache, olds.take(ko)).contains(x) {
                        assert(x < s.next);
                    }
                    assert(x != h);
                    assert(mid.contains_key(x) == b1.contains_key(x));
                }
            }
            lemma_page_shows_all_frame(b1, after, nh1, news.take(q));
            let fp2 = page_footprint(mid, r2.1, n);
            assert(pages_agree(mid, after, fp2)) by {
                assert forall|x: nat| #[trigger] fp2.contains(x) implies x != h by {}
            }
            lemma_page_shows_frame(mid, after, r2.1, n);
            assert(nh.drop_last() =~= nh1);
            assert(news.take(q + 1).drop_last() =~= news.take(q));
            assert(news.take(q + 1).last() == n);
            assert forall|x: nat| #[trigger] page_footprint_all(after, nh, news.take(kn)).contains(x) implies trees_handles(
                s.cache,
                olds.take(ko),
            ).contains(x) || (s.next <= x < r.next) by {
                assert(page_footprint_all(after, nh, news.take(kn)) == page_footprint_all(after, nh1, news.take(q)).union(
                    page_footprint(after, r2.1, n),
                ));
            }
            assert forall|i: int| 0 <= i < nh.len() implies (i < olds.len() && #[trigger] nh[i] == oh[i]) || (s.next
                <= nh[i] < r.next) by {
                if i < q {
                    assert(nh[i] == nh1[i]);
                }
            }
            assert(page_unchanged_outside(before, after, trees_handles(s.cache, olds.take(ko)).insert(h), s.next, r.next)) by {
                assert forall|x: nat| !trees_handles(s.cache, olds.take(ko)).insert(h).contains(x) && !(s.next <= x < r.next) implies (
                #[trigger] after.contains_key(x) <==> before.contains_key(x)) && (before.contains_key(x) ==> after[x]
                    == before[x]) by {
                    assert(x != h);
                    assert(r.next == r2.0.next);
                    assert(!(s.next <= x < s1.next));
                    assert(!(s1.next <= x < r2.0.next));
                    assert(!Set::<nat>::empty().contains(x));
                    assert(b1.contains_key(x) == before.contains_key(x));
                    assert(mid.contains_key(x) == b1.contains_key(x));
                    if before.contains_key(x) {
                        assert(b1[x] == before[x]);
                        assert(mid[x] == b1[x]);
                        assert(after[x] == mid[x]);
                    }
                }
            }
            lemma_render_cached(base, n, s1);
            assert(page_unchanged_outside(mid, after, Set::empty().insert(h), r.next, r.next)) by {
                assert forall|x: nat| !Set::<nat>::empty().insert(h).contains(x) && !(r.next <= x < r.next) implies (
                #[trigger] after.contains_key(x) <==> mid.contains_key(x)) && (mid.contains_key(x) ==> after[x] == mid[x]) by {}
            }
            assert forall|x: u64| #[trigger] trees_ids(news.take(q)).contains(x) implies (s1.cache.contains_key(x)
                <==> r.cache.contains_key(x)) && s1.cache[x] == r.cache[x] by {
                assert(!tree_ids(n).contains(x)) by {
                    assert(trees_ids(news.take(q)).disjoint(tree_ids(news[q])));
                }
            }
            lemma_zip_append_settled(
                b1,
                mid,
                after,
                trees_handles(s.cache, olds.take(ko)),
                s1.cache,
                r.cache,
                news,
                q,
                h,
                s.next,
                s1.next,
                r.next,
            );
        } else {
            assert(ko1 == ko && kn1 == kn);
            assert(r == s1);
        }
    }
}

// ==== the page holds the new tree ====

/// Rendering a tree whose identities are distinct caches each of its nodes
/// under the page node made for it: the root's is the one that rendering
/// returns, the page nodes are new and distinct, and each element's page node
/// has the page nodes of its children as children.
proof fn lemma_render_cached(base: Map<nat, PageNode>, n: Node, s: MState)
    requires
        page_fresh(apply_ops(base, s.ops), s.next),
        ids_distinct(n),
        s.next + tree_size(n) <= u64::MAX,
    ensures
        ({
            let r = render_spec(n, s);
            let after = apply_ops(base, r.0.ops);
            &&& r.0.cache[spec_node_id(n)] == r.1 as u64
            &&& page_cached(after, r.0.cache, n)
            &&& handles_distinct(r.0.cache, n)
            &&& forall|x: nat| #[trigger] tree_handles(r.0.cache, n).contains(x) ==> s.next <= x < r.0.next
        }),
    decreases n,
{
    let r = render_spec(n, s);
    let before = apply_ops(base, s.ops);
    crate::meow::lemma_render_next(n, s);
    match n {
        Node::Text(t) => {
            assert(r.0.cache[t.id] as nat == s.next);
            assert(tree_handles(r.0.cache, n) =~= Set::<nat>::empty().insert(s.next));
        },
        Node::Element(e) => {
            let h = s.next;
            let cs = e.children@;
            let create = OpView::CreateElement { node: h, tag_name: e.tag_name@ };
            let av = attrs_view(e.attrs@);
            let s1 = MState {
                ops: s.ops.push(create) + set_attr_ops(h, av),
                cache: s.cache,
                next: h + 1,
                ok: s.ok,
            };
            lemma_apply_ops_concat(base, s.ops.push(create), set_attr_ops(h, av));
            assert(s.ops.push(create).drop_last() == s.ops);
            let p0 = apply_ops(base, s.ops.push(create));
            assert(p0 == apply_op(before, create));
            lemma_set_attrs(p0, h, av);
            let p1 = apply_ops(base, s1.ops);
            assert(p1 == p0.insert(h, PageNode { attributes: attr_map(av), ..p0[h] }));
            assert(p1[h].children == Seq::<nat>::empty());
            assert(tree_size(n) == 1 + trees_size(cs));
            lemma_render_children_cached(base, cs, h, s1);
            lemma_render_children_page(base, cs, h, s1);
            let s2 = render_children_spec(cs, h, s1);
            crate::meow::lemma_render_children_next(cs, h, s1);
            assert(r.0.ops == s2.ops);
            assert(r.0.cache == s2.cache.insert(e.id, h as u64));
            let after = apply_ops(base, s2.ops);
            assert(after[h].children.skip(0) =~= after[h].children);
            assert(!trees_ids(cs).contains(e.id));
            assert forall|x: u64| #[trigger] trees_ids(cs).contains(x) implies (s2.cache.contains_key(x)
                <==> r.0.cache.contains_key(x)) && s2.cache[x] == r.0.cache[x] by {}
            lemma_page_cached_all_frame(after, after, s2.cache, r.0.cache, cs);
            assert(cached(s2.cache, cs) =~= cached(r.0.cache, cs)) by {
                assert forall|i: int| 0 <= i < cs.len() implies s2.cache[spec_node_id(cs[i])] == r.0.cache[spec_node_id(
                    cs[i],
                )] by {
                    lemma_trees_ids_take(cs, i);
                    lemma_own_id(cs[i]);
                }
            }
            assert(r.0.cache[e.id] as nat == h);
            assert(tree_handles(r.0.cache, n) == trees_handles(r.0.cache, cs).insert(h));
            assert(page_cached(after, r.0.cache, n));
            assert(!trees_handles(r.0.cache, cs).contains(h));
        },
    }
}

/// Rendering children whose identities are distinct appends, for each, the
/// page node that the cache gives it.
proof fn lemma_render_children_cached(base: Map<nat, PageNode>, cs: Seq<Node>, h: nat, s: MState)
    requires
        apply_ops(base, s.ops).contains_key(h),
        h < s.next,
        page_fresh(apply_ops(base, s.ops), s.next),
        trees_distinct(cs),
        s.next + trees_size(cs) <= u64::MAX,
    ensures
        ({
            let r = render_children_spec(cs, h, s);
            let after = apply_ops(base, r.ops);
            let k = apply_ops(base, s.ops)[h].children.len();
            &&& after[h].children.skip(k as int) == cached(r.cache, cs)
            &&& page_cached_all(after, r.cache, cs)
            &&& trees_handles_distinct(r.cache, cs)
            &&& forall|x: nat| #[trigger] trees_handles(r.cache, cs).contains(x) ==> s.next <= x < r.next
        }),
    decreases cs,
{
    let k = apply_ops(base, s.ops)[h].children.len();
    let r = render_children_spec(cs, h, s);
    lemma_render_children_page(base, cs, h, s);
    if cs.len() == 0 {
        assert(apply_ops(base, s.ops)[h].children.skip(k as int) =~= Seq::<nat>::empty());
        assert(cached(r.cache, cs) =~= Seq::<nat>::empty());
    } else {
        let d = cs.drop_last();
        let n = cs.last();
        let s1 = render_children_spec(d, h, s);
        let p1 = apply_ops(base, s1.ops);
        crate::meow::lemma_render_children_next(d, h, s);
        crate::meow::lemma_render_children_cache(d, h, s);
        assert(trees_size(cs) == trees_size(d) + tree_size(n));
        assert(trees_distinct(d) && ids_distinct(n));
        lemma_render_children_page(base, d, h, s);
        lemma_render_children_cached(base, d, h, s);
        law_render_page(base, n, s1);
        lemma_render_cached(base, n, s1);
        law_render_caches_every_node(n, s1);
        crate::meow::lemma_render_next(n, s1);
        let rr = render_spec(n, s1);
        let p2 = apply_ops(base, rr.0.ops);
        let op = OpView::AppendChild { parent: h, child: rr.1 };
        assert(r.ops == rr.0.ops.push(op));
        assert(r.ops.drop_last() == rr.0.ops);
        assert(r.cache == rr.0.cache);
        let after = apply_ops(base, r.ops);
        assert(p2.contains_key(h) && p2[h] == p1[h]);
        assert(after == p2.insert(h, op_effect(p2[h], op)));
        // the cache entries of the earlier children stay
        assert forall|x: u64| #[trigger] trees_ids(d).contains(x) implies (s1.cache.contains_key(x)
            <==> r.cache.contains_key(x)) && s1.cache[x] == r.cache[x] by {
            assert(!tree_ids(n).contains(x));
        }
        assert(pages_agree(p1, after, trees_handles(s1.cache, d))) by {
            assert forall|x: nat| #[trigger] trees_handles(s1.cache, d).contains(x) implies (p1.contains_key(x)
                <==> after.contains_key(x)) && (p1.contains_key(x) ==> p1[x] == after[x]) by {
                assert(x != h);
                assert(!(s1.next <= x < rr.0.next));
                assert(p2.contains_key(x) == p1.contains_key(x));
            }
        }
        lemma_page_cached_all_frame(p1, after, s1.cache, r.cache, d);
        assert(pages_agree(p2, after, tree_handles(rr.0.cache, n))) by {
            assert forall|x: nat| #[trigger] tree_handles(rr.0.cache, n).contains(x) implies x != h by {}
        }
        lemma_page_cached_frame(p2, after, rr.0.cache, rr.0.cache, n);
        assert(cached(r.cache, d) =~= cached(s1.cache, d)) by {
            assert forall|i: int| 0 <= i < d.len() implies r.cache[spec_node_id(d[i])] == s1.cache[spec_node_id(d[i])] by {
                lemma_trees_ids_take(d, i);
                lemma_own_id(d[i]);
            }
        }
        assert(cached(r.cache, cs) =~= cached(r.cache, d).push(r.cache[spec_node_id(n)] as nat));
        assert(r.cache[spec_node_id(n)] as nat == rr.1);
        assert(after[h].children == p1[h].children.push(rr.1));
        assert(after[h].children.skip(k as int) =~= p1[h].children.skip(k as int).push(rr.1));
        assert(trees_handles(r.cache, cs) == trees_handles(r.cache, d).union(tree_handles(r.cache, n)));
    }
}

/// The page nodes of the tree `n` are arranged as the cache says, distinct,
/// and each is one of `olds` or from the handle `lo` up to `hi`.
#[verifier::opaque]
pub open spec fn settled(page: Map<nat, PageNode>, cache: Map<u64, u64>, n: Node, olds: Set<nat>, lo: nat, hi: nat) -> bool {
    &&& page_cached(page, cache, n)
    &&& handles_distinct(cache, n)
    &&& forall|x: nat| #[trigger] tree_handles(cache, n).contains(x) ==> olds.contains(x) || (lo <= x < hi)
}

/// `settled` for a sequence of trees.
#[verifier::opaque]
pub open spec fn settled_all(
    page: Map<nat, PageNode>,
    cache: Map<u64, u64>,
    cs: Seq<Node>,
    olds: Set<nat>,
    lo: nat,
    hi: nat,
) -> bool {
    &&& page_cached_all(page, cache, cs)
    &&& trees_handles_distinct(cache, cs)
    &&& forall|x: nat| #[trigger] trees_handles(cache, cs).contains(x) ==> olds.contains(x) || (lo <= x < hi)
}

proof fn lemma_settled_none(page: Map<nat, PageNode>, cache: Map<u64, u64>, olds: Set<nat>, lo: nat, hi: nat)
    ensures
        settled_all(page, cache, Seq::<Node>::empty(), olds, lo, hi),
{
    reveal(settled_all);
}

/// A tree compared at a position of the children is settled after the
/// trees before it.
proof fn lemma_zip_both_settled(
    b1: Map<nat, PageNode>,
    after: Map<nat, PageNode>,
    c0: Map<u64, u64>,
    c1: Map<u64, u64>,
    cr: Map<u64, u64>,
    olds: Seq<Node>,
    news: Seq<Node>,
    q: int,
    h: nat,
    lo: nat,
    mid: nat,
    hi: nat,
)
    requires
        0 <= q < olds.len(),
        q < news.len(),
        settled_all(b1, c1, news.take(q), trees_handles(c0, olds.take(q)), lo, mid),
        settled(after, cr, news[q], tree_handles(c1, olds[q]), mid, hi),
        page_unchanged_outside(b1, after, tree_handles(c1, olds[q]).insert(h), mid, hi),
        forall|x: u64| #[trigger] trees_ids(news.take(q)).contains(x) ==> (c1.contains_key(x) <==> cr.contains_key(x)) && c1[x] == cr[x],
        tree_handles(c1, olds[q]) == tree_handles(c0, olds[q]),
        trees_handles(c0, olds.take(q)).disjoint(tree_handles(c0, olds[q])),
        trees_handles(c0, olds.take(q + 1)) == trees_handles(c0, olds.take(q)).union(tree_handles(c0, olds[q])),
        forall|x: nat| #[trigger] trees_handles(c0, olds.take(q + 1)).contains(x) ==> x < lo,
        !trees_handles(c0, olds.take(q + 1)).contains(h),
        h < lo,
        lo <= mid <= hi,
    ensures
        settled_all(after, cr, news.take(q + 1), trees_handles(c0, olds.take(q + 1)), lo, hi),
{
    reveal(settled);
    reveal(settled_all);
    let d = news.take(q);
    let n = news[q];
    assert(news.take(q + 1).drop_last() =~= d);
    assert(news.take(q + 1).last() == n);
    assert(pages_agree(b1, after, trees_handles(c1, d))) by {
        assert forall|x: nat| #[trigger] trees_handles(c1, d).contains(x) implies (b1.contains_key(x) <==> after.contains_key(x))
            && (b1.contains_key(x) ==> b1[x] == after[x]) by {
            assert(trees_handles(c0, olds.take(q)).contains(x) || (lo <= x < mid));
            if tree_handles(c0, olds[q]).contains(x) {
                assert(trees_handles(c0, olds.take(q + 1)).contains(x));
                assert(x < lo);
                assert(trees_handles(c0, olds.take(q)).contains(x));
                assert(false);
            }
            assert(!tree_handles(c1, olds[q]).insert(h).contains(x));
            if trees_handles(c0, olds.take(q)).contains(x) {
                assert(trees_handles(c0, olds.take(q + 1)).contains(x));
            }
            assert(!(mid <= x < hi));
            assert(after.contains_key(x) == b1.contains_key(x));
            if b1.contains_key(x) {
                assert(after[x] == b1[x]);
            }
        }
    }
    lemma_page_cached_all_frame(b1, after, c1, cr, d);
    assert(trees_handles(cr, news.take(q + 1)) == trees_handles(cr, d).union(tree_handles(cr, n)));
    assert(trees_handles(cr, d).disjoint(tree_handles(cr, n))) by {
        assert forall|x: nat| trees_handles(cr, d).contains(x) && #[trigger] tree_handles(cr, n).contains(x) implies false by {
            assert(trees_handles(c1, d).contains(x));
            assert(trees_handles(c0, olds.take(q)).contains(x) || (lo <= x < mid));
            assert(tree_handles(c0, olds[q]).contains(x) || (mid <= x < hi));
            if tree_handles(c0, olds[q]).contains(x) {
                assert(trees_handles(c0, olds.take(q + 1)).contains(x));
                assert(x < lo);
                assert(trees_handles(c0, olds.take(q)).contains(x));
            }
            if trees_handles(c0, olds.take(q)).contains(x) {
                assert(trees_handles(c0, olds.take(q + 1)).contains(x));
                assert(x < lo);
                assert(!tree_handles(c0, olds[q]).contains(x));
            }
        }
    }
    assert forall|x: nat| #[trigger] trees_handles(cr, news.take(q + 1)).contains(x) implies trees_handles(
        c0,
        olds.take(q + 1),
    ).contains(x) || (lo <= x < hi) by {
        if trees_handles(cr, d).contains(x) {
            assert(trees_handles(c1, d).contains(x));
        } else {
            assert(tree_handles(cr, n).contains(x));
        }
    }
}

/// Removing an old child that has no new one leaves the trees before it
/// settled.
proof fn lemma_zip_remove_settled(
    b1: Map<nat, PageNode>,
    after: Map<nat, PageNode>,
    c0: Map<u64, u64>,
    c1: Map<u64, u64>,
    cr: Map<u64, u64>,
    olds: Seq<Node>,
    ds: Seq<Node>,
    q: int,
    h: nat,
    lo: nat,
    hi: nat,
)
    requires
        0 <= q < olds.len(),
        settled_all(b1, c1, ds, trees_handles(c0, olds.take(q)), lo, hi),
        page_unchanged_outside(b1, after, Set::empty().insert(h), hi, hi),
        forall|x: u64| #[trigger] trees_ids(ds).contains(x) ==> (c1.contains_key(x) <==> cr.contains_key(x)) && c1[x] == cr[x],
        forall|x: nat| #[trigger] trees_handles(c0, olds.take(q)).contains(x) ==> trees_handles(c0, olds.take(q + 1)).contains(x),
        !trees_handles(c0, olds.take(q + 1)).contains(h),
        h < lo,
    ensures
        settled_all(after, cr, ds, trees_handles(c0, olds.take(q + 1)), lo, hi),
{
    reveal(settled_all);
    assert(pages_agree(b1, after, trees_handles(c1, ds))) by {
        assert forall|x: nat| #[trigger] trees_handles(c1, ds).contains(x) implies (b1.contains_key(x) <==> after.contains_key(x))
            && (b1.contains_key(x) ==> b1[x] == after[x]) by {
            assert(x != h);
        }
    }
    lemma_page_cached_all_frame(b1, after, c1, cr, ds);
}

/// A new child appended at a position with no old one is settled after the
/// trees before it.
proof fn lemma_zip_append_settled(
    b1: Map<nat, PageNode>,
    mid_page: Map<nat, PageNode>,
    after: Map<nat, PageNode>,
    olds_handles: Set<nat>,
    c1: Map<u64, u64>,
    cr: Map<u64, u64>,
    news: Seq<Node>,
    q: int,
    h: nat,
    lo: nat,
    mid: nat,
    hi: nat,
)
    requires
        0 <= q < news.len(),
        settled_all(b1, c1, news.take(q), olds_handles, lo, mid),
        page_cached(mid_page, cr, news[q]),
        handles_distinct(cr, news[q]),
        forall|x: nat| #[trigger] tree_handles(cr, news[q]).contains(x) ==> mid <= x < hi,
        page_unchanged_outside(b1, mid_page, Set::empty(), mid, hi),
        page_unchanged_outside(mid_page, after, Set::empty().insert(h), hi, hi),
        forall|x: u64| #[trigger] trees_ids(news.take(q)).contains(x) ==> (c1.contains_key(x) <==> cr.contains_key(x)) && c1[x] == cr[x],
        forall|x: nat| #[trigger] olds_handles.contains(x) ==> x < lo,
        !olds_handles.contains(h),
        h < lo,
        lo <= mid <= hi,
    ensures
        settled_all(after, cr, news.take(q + 1), olds_handles, lo, hi),
{
    reveal(settled_all);
    let d = news.take(q);
    let n = news[q];
    assert(news.take(q + 1).drop_last() =~= d);
    assert(news.take(q + 1).last() == n);
    assert(pages_agree(b1, after, trees_handles(c1, d))) by {
        assert forall|x: nat| #[trigger] trees_handles(c1, d).contains(x) implies (b1.contains_key(x) <==> after.contains_key(x))
            && (b1.contains_key(x) ==> b1[x] == after[x]) by {
            assert(x != h);
            assert(!(mid <= x < hi));
            assert(mid_page.contains_key(x) == b1.contains_key(x));
        }
    }
    lemma_page_cached_all_frame(b1, after, c1, cr, d);
    assert(pages_agree(mid_page, after, tree_handles(cr, n))) by {
        assert forall|x: nat| #[trigger] tree_handles(cr, n).contains(x) implies x != h by {}
    }
    lemma_page_cached_frame(mid_page, after, cr, cr, n);
    assert(trees_handles(cr, news.take(q + 1)) == trees_handles(cr, d).union(tree_handles(cr, n)));
    assert(trees_handles(cr, d).disjoint(tree_handles(cr, n))) by {
        assert forall|x: nat| trees_handles(cr, d).contains(x) && #[trigger] tree_handles(cr, n).contains(x) implies false by {
            assert(trees_handles(c1, d).contains(x));
        }
    }
    assert forall|x: nat| #[trigger] trees_handles(cr, news.take(q + 1)).contains(x) implies olds_handles.contains(x) || (lo
        <= x < hi) by {
        if trees_handles(cr, d).contains(x) {
            assert(trees_handles(c1, d).contains(x));
        } else {
            assert(tree_handles(cr, n).contains(x));
        }
    }
}

/// An element compared in place is settled once its children are.
proof fn lemma_inplace_settled(
    after: Map<nat, PageNode>,
    c0: Map<u64, u64>,
    cr: Map<u64, u64>,
    o: Node,
    n: Node,
    lo: nat,
    hi: nat,
)
    requires
        o is Element,
        n is Element,
        ({
            let oc = o->Element_0.children@;
            let nc = n->Element_0.children@;
            let h0 = cr[n->Element_0.id] as nat;
            &&& settled_all(after, cr, nc, trees_handles(c0, oc), lo, hi)
            &&& after.contains_key(h0)
            &&& after[h0].children == cached(cr, nc)
            &&& h0 == c0[o->Element_0.id] as nat
            &&& !trees_handles(c0, oc).contains(h0)
            &&& h0 < lo
            &&& tree_handles(c0, o) == trees_handles(c0, oc).insert(h0)
        }),
    ensures
        settled(after, cr, n, tree_handles(c0, o), lo, hi),
{
    reveal(settled);
    reveal(settled_all);
    if let Node::Element(e) = n {
        let h0 = cr[e.id] as nat;
        assert(tree_handles(cr, n) == trees_handles(cr, e.children@).insert(h0));
        assert(!trees_handles(cr, e.children@).contains(h0));
    }
}

/// A tree rendered in place of another is settled.
proof fn lemma_replace_settled(
    mid_page: Map<nat, PageNode>,
    after: Map<nat, PageNode>,
    cache: Map<u64, u64>,
    n: Node,
    olds: Set<nat>,
    p: nat,
    lo: nat,
    hi: nat,
)
    requires
        page_cached(mid_page, cache, n),
        handles_distinct(cache, n),
        forall|x: nat| #[trigger] tree_handles(cache, n).contains(x) ==> lo <= x < hi,
        page_unchanged_outside(mid_page, after, Set::empty().insert(p), hi, hi),
        p < lo,
    ensures
        settled(after, cache, n, olds, lo, hi),
{
    reveal(settled);
    assert(pages_agree(mid_page, after, tree_handles(cache, n))) by {
        assert forall|x: nat| #[trigger] tree_handles(cache, n).contains(x) implies (mid_page.contains_key(x) <==> after.contains_key(x))
            && (mid_page.contains_key(x) ==> mid_page[x] == after[x]) by {
            assert(x != p);
        }
    }
    lemma_page_cached_frame(mid_page, after, cache, cache, n);
}

/// Two steps that each change only given page nodes change, together, only
/// nodes of a set that holds both.
proof fn lemma_unchanged_chain(
    a: Map<nat, PageNode>,
    b: Map<nat, PageNode>,
    c: Map<nat, PageNode>,
    s1: Set<nat>,
    s2: Set<nat>,
    all: Set<nat>,
    lo: nat,
    mid: nat,
    hi: nat,
)
    requires
        page_unchanged_outside(a, b, s1, lo, mid),
        page_unchanged_outside(b, c, s2, mid, hi),
        forall|x: nat| #[trigger] s1.contains(x) ==> all.contains(x),
        forall|x: nat| #[trigger] s2.contains(x) ==> all.contains(x),
        lo <= mid <= hi,
    ensures
        page_unchanged_outside(a, c, all, lo, hi),
{
    assert forall|x: nat| !all.contains(x) && !(lo <= x < hi) implies (#[trigger] c.contains_key(x) <==> a.contains_key(x)) && (
    a.contains_key(x) ==> c[x] == a[x]) by {
        assert(!s1.contains(x));
        assert(!s2.contains(x));
        assert(b.contains_key(x) == a.contains_key(x));
        assert(c.contains_key(x) == b.contains_key(x));
        if a.contains_key(x) {
            assert(b[x] == a[x]);
            assert(c[x] == b[x]);
        }
    }
}

/// Each page node listed as a child of another has that one as its parent in
/// `parents`.
pub open spec fn parents_follow(page: Map<nat, PageNode>, parents: Map<u64, u64>) -> bool {
    forall|x: nat, i: int|
        #![trigger page[x].children[i]]
        page.contains_key(x) && 0 <= i < page[x].children.len() ==> parents.contains_key(page[x].children[i] as u64)
            && parents[page[x].children[i] as u64] as nat == x
}

/// A tree whose page nodes show it and are arranged as the cache says is
/// held by the page, with the parents that the page gives.
proof fn lemma_holds_from_shows(page: Map<nat, PageNode>, cache: Map<u64, u64>, parents: Map<u64, u64>, n: Node)
    requires
        page_shows(page, cache[spec_node_id(n)] as nat, n),
        page_cached(page, cache, n),
        forall|x: u64| #[trigger] tree_ids(n).contains(x) ==> cache.contains_key(x),
        parents_follow(page, parents),
    ensures
        page_holds(page, cache, parents, n),
    decreases n,
{
    lemma_own_id(n);
    match n {
        Node::Text(_) => {},
        Node::Element(e) => {
            let h = cache[e.id] as nat;
            let cs = e.children@;
            assert forall|x: u64| #[trigger] trees_ids(cs).contains(x) implies cache.contains_key(x) by {
                assert(tree_ids(n).contains(x));
            }
            assert(parented(cache, parents, cs, h)) by {
                assert forall|i: int| 0 <= i < cs.len() implies parents.contains_key(cache[spec_node_id(#[trigger] cs[i])])
                    && parents[cache[spec_node_id(cs[i])]] as nat == h by {
                    assert(page[h].children[i] == cache[spec_node_id(cs[i])] as nat);
                }
            }
            lemma_holds_all_from_shows(page, cache, parents, cs);
        },
    }
}

proof fn lemma_holds_all_from_shows(page: Map<nat, PageNode>, cache: Map<u64, u64>, parents: Map<u64, u64>, cs: Seq<Node>)
    requires
        page_shows_all(page, cached(cache, cs), cs),
        page_cached_all(page, cache, cs),
        forall|x: u64| #[trigger] trees_ids(cs).contains(x) ==> cache.contains_key(x),
        parents_follow(page, parents),
    ensures
        page_holds_all(page, cache, parents, cs),
    decreases cs,
{
    if cs.len() > 0 {
        assert(cached(cache, cs).drop_last() =~= cached(cache, cs.drop_last()));
        assert(cached(cache, cs).last() == cache[spec_node_id(cs.last())] as nat);
        assert(trees_ids(cs) == trees_ids(cs.drop_last()).union(tree_ids(cs.last())));
        assert forall|x: u64| #[trigger] trees_ids(cs.drop_last()).contains(x) implies cache.contains_key(x) by {
            assert(trees_ids(cs).contains(x));
        }
        assert forall|x: u64| #[trigger] tree_ids(cs.last()).contains(x) implies cache.contains_key(x) by {
            assert(trees_ids(cs).contains(x));
        }
        lemma_holds_all_from_shows(page, cache, parents, cs.drop_last());
        lemma_holds_from_shows(page, cache, parents, cs.last());
    }
}

/// Below the root, the page node of each node of a tree arranged as the
/// cache says has a parent in `parents`.
proof fn lemma_cached_parents(page: Map<nat, PageNode>, cache: Map<u64, u64>, parents: Map<u64, u64>, n: Node)
    requires
        page_cached(page, cache, n),
        parents_follow(page, parents),
    ensures
        forall|x: u64| #[trigger] tree_ids(n).contains(x) && x != spec_node_id(n) ==> parents.contains_key(cache[x]),
    decreases n,
{
    match n {
        Node::Text(_) => {},
        Node::Element(e) => {
            let h = cache[e.id] as nat;
            let cs = e.children@;
            lemma_cached_parents_all(page, cache, parents, cs);
            assert forall|x: u64| #[trigger] tree_ids(n).contains(x) && x != spec_node_id(n) implies parents.contains_key(
                cache[x],
            ) by {
                assert(trees_ids(cs).contains(x));
                let i = choose|i: int| 0 <= i < cs.len() && #[trigger] tree_ids(cs[i]).contains(x);
                if x == spec_node_id(cs[i]) {
                    assert(page[h].children[i] == cache[spec_node_id(cs[i])] as nat);
                }
            }
        },
    }
}

proof fn lemma_cached_parents_all(page: Map<nat, PageNode>, cache: Map<u64, u64>, parents: Map<u64, u64>, cs: Seq<Node>)
    requires
        page_cached_all(page, cache, cs),
        parents_follow(page, parents),
    ensures
        forall|x: u64, i: int|
            0 <= i < cs.len() && #[trigger] tree_ids(cs[i]).contains(x) && x != spec_node_id(cs[i]) ==> parents.contains_key(
                cache[x],
            ),
        forall|x: u64| #[trigger] trees_ids(cs).contains(x) ==> exists|i: int| 0 <= i < cs.len() && #[trigger] tree_ids(cs[i]).contains(x),
    decreases cs,
{
    if cs.len() > 0 {
        lemma_cached_parents_all(page, cache, parents, cs.drop_last());
        lemma_cached_parents(page, cache, parents, cs.last());
        assert forall|x: u64, i: int|
            0 <= i < cs.len() && #[trigger] tree_ids(cs[i]).contains(x) && x != spec_node_id(cs[i]) implies parents.contains_key(
                cache[x],
            ) by {
            if i < cs.len() - 1 {
                assert(cs.drop_last()[i] == cs[i]);
            }
        }
        assert forall|x: u64| #[trigger] trees_ids(cs).contains(x) implies exists|i: int| 0 <= i < cs.len() && #[trigger] tree_ids(
            cs[i],
        ).contains(x) by {
            if trees_ids(cs.drop_last()).contains(x) {
                let i = choose|i: int| 0 <= i < cs.drop_last().len() && #[trigger] tree_ids(cs.drop_last()[i]).contains(x);
                assert(cs.drop_last()[i] == cs[i]);
            } else {
                assert(tree_ids(cs[cs.len() - 1]).contains(x));
            }
        }
    }
}

proof fn lemma_replace_value_contains(s: Seq<nat>, old: nat, new: nat)
    requires
        s.contains(old),
    ensures
        replace_value(s, old, new).contains(new),
    decreases s.len(),
{
    if s.last() == old {
        assert(replace_value(s, old, new).last() == new);
    } else {
        let i = choose|i: int| 0 <= i < s.len() && s[i] == old;
        assert(s.drop_last()[i] == old);
        lemma_replace_value_contains(s.drop_last(), old, new);
        let j = choose|j: int| 0 <= j < replace_value(s.drop_last(), old, new).len() && replace_value(s.drop_last(), old, new)[j] == new;
        assert(replace_value(s, old, new)[j] == new);
    }
}

/// Comparing keeps the page holding the tree on display: where
/// `law_diff_page` applies, the old root's page node is a child of `p`, and
/// `parents2` gives the parent of each page node that is a child after the
/// operations, the page then holds the new tree through the cache, its page
/// nodes distinct, below the next free handle and other than `p`, each with
/// a parent and the root's being `p`: what the next comparison asks of the
/// tree on display.
pub proof fn law_diff_keeps_holding(
    base: Map<nat, PageNode>,
    old: Node,
    new: Node,
    s: MState,
    parents: Map<u64, u64>,
    p: nat,
    parents2: Map<u64, u64>,
)
    requires
        ids_distinct(old),
        ids_distinct(new),
        diff_ready(tree_ids(old), tree_ids(new), s, parents),
        page_holds(apply_ops(base, s.ops), s.cache, parents, old),
        handles_distinct(s.cache, old),
        forall|x: nat| #[trigger] tree_handles(s.cache, old).contains(x) ==> x < s.next,
        page_fresh(apply_ops(base, s.ops), s.next),
        attrs_unique(new),
        parents[s.cache[spec_node_id(old)]] as nat == p,
        !tree_handles(s.cache, old).contains(p),
        p < s.next,
        s.next + tree_size(new) <= u64::MAX,
        apply_ops(base, s.ops).contains_key(p),
        apply_ops(base, s.ops)[p].children.contains(s.cache[spec_node_id(old)] as nat),
        parents_follow(apply_ops(base, diff_spec(old, new, s, parents).ops), parents2),
    ensures
        ({
            let r = diff_spec(old, new, s, parents);
            let after = apply_ops(base, r.ops);
            &&& r.ok
            &&& page_holds(after, r.cache, parents2, new)
            &&& handles_distinct(r.cache, new)
            &&& forall|x: nat| #[trigger] tree_handles(r.cache, new).contains(x) ==> x < r.next
            &&& page_fresh(after, r.next)
            &&& !tree_handles(r.cache, new).contains(p)
            &&& p < r.next
            &&& forall|x: u64| #[trigger] tree_ids(new).contains(x) ==> r.cache.contains_key(x) && parents2.contains_key(r.cache[x])
            &&& parents2[r.cache[spec_node_id(new)]] as nat == p
            &&& after.contains_key(p)
            &&& after[p].children.contains(r.cache[spec_node_id(new)] as nat)
            &&& page_shows(after, r.cache[spec_node_id(new)] as nat, new)
        }),
{
    let r = diff_spec(old, new, s, parents);
    let before = apply_ops(base, s.ops);
    let after = apply_ops(base, r.ops);
    let h0 = s.cache[spec_node_id(old)] as nat;
    let h1 = r.cache[spec_node_id(new)] as nat;
    law_diff_page(base, old, new, s, parents, p);
    law_diff_finds_every_node(old, new, s, parents);
    lemma_own_id(new);
    reveal(settled);
    assert forall|x: nat| #[trigger] tree_handles(r.cache, new).contains(x) implies x < r.next && x != p by {
        if tree_handles(s.cache, old).contains(x) {
            assert(x < s.next);
        }
    }
    lemma_holds_from_shows(after, r.cache, parents2, new);
    lemma_replace_value_contains(before[p].children, h0, h1);
    let i = choose|i: int| 0 <= i < after[p].children.len() && after[p].children[i] == h1;
    assert(after[p].children[i] == h1);
    assert(r.cache.contains_key(spec_node_id(new)));
    assert((h1 as u64) == r.cache[spec_node_id(new)]);
    lemma_cached_parents(after, r.cache, parents2, new);
}

/// The page holds the view that `app` shows under the page node `p`: through
/// the application's cache, with the parents that `parents` gives; the page
/// nodes of the view are distinct, below the next free handle and other than
/// `p`, whose children include the root's; no page node from the next free
/// handle on exists. This is what comparing the view with the next one asks.
pub open spec fn app_held(page: Map<nat, PageNode>, app: App, parents: Map<u64, u64>, p: nat) -> bool {
    let cache = app.dom.caches@;
    let next = app.dom.next as nat;
    let view = app.view;
    let root = cache[spec_node_id(view)];
    &&& ids_distinct(view)
    &&& page_holds(page, cache, parents, view)
    &&& handles_distinct(cache, view)
    &&& forall|x: nat| #[trigger] tree_handles(cache, view).contains(x) ==> x < next
    &&& page_fresh(page, next)
    &&& !tree_handles(cache, view).contains(p)
    &&& p < next
    &&& page.contains_key(p)
    &&& page[p].children.contains(root as nat)
    &&& parents[root] as nat == p
    &&& forall|x: u64| #[trigger] tree_ids(view).contains(x) ==> cache.contains_key(x) && parents.contains_key(cache[x])
}

/// Mounting an application on the page node `p` leaves a page that shows
/// and holds its first view: where the page has `p` and no node from
/// `p + 1` on, and `parents` gives the parent of each page node that is a
/// child after the operations that `mount` returns.
pub proof fn law_mount_held(page: Map<nat, PageNode>, p: nat, app: App, ops: Seq<OpView>, parents: Map<u64, u64>)
    requires
        page.contains_key(p),
        page_fresh(page, p + 1),
        p + 2 <= u64::MAX,
        app.view is Text,
        app.view->Text_0.value@ == mount_text(),
        ops == seq![
            OpView::CreateTextNode { node: p + 1, data: mount_text() },
            OpView::AppendChild { parent: p, child: p + 1 },
        ],
        app.dom.caches@ == Map::<u64, u64>::empty().insert(app.view->Text_0.id, (p + 1) as u64),
        app.dom.next == p + 2,
        parents_follow(apply_ops(page, ops), parents),
    ensures
        page_shows(apply_ops(page, ops), p + 1, app.view),
        app_held(apply_ops(page, ops), app, parents, p),
{
    let view = app.view;
    let cache = app.dom.caches@;
    let t = view->Text_0;
    let op1 = OpView::CreateTextNode { node: p + 1, data: mount_text() };
    let op2 = OpView::AppendChild { parent: p, child: p + 1 };
    assert(ops.drop_last() =~= seq![op1]);
    assert(ops.drop_last().drop_last() =~= Seq::<OpView>::empty());
    assert(apply_ops(page, Seq::<OpView>::empty()) == page);
    assert(ops.drop_last().last() == op1);
    let p1 = apply_op(page, op1);
    assert(apply_ops(page, ops.drop_last()) == p1);
    let after = apply_ops(page, ops);
    assert(after == apply_op(p1, op2));
    assert(p1.contains_key(p) && p1[p] == page[p]);
    assert(after[p].children == page[p].children.push(p + 1));
    assert(after[p].children[page[p].children.len() as int] == p + 1);
    assert(cache[t.id] as nat == p + 1);
    assert(tree_ids(view) =~= Set::<u64>::empty().insert(t.id));
    assert(tree_handles(cache, view) =~= Set::<nat>::empty().insert(p + 1));
    assert(page_holds(after, cache, parents, view));
}

/// Every rendering of a mounted application keeps the page in step with it:
/// where the page holds the view on display under `p`, and the new view's
/// identities are distinct and fresh and its elements name no attribute
/// twice, the operations that `App::render` returns leave a page whose node
/// for the new view shows it, and that holds the application that
/// `App::render` leaves, with any `parents2` that gives the parent of each
/// page node that is a child afterwards.
pub proof fn law_app_render(
    page: Map<nat, PageNode>,
    before: App,
    after: App,
    view: Node,
    parents: Map<u64, u64>,
    p: nat,
    parents2: Map<u64, u64>,
)
    requires
        app_held(page, before, parents, p),
        ids_distinct(view),
        tree_ids(before.view).disjoint(tree_ids(view)),
        attrs_unique(view),
        before.dom.next + tree_size(view) <= u64::MAX,
        ({
            let r = diff_spec(
                before.view,
                view,
                MState { ops: Seq::empty(), cache: before.dom.caches@, next: before.dom.next as nat, ok: true },
                parents,
            );
            &&& after.view == view
            &&& after.dom.caches@ == r.cache
            &&& after.dom.next == r.next
            &&& parents_follow(apply_ops(page, r.ops), parents2)
        }),
    ensures
        ({
            let r = diff_spec(
                before.view,
                view,
                MState { ops: Seq::empty(), cache: before.dom.caches@, next: before.dom.next as nat, ok: true },
                parents,
            );
            &&& r.ok
            &&& page_shows(apply_ops(page, r.ops), r.cache[spec_node_id(view)] as nat, view)
            &&& app_held(apply_ops(page, r.ops), after, parents2, p)
        }),
{
    let s = MState { ops: Seq::empty(), cache: before.dom.caches@, next: before.dom.next as nat, ok: true };
    assert(apply_ops(page, s.ops) == page);
    assert(diff_ready(tree_ids(before.view), tree_ids(view), s, parents));
    law_diff_keeps_holding(page, before.view, view, s, parents, p, parents2);
}

/// Mounting an application with a first view on the page node `p` leaves a
/// page that shows and holds that view: where the page has `p` and no node
/// from `p + 1` on, the view's identities are distinct, and `parents` gives
/// the parent of each page node that is a child after the operations that
/// `scene` returns.
pub proof fn law_first_view_held(page: Map<nat, PageNode>, p: nat, app: App, ops: Seq<OpView>, parents: Map<u64, u64>)
    requires
        page.contains_key(p),
        page_fresh(page, p + 1),
        ids_distinct(app.view),
        p + 1 + tree_size(app.view) <= u64::MAX,
        ({
            let rr = render_spec(app.view, MState { ops: Seq::empty(), cache: Map::empty(), next: p + 1, ok: true });
            &&& ops == rr.0.ops.push(OpView::AppendChild { parent: p, child: rr.1 })
            &&& app.dom.caches@ == rr.0.cache
            &&& app.dom.next == rr.0.next
        }),
        parents_follow(apply_ops(page, ops), parents),
    ensures
        page_shows(apply_ops(page, ops), app.dom.caches@[spec_node_id(app.view)] as nat, app.view),
        app_held(apply_ops(page, ops), app, parents, p),
{
    let view = app.view;
    let s = MState { ops: Seq::empty(), cache: Map::empty(), next: p + 1, ok: true };
    let rr = render_spec(view, s);
    let cache = rr.0.cache;
    assert(apply_ops(page, s.ops) == page);
    law_render_page(page, view, s);
    lemma_render_cached(page, view, s);
    law_render_caches_every_node(view, s);
    crate::meow::lemma_render_next(view, s);
    let mid = apply_ops(page, rr.0.ops);
    let op = OpView::AppendChild { parent: p, child: rr.1 };
    assert(ops.drop_last() == rr.0.ops);
    assert(ops.last() == op);
    let after = apply_ops(page, ops);
    assert(after == apply_op(mid, op));
    assert(mid.contains_key(p) && mid[p] == page[p]);
    assert(after[p].children == mid[p].children.push(rr.1));
    assert(after[p].children[mid[p].children.len() as int] == rr.1);
    assert(cache[spec_node_id(view)] as nat == rr.1);
    assert(pages_agree(mid, after, page_footprint(mid, rr.1, view))) by {
        assert forall|x: nat| #[trigger] page_footprint(mid, rr.1, view).contains(x) implies x != p by {}
    }
    lemma_page_shows_frame(mid, after, rr.1, view);
    assert(pages_agree(mid, after, tree_handles(cache, view))) by {
        assert forall|x: nat| #[trigger] tree_handles(cache, view).contains(x) implies x != p by {}
    }
    lemma_page_cached_frame(mid, after, cache, cache, view);
    lemma_holds_from_shows(after, cache, parents, view);
    lemma_cached_parents(after, cache, parents, view);
    assert(page_fresh(after, rr.0.next));
}

} // verus!
