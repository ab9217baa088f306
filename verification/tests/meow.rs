use siro::meow::{
    diff, diff_succeeds, element, mount, render, scene, text, tree_count, Dom, Element, Node, NodeCaches, NodeIds, Op,
};
use std::collections::HashMap;

fn s(v: &str) -> String {
    v.to_string()
}

fn attrs(e: &Element) -> Vec<(String, String)> {
    e.attrs.clone()
}

#[test]
fn identities_are_fresh() {
    let mut ids = NodeIds::new();
    assert_eq!(ids.peek(), 0);
    let a = element(s("div"), &mut ids);
    let b = text(s("x"), &mut ids);
    assert_eq!(a.id, 0);
    assert_eq!(b.id, 1);
    assert_eq!(ids.peek(), 2);
}

#[test]
fn attributes_replace_in_place() {
    let mut ids = NodeIds::new();
    let e = element(s("a"), &mut ids)
        .attr(s("href"), s("/x"))
        .attr(s("title"), s("t"))
        .attr(s("href"), s("/y"));
    assert_eq!(attrs(&e), vec![(s("href"), s("/y")), (s("title"), s("t"))]);
}

#[test]
fn mount_shows_the_placeholder_text() {
    let mut ids = NodeIds::new();
    let (app, ops) = mount(0, &mut ids);
    assert_eq!(
        ops,
        vec![
            Op::CreateTextNode { node: 1, data: s("Now rendering...") },
            Op::AppendChild { parent: 0, child: 1 },
        ]
    );
    assert_eq!(app.dom.next, 2);
    match &app.view {
        Node::Text(t) => assert_eq!(t.value, "Now rendering..."),
        Node::Element(_) => panic!("expected a text node"),
    }
}

fn sample(ids: &mut NodeIds, label: &str, items: usize) -> Node {
    let mut list = element(s("ul"), ids).attr(s("class"), s("list"));
    for i in 0..items {
        let li = element(s("li"), ids).child(Node::Text(text(format!("{}", i), ids)));
        list = list.child(Node::Element(li));
    }
    Node::Element(element(s("div"), ids).child(Node::Text(text(s(label), ids))).child(Node::Element(list)))
}

#[test]
fn rendering_creates_and_caches_every_node() {
    let mut ids = NodeIds::new();
    let view = sample(&mut ids, "a", 1);
    assert_eq!(tree_count(&view), Some(5));
    let mut dom = Dom::new(10);
    let root = render(&view, &mut dom);
    assert_eq!(root, 10);
    assert_eq!(
        dom.ops,
        vec![
            Op::CreateElement { node: 10, tag_name: s("div") },
            Op::CreateTextNode { node: 11, data: s("a") },
            Op::AppendChild { parent: 10, child: 11 },
            Op::CreateElement { node: 12, tag_name: s("ul") },
            Op::SetAttribute { node: 12, name: s("class"), value: s("list") },
            Op::CreateElement { node: 13, tag_name: s("li") },
            Op::CreateTextNode { node: 14, data: s("0") },
            Op::AppendChild { parent: 13, child: 14 },
            Op::AppendChild { parent: 12, child: 13 },
            Op::AppendChild { parent: 10, child: 12 },
        ]
    );
    assert_eq!(dom.next, 15);
}

#[test]
fn comparing_updates_text_and_children() {
    let mut ids = NodeIds::new();
    let old = sample(&mut ids, "a", 2);
    let new = sample(&mut ids, "b", 1);
    let mut dom = Dom::new(1);
    render(&old, &mut dom);
    dom.ops.clear();
    let parents: HashMap<u64, u64> = HashMap::new();
    assert!(diff_succeeds(&old, &new, &dom, &parents));
    diff(&old, &new, &mut dom, &parents);
    assert_eq!(
        dom.ops,
        vec![
            Op::SetData { node: 2, data: s("b") },
            Op::RemoveChild { parent: 3, child: 6 },
        ]
    );
}

#[test]
fn comparing_adds_missing_children_and_attributes() {
    let mut ids = NodeIds::new();
    let old = sample(&mut ids, "a", 0);
    let mut list = element(s("ul"), &mut ids).attr(s("id"), s("l"));
    let li = element(s("li"), &mut ids);
    list = list.child(Node::Element(li));
    let new = Node::Element(
        element(s("div"), &mut ids).child(Node::Text(text(s("a"), &mut ids))).child(Node::Element(list)),
    );
    let mut dom = Dom::new(1);
    render(&old, &mut dom);
    dom.ops.clear();
    let parents: HashMap<u64, u64> = HashMap::new();
    assert!(diff_succeeds(&old, &new, &dom, &parents));
    diff(&old, &new, &mut dom, &parents);
    assert_eq!(
        dom.ops,
        vec![
            Op::SetAttribute { node: 3, name: s("id"), value: s("l") },
            Op::RemoveAttribute { node: 3, name: s("class") },
            Op::CreateElement { node: 4, tag_name: s("li") },
            Op::AppendChild { parent: 3, child: 4 },
        ]
    );
    assert_eq!(dom.next, 5);
}

#[test]
fn a_node_of_another_kind_replaces_the_old_one_where_it_has_a_parent() {
    let mut ids = NodeIds::new();
    let old = Node::Text(text(s("x"), &mut ids));
    let new = Node::Element(element(s("p"), &mut ids));
    let mut dom = Dom::new(1);
    render(&old, &mut dom);
    dom.ops.clear();
    let mut parents: HashMap<u64, u64> = HashMap::new();
    parents.insert(1, 0);
    assert!(diff_succeeds(&old, &new, &dom, &parents));
    diff(&old, &new, &mut dom, &parents);
    assert_eq!(
        dom.ops,
        vec![
            Op::CreateElement { node: 2, tag_name: s("p") },
            Op::ReplaceChild { parent: 0, new_child: 2, old_child: 1 },
        ]
    );

    let old2 = Node::Text(text(s("y"), &mut ids));
    let new2 = Node::Element(element(s("p"), &mut ids));
    let mut dom2 = Dom::new(1);
    render(&old2, &mut dom2);
    dom2.ops.clear();
    assert!(diff_succeeds(&old2, &new2, &dom2, &HashMap::new()));
    diff(&old2, &new2, &mut dom2, &HashMap::new());
    assert!(dom2.ops.is_empty());
}

#[test]
fn a_node_missing_from_the_cache_is_reported() {
    let mut ids = NodeIds::new();
    let old = Node::Text(text(s("x"), &mut ids));
    let new = Node::Text(text(s("y"), &mut ids));
    let dom = Dom::new(1);
    assert!(!diff_succeeds(&old, &new, &dom, &HashMap::new()));
    assert!(dom.ops.is_empty());
}

#[test]
fn the_same_node_is_left_alone() {
    let mut ids = NodeIds::new();
    let view = sample(&mut ids, "a", 2);
    let mut dom = Dom::new(1);
    assert!(diff_succeeds(&view, &view, &dom, &HashMap::new()));
    diff(&view, &view, &mut dom, &HashMap::new());
    assert!(dom.ops.is_empty());
}

#[test]
fn the_app_renders_new_views() {
    let mut ids = NodeIds::new();
    let (mut app, _) = mount(0, &mut ids);
    let mut parents: HashMap<u64, u64> = HashMap::new();
    parents.insert(1, 0);
    let view = Node::Element(element(s("h1"), &mut ids).child(Node::Text(text(s("hi"), &mut ids))));
    assert!(app.render_succeeds(&view, &parents));
    let (ops, _) = app.render(view, &parents);
    assert_eq!(
        ops,
        vec![
            Op::CreateElement { node: 2, tag_name: s("h1") },
            Op::CreateTextNode { node: 3, data: s("hi") },
            Op::AppendChild { parent: 2, child: 3 },
            Op::ReplaceChild { parent: 0, new_child: 2, old_child: 1 },
        ]
    );
    assert!(app.dom.ops.is_empty());
    let mut parents: HashMap<u64, u64> = HashMap::new();
    parents.insert(2, 0);
    parents.insert(3, 2);
    let view = Node::Element(element(s("h1"), &mut ids).child(Node::Text(text(s("ho"), &mut ids))));
    assert!(app.render_succeeds(&view, &parents));
    let (ops, _) = app.render(view, &parents);
    assert_eq!(ops, vec![Op::SetData { node: 3, data: s("ho") }]);
}

#[test]
fn caches_set_and_remove() {
    let mut c = NodeCaches::default();
    c.set(1, 10);
    c.set(2, 20);
    assert_eq!(c.remove(1), Some(10));
    assert_eq!(c.remove(1), None);
    assert_eq!(c.remove(2), Some(20));
}

#[derive(Clone, Debug, PartialEq)]
enum PageKind {
    Element(String),
    Text(String),
}

#[derive(Clone, Debug)]
struct PageNode {
    kind: PageKind,
    attrs: Vec<(String, String)>,
    children: Vec<u64>,
}

fn apply_page_ops(page: &mut HashMap<u64, PageNode>, ops: &[Op]) {
    for op in ops {
        match op {
            Op::CreateElement { node, tag_name } => {
                page.insert(*node, PageNode { kind: PageKind::Element(tag_name.clone()), attrs: vec![], children: vec![] });
            }
            Op::CreateTextNode { node, data } => {
                page.insert(*node, PageNode { kind: PageKind::Text(data.clone()), attrs: vec![], children: vec![] });
            }
            Op::SetAttribute { node, name, value } => {
                let nd = page.get_mut(node).unwrap();
                nd.attrs.retain(|(k, _)| k != name);
                nd.attrs.push((name.clone(), value.clone()));
            }
            Op::RemoveAttribute { node, name } => {
                page.get_mut(node).unwrap().attrs.retain(|(k, _)| k != name);
            }
            Op::AppendChild { parent, child } => page.get_mut(parent).unwrap().children.push(*child),
            Op::RemoveChild { parent, child } => page.get_mut(parent).unwrap().children.retain(|c| c != child),
            Op::ReplaceChild { parent, new_child, old_child } => {
                for c in page.get_mut(parent).unwrap().children.iter_mut() {
                    if c == old_child {
                        *c = *new_child;
                    }
                }
            }
            Op::SetData { node, data } => page.get_mut(node).unwrap().kind = PageKind::Text(data.clone()),
        }
    }
}

fn page_shows(page: &HashMap<u64, PageNode>, h: u64, n: &Node) -> bool {
    let nd = match page.get(&h) {
        Some(nd) => nd,
        None => return false,
    };
    match n {
        Node::Text(t) => nd.kind == PageKind::Text(t.value.clone()),
        Node::Element(e) => {
            let mut have = nd.attrs.clone();
            let mut want = e.attrs.clone();
            have.sort();
            want.sort();
            nd.kind == PageKind::Element(e.tag_name.clone())
                && have == want
                && nd.children.len() == e.children.len()
                && nd.children.iter().zip(e.children.iter()).all(|(c, n)| page_shows(page, *c, n))
        }
    }
}

fn parents_of(page: &HashMap<u64, PageNode>) -> HashMap<u64, u64> {
    let mut parents = HashMap::new();
    for (h, nd) in page {
        for c in &nd.children {
            parents.insert(*c, *h);
        }
    }
    parents
}

#[test]
fn the_page_shows_the_rendered_and_then_the_compared_tree() {
    let mut ids = NodeIds::new();
    let li = |label: &str, ids: &mut NodeIds| {
        Node::Element(element(s("li"), ids).child(Node::Text(text(s(label), ids))))
    };
    let old = {
        let a = Node::Text(text(s("a"), &mut ids));
        let l0 = li("0", &mut ids);
        let l1 = li("1", &mut ids);
        let ul = element(s("ul"), &mut ids).attr(s("class"), s("list")).child(l0).child(l1);
        let p = element(s("p"), &mut ids);
        Node::Element(
            element(s("div"), &mut ids)
                .attr(s("class"), s("a"))
                .child(a)
                .child(Node::Element(ul))
                .child(Node::Element(p)),
        )
    };
    let new = {
        let span = element(s("span"), &mut ids).child(Node::Text(text(s("s"), &mut ids)));
        let l0 = li("9", &mut ids);
        let ul = element(s("ul"), &mut ids).attr(s("id"), s("l")).child(l0);
        let p = element(s("p"), &mut ids);
        let end = Node::Text(text(s("end"), &mut ids));
        Node::Element(
            element(s("div"), &mut ids)
                .attr(s("title"), s("t"))
                .child(Node::Element(span))
                .child(Node::Element(ul))
                .child(Node::Element(p))
                .child(end),
        )
    };
    let mut page: HashMap<u64, PageNode> = HashMap::new();
    page.insert(0, PageNode { kind: PageKind::Element(s("body")), attrs: vec![], children: vec![] });
    let mut dom = Dom::new(1);
    render(&old, &mut dom);
    apply_page_ops(&mut page, &dom.ops);
    assert!(page_shows(&page, 1, &old));
    apply_page_ops(&mut page, &[Op::AppendChild { parent: 0, child: 1 }]);
    dom.ops.clear();
    let before = dom.next;
    assert!(diff_succeeds(&old, &new, &dom, &parents_of(&page)));
    diff(&old, &new, &mut dom, &parents_of(&page));
    apply_page_ops(&mut page, &dom.ops);
    assert!(page_shows(&page, 1, &new));
    assert!(!page_shows(&page, 1, &old));
    assert_eq!(page[&0].children, vec![1]);
    assert!(dom.next > before);

    // and again, from the page that the comparison left
    let newer = {
        let em = element(s("em"), &mut ids).child(Node::Text(text(s("e"), &mut ids)));
        let ul = element(s("ul"), &mut ids).child(li("7", &mut ids)).child(li("8", &mut ids));
        Node::Element(
            element(s("div"), &mut ids)
                .attr(s("title"), s("u"))
                .child(Node::Element(em))
                .child(Node::Element(ul)),
        )
    };
    dom.ops.clear();
    assert!(diff_succeeds(&new, &newer, &dom, &parents_of(&page)));
    diff(&new, &newer, &mut dom, &parents_of(&page));
    apply_page_ops(&mut page, &dom.ops);
    assert!(page_shows(&page, 1, &newer));
    assert_eq!(page[&0].children, vec![1]);
}

#[test]
fn the_page_follows_the_app_from_mount_on() {
    let mut ids = NodeIds::new();
    let mut page: HashMap<u64, PageNode> = HashMap::new();
    page.insert(0, PageNode { kind: PageKind::Element(s("body")), attrs: vec![], children: vec![] });
    let (mut app, ops) = mount(0, &mut ids);
    apply_page_ops(&mut page, &ops);
    assert_eq!(page[&0].children, vec![1]);
    assert!(page_shows(&page, 1, &app.view));
    let views: Vec<Node> = vec![
        sample(&mut ids, "one", 2),
        sample(&mut ids, "two", 3),
        Node::Text(text(s("plain"), &mut ids)),
        sample(&mut ids, "three", 1),
    ];
    for view in views {
        let expected = sample_like(&view);
        assert!(app.render_succeeds(&view, &parents_of(&page)));
        let (ops, _) = app.render(view, &parents_of(&page));
        apply_page_ops(&mut page, &ops);
        assert_eq!(page[&0].children.len(), 1);
        let root = page[&0].children[0];
        assert!(page_shows(&page, root, &app.view));
        assert!(page_shows(&page, root, &expected));
    }
}

/// A copy of `n` with identities of its own.
fn sample_like(n: &Node) -> Node {
    match n {
        Node::Text(t) => Node::Text(text(t.value.clone(), &mut NodeIds::new())),
        Node::Element(e) => {
            let mut ids = NodeIds::new();
            let mut c = element(e.tag_name.clone(), &mut ids);
            for (k, v) in &e.attrs {
                c = c.attr(k.clone(), v.clone());
            }
            for child in &e.children {
                c = c.child(sample_like(child));
            }
            Node::Element(c)
        }
    }
}

#[test]
fn a_scene_renders_its_first_view_under_the_mountpoint() {
    let mut ids = NodeIds::new();
    let (app, ops) = scene(5, Node::Text(text(s("x"), &mut ids)));
    assert_eq!(ops, vec![Op::CreateTextNode { node: 6, data: s("x") }, Op::AppendChild { parent: 5, child: 6 }]);
    assert_eq!(app.dom.next, 7);
    assert!(app.dom.ops.is_empty());

    let mut page: HashMap<u64, PageNode> = HashMap::new();
    page.insert(0, PageNode { kind: PageKind::Element(s("body")), attrs: vec![], children: vec![] });
    let first = sample(&mut ids, "first", 2);
    let (mut app, ops) = scene(0, first);
    apply_page_ops(&mut page, &ops);
    assert_eq!(page[&0].children, vec![1]);
    assert!(page_shows(&page, 1, &app.view));
    let next = sample(&mut ids, "next", 1);
    let expected = sample_like(&next);
    assert!(app.render_succeeds(&next, &parents_of(&page)));
    let (ops, _) = app.render(next, &parents_of(&page));
    apply_page_ops(&mut page, &ops);
    assert!(page_shows(&page, 1, &expected));
}

#[test]
fn the_old_root_leaves_the_cache() {
    let mut ids = NodeIds::new();
    let old = sample(&mut ids, "a", 1);
    let new = sample(&mut ids, "b", 1);
    let newer = sample(&mut ids, "c", 1);
    let mut dom = Dom::new(1);
    render(&old, &mut dom);
    assert!(diff_succeeds(&old, &new, &dom, &HashMap::new()));
    diff(&old, &new, &mut dom, &HashMap::new());
    assert!(!diff_succeeds(&old, &newer, &dom, &HashMap::new()));
    assert!(diff_succeeds(&new, &newer, &dom, &HashMap::new()));
}

#[test]
fn rendering_hands_back_the_previous_view() {
    let mut ids = NodeIds::new();
    let (mut app, _) = mount(0, &mut ids);
    let mut parents: HashMap<u64, u64> = HashMap::new();
    parents.insert(1, 0);
    let view = Node::Text(text(s("next"), &mut ids));
    assert!(app.render_succeeds(&view, &parents));
    let (ops, previous) = app.render(view, &parents);
    assert_eq!(ops, vec![Op::SetData { node: 1, data: s("next") }]);
    match previous {
        Node::Text(t) => assert_eq!(t.value, "Now rendering..."),
        Node::Element(_) => panic!("expected a text node"),
    }
    match &app.view {
        Node::Text(t) => assert_eq!(t.value, "next"),
        Node::Element(_) => panic!("expected a text node"),
    }
}
