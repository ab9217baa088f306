use siro::attr::{attribute, class};
use siro::html::{div, li, ul};
use siro::node::{iter, text, Node};
use siro::render::{Patch, Scene, VNode};
use siro::types::Attribute;
use std::collections::{BTreeMap, HashMap};

/// A document that performs the operations of the engine.
#[derive(Default)]
struct Document {
    kinds: HashMap<u64, String>,
    attrs: HashMap<u64, BTreeMap<String, String>>,
    children: HashMap<u64, Vec<u64>>,
}

impl Document {
    fn with_root(root: u64) -> Self {
        let mut d = Document::default();
        d.kinds.insert(root, "#root".to_string());
        d.children.insert(root, Vec::new());
        d
    }

    fn apply(&mut self, p: &Patch<()>) {
        match p {
            Patch::CreateElement { node, tag_name, .. } => {
                self.kinds.insert(*node, tag_name.clone());
                self.attrs.insert(*node, BTreeMap::new());
                self.children.insert(*node, Vec::new());
            }
            Patch::CreateTextNode { node, data } => {
                self.kinds.insert(*node, format!("#text:{}", data));
                self.children.insert(*node, Vec::new());
            }
            Patch::AppendChild { parent, child } => self.children.get_mut(parent).unwrap().push(*child),
            Patch::RemoveChild { parent, child } => {
                let c = self.children.get_mut(parent).unwrap();
                let i = c.iter().position(|x| x == child).unwrap();
                c.remove(i);
            }
            Patch::SetAttribute { node, name, value } => {
                self.attrs.get_mut(node).unwrap().insert(name.clone(), value.clone());
            }
            Patch::RemoveAttribute { node, name } => {
                self.attrs.get_mut(node).unwrap().remove(name);
            }
            Patch::SetData { node, data } => {
                self.kinds.insert(*node, format!("#text:{}", data));
            }
            _ => {}
        }
    }

    /// The tree under `h`, written out.
    fn show(&self, h: u64) -> String {
        let mut s = self.kinds[&h].clone();
        if let Some(a) = self.attrs.get(&h) {
            for (k, v) in a {
                s += &format!(" {}={:?}", k, v);
            }
        }
        let kids: Vec<String> = self.children[&h].iter().map(|c| self.show(*c)).collect();
        if !kids.is_empty() {
            s += &format!("[{}]", kids.join(", "));
        }
        s
    }
}

fn list(items: &[&str], marked: Option<usize>) -> Vec<Node<()>> {
    let lis: Vec<_> = items
        .iter()
        .enumerate()
        .map(|(i, t)| {
            let a = if Some(i) == marked { Some(class("on".to_string())) } else { None };
            li(a, text::<()>(t.to_string()))
        })
        .collect();
    siro::node::collect_nodes(div(
        attribute("id".to_string(), Attribute::String("app".to_string())),
        ul((), iter(lis)),
    ))
}

#[test]
fn the_document_shows_each_rendering() {
    let mut scene = Scene::new(0, 1);
    let mut doc = Document::with_root(0);
    let steps: Vec<(Vec<&str>, Option<usize>, &str)> = vec![
        (
            vec!["a", "b"],
            None,
            "#root[div class=\"\" id=\"app\" style=\"\"[ul class=\"\" style=\"\"[li class=\"\" style=\"\"[#text:a], li class=\"\" style=\"\"[#text:b]]]]",
        ),
        (
            vec!["a", "c", "d"],
            Some(1),
            "#root[div class=\"\" id=\"app\" style=\"\"[ul class=\"\" style=\"\"[li class=\"\" style=\"\"[#text:a], li class=\"on\" style=\"\"[#text:c], li class=\"\" style=\"\"[#text:d]]]]",
        ),
        (
            vec!["x"],
            None,
            "#root[div class=\"\" id=\"app\" style=\"\"[ul class=\"\" style=\"\"[li class=\"\" style=\"\"[#text:x]]]]",
        ),
    ];
    for (items, marked, expected) in steps {
        let patches: Vec<Patch<()>> = scene.render(iter(list(&items, marked)));
        for p in &patches {
            doc.apply(p);
        }
        assert_eq!(doc.show(0), expected);
    }
}

fn handle(v: &VNode) -> u64 {
    match v {
        VNode::Element(e) => e.node,
        VNode::Text(t) => t.node,
    }
}

/// The document holds the virtual tree `v`: same kinds, and the children of
/// each element are the DOM nodes of its virtual children.
fn holds(doc: &Document, v: &VNode, seen: &mut Vec<u64>) -> bool {
    let h = handle(v);
    if seen.contains(&h) {
        return false;
    }
    seen.push(h);
    match v {
        VNode::Text(t) => doc.kinds.get(&h) == Some(&format!("#text:{}", t.data)),
        VNode::Element(e) => {
            let ids: Vec<u64> = e.children.iter().map(handle).collect();
            doc.kinds.get(&h) == Some(&e.tag_name)
                && doc.children[&h] == ids
                && e.children.iter().all(|c| holds(doc, c, seen))
        }
    }
}

#[test]
fn the_document_holds_each_rendering() {
    let mut scene = Scene::new(0, 1);
    let mut doc = Document::with_root(0);
    let steps: Vec<(Vec<&str>, Option<usize>)> =
        vec![(vec!["a", "b"], None), (vec!["a", "c", "d"], Some(1)), (vec!["x"], None), (vec![], Some(0))];
    for (items, marked) in steps {
        let patches: Vec<Patch<()>> = scene.render(iter(list(&items, marked)));
        for p in &patches {
            doc.apply(p);
        }
        let ids: Vec<u64> = scene.vnodes().iter().map(handle).collect();
        assert_eq!(doc.children[&0], ids);
        let mut seen = Vec::new();
        assert!(scene.vnodes().iter().all(|v| holds(&doc, v, &mut seen)));
        assert!(seen.iter().all(|h| *h < scene.next_id()));
        assert!(doc.kinds.keys().all(|h| *h < scene.next_id()));
    }
}

fn child_handles(v: &VNode) -> Vec<u64> {
    match v {
        VNode::Element(e) => e.children.iter().map(handle).collect(),
        VNode::Text(_) => vec![],
    }
}

/// The `<ul>` under the `<div>` that `list` describes.
fn list_items(scene: &Scene) -> Vec<u64> {
    match &scene.vnodes()[0] {
        VNode::Element(div) => child_handles(&div.children[0]),
        VNode::Text(_) => panic!("expected an element"),
    }
}

#[test]
fn children_are_compared_one_position_after_another() {
    let mut scene = Scene::new(0, 1);
    let _: Vec<Patch<()>> = scene.render(iter(list(&["a", "b"], None)));
    let before = list_items(&scene);
    let next = scene.next_id();
    let _: Vec<Patch<()>> = scene.render(iter(list(&["a", "b", "c"], None)));
    let after = list_items(&scene);
    assert_eq!(after.len(), 3);
    assert_eq!(&after[..2], &before[..]);
    assert_eq!(after[2], next);
}
