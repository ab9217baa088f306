use siro::attr::{attribute, event};
use siro::event::EventDecoder;
use siro::html::button;
use siro::html::event::OnAny;
use siro::mailbox::MapDecoder;
use siro::mapping::{map_nodes, MapElementRenderer};
use siro::node::{collect_nodes, text, Node};
use siro::render::{Patch, Scene};
use siro::types::Attribute;

fn one() -> i32 {
    1
}

fn double(x: i32) -> i64 {
    (x as i64) * 2
}

#[test]
fn mapped_nodes_wrap_every_decoder() {
    let view = button(
        (attribute("id".to_string(), Attribute::String("b".to_string())), event("click".to_string(), OnAny { f: one as fn() -> i32 })),
        text("press".to_string()),
    );
    let mut scene = Scene::new(0, 1);
    let patches: Vec<Patch<MapDecoder<OnAny<fn() -> i32>, fn(i32) -> i64>>> =
        scene.render(map_nodes(view, double as fn(i32) -> i64));
    assert_eq!(patches.len(), 8);
    match &patches[2] {
        Patch::AddListener { node, event_type, decoder } => {
            assert_eq!(*node, 1);
            assert_eq!(event_type, "click");
            assert_eq!(EventDecoder::<()>::decode_event(decoder, ()), Some(2));
        }
        _ => panic!("expected a listener"),
    }
    assert!(matches!(&patches[1], Patch::SetAttribute { name, value, .. } if name == "id" && value == "b"));
}

#[test]
fn mapping_keeps_the_tree() {
    let renderer = MapElementRenderer { f: double as fn(i32) -> i64 };
    let nodes: Vec<Node<OnAny<fn() -> i32>>> = collect_nodes(button(
        event("click".to_string(), OnAny { f: one as fn() -> i32 }),
        (text("a".to_string()), text("b".to_string())),
    ));
    let mapped = renderer.node(nodes.into_iter().next().unwrap());
    match mapped {
        Node::Element(e) => {
            assert_eq!(e.tag_name, "button");
            assert_eq!(e.children.len(), 2);
            assert!(matches!(&e.children[1], Node::Text(t) if t == "b"));
            assert_eq!(e.attrs.len(), 1);
        }
        Node::Text(_) => panic!("expected an element"),
    }
}
