use siro::attr::{attribute, class, inner_html, property, style};
use siro::html::{div, span};
use siro::node::text;
use siro::render::{count_nodes, Patch, Scene};
use siro::types::{Attribute, Property};

fn s(v: &str) -> String {
    v.to_string()
}

fn set_attr<D>(node: u64, name: &str, value: &str) -> Patch<D> {
    Patch::SetAttribute { node, name: s(name), value: s(value) }
}

fn first_view() -> siro::node::Element<(siro::attr::Attribute, siro::attr::Class), siro::node::Node<()>> {
    div((attribute(s("id"), Attribute::String(s("a"))), class(s("x"))), text(s("hi")))
}

fn mounted() -> Scene {
    let mut scene = Scene::new(0, 1);
    let _: Vec<Patch<()>> = scene.render(first_view());
    scene
}

#[test]
fn render_creates_the_dom() {
    let mut scene = Scene::new(0, 1);
    let patches: Vec<Patch<()>> = scene.render(first_view());
    assert_eq!(
        patches,
        vec![
            Patch::CreateElement { node: 1, tag_name: s("div"), namespace_uri: None },
            set_attr(1, "id", "a"),
            set_attr(1, "class", "x"),
            set_attr(1, "style", ""),
            Patch::CreateTextNode { node: 2, data: s("hi") },
            Patch::AppendChild { parent: 1, child: 2 },
            Patch::AppendChild { parent: 0, child: 1 },
        ]
    );
    assert_eq!(scene.next_id(), 3);
    assert_eq!(scene.mountpoint(), 0);
    assert_eq!(scene.vnodes().len(), 1);
}

#[test]
fn rendering_the_same_view_again_changes_nothing_but_class_and_style() {
    let mut scene = mounted();
    let patches: Vec<Patch<()>> = scene.render(first_view());
    assert_eq!(
        patches,
        vec![Patch::ClearListeners { node: 1 }, set_attr(1, "class", "x"), set_attr(1, "style", "")]
    );
    assert_eq!(scene.next_id(), 3);
}

#[test]
fn a_changed_text_is_set_in_place() {
    let mut scene = mounted();
    let view = div((attribute(s("id"), Attribute::String(s("a"))), class(s("x"))), text::<()>(s("bye")));
    let patches: Vec<Patch<()>> = scene.render(view);
    assert_eq!(
        patches,
        vec![
            Patch::ClearListeners { node: 1 },
            set_attr(1, "class", "x"),
            set_attr(1, "style", ""),
            Patch::SetData { node: 2, data: s("bye") },
        ]
    );
}

#[test]
fn changed_and_dropped_attributes() {
    let mut scene = mounted();
    let view = div(attribute(s("title"), Attribute::String(s("t"))), text::<()>(s("hi")));
    let patches: Vec<Patch<()>> = scene.render(view);
    assert_eq!(
        patches,
        vec![
            Patch::ClearListeners { node: 1 },
            set_attr(1, "title", "t"),
            Patch::RemoveAttribute { node: 1, name: s("id") },
            set_attr(1, "class", ""),
            set_attr(1, "style", ""),
        ]
    );
}

#[test]
fn left_over_children_are_removed() {
    let mut scene = mounted();
    let view = div::<_, ()>(class(s("x")), ());
    let patches: Vec<Patch<()>> = scene.render(view);
    assert_eq!(
        patches,
        vec![
            Patch::ClearListeners { node: 1 },
            Patch::RemoveAttribute { node: 1, name: s("id") },
            set_attr(1, "class", "x"),
            set_attr(1, "style", ""),
            Patch::RemoveChild { parent: 1, child: 2 },
        ]
    );
}

#[test]
fn an_element_of_another_tag_is_created_and_appended() {
    let mut scene = mounted();
    let view = span::<_, _>((), text::<()>(s("new")));
    let patches: Vec<Patch<()>> = scene.render(view);
    assert_eq!(
        patches,
        vec![
            Patch::CreateElement { node: 3, tag_name: s("span"), namespace_uri: None },
            set_attr(3, "class", ""),
            set_attr(3, "style", ""),
            Patch::CreateTextNode { node: 4, data: s("new") },
            Patch::AppendChild { parent: 3, child: 4 },
            Patch::AppendChild { parent: 0, child: 3 },
        ]
    );
    assert_eq!(scene.next_id(), 5);
}

#[test]
fn inner_html_ignores_children() {
    let mut scene = Scene::new(7, 10);
    let view = div(inner_html(s("<b>x</b>")), (text::<()>(s("a")), text::<()>(s("b"))));
    let patches: Vec<Patch<()>> = scene.render(view);
    assert_eq!(
        patches,
        vec![
            Patch::CreateElement { node: 10, tag_name: s("div"), namespace_uri: None },
            Patch::SetInnerHtml { node: 10, inner_html: s("<b>x</b>") },
            set_attr(10, "class", ""),
            set_attr(10, "style", ""),
            Patch::AppendChild { parent: 7, child: 10 },
        ]
    );
    assert_eq!(scene.next_id(), 11);
}

#[test]
fn boolean_attributes_and_properties() {
    let mut scene = Scene::new(0, 1);
    let view = div::<_, ()>(
        (
            attribute(s("disabled"), Attribute::Bool(true)),
            attribute(s("hidden"), Attribute::Bool(false)),
            property(s("value"), Property::String(s("v"))),
        ),
        (),
    );
    let patches: Vec<Patch<()>> = scene.render(view);
    assert_eq!(
        patches,
        vec![
            Patch::CreateElement { node: 1, tag_name: s("div"), namespace_uri: None },
            set_attr(1, "disabled", ""),
            Patch::RemoveAttribute { node: 1, name: s("hidden") },
            Patch::SetProperty { node: 1, name: s("value"), value: Property::String(s("v")) },
            set_attr(1, "class", ""),
            set_attr(1, "style", ""),
            Patch::AppendChild { parent: 0, child: 1 },
        ]
    );
}

#[test]
fn class_names_and_styles_are_joined() {
    let mut scene = Scene::new(0, 1);
    let view = div::<_, ()>(
        (
            class(s("a")),
            class(s("b")),
            class(s("a")),
            style(s("color"), s("red")),
            style(s("width"), s("1px")),
            style(s("color"), s("blue")),
        ),
        (),
    );
    let patches: Vec<Patch<()>> = scene.render(view);
    assert_eq!(patches[1], set_attr(1, "class", "a b"));
    assert_eq!(patches[2], set_attr(1, "style", "color:blue;width:1px"));
}

#[test]
fn unchanged_property_is_not_set_again() {
    let mut scene = Scene::new(0, 1);
    let nan = f64::NAN.to_bits();
    let one = 1.0f64.to_bits();
    let _: Vec<Patch<()>> = scene.render(div::<_, ()>(
        (property(s("n"), Property::Number(one)), property(s("m"), Property::Number(nan))),
        (),
    ));
    let patches: Vec<Patch<()>> = scene.render(div::<_, ()>(
        (property(s("n"), Property::Number(one)), property(s("m"), Property::Number(nan))),
        (),
    ));
    assert_eq!(patches.len(), 4);
    assert_eq!(patches[0], Patch::ClearListeners { node: 1 });
    match &patches[1] {
        Patch::SetProperty { node: 1, name, value: Property::Number(bits) } => {
            assert_eq!(name.as_str(), "m");
            assert_eq!(*bits, nan);
        }
        other => panic!("unexpected {:?}", other),
    }
    assert_eq!(patches[2], set_attr(1, "class", ""));
    assert_eq!(patches[3], set_attr(1, "style", ""));
}

#[test]
fn left_over_attributes_are_removed_in_swap_removal_order() {
    let mut scene = Scene::new(0, 1);
    let _: Vec<Patch<()>> = scene.render(div::<_, ()>(
        (
            attribute(s("a"), Attribute::String(s("1"))),
            attribute(s("b"), Attribute::String(s("2"))),
            attribute(s("c"), Attribute::String(s("3"))),
        ),
        (),
    ));
    let patches: Vec<Patch<()>> =
        scene.render(div::<_, ()>(attribute(s("a"), Attribute::String(s("1"))), ()));
    assert_eq!(
        patches,
        vec![
            Patch::ClearListeners { node: 1 },
            Patch::RemoveAttribute { node: 1, name: s("c") },
            Patch::RemoveAttribute { node: 1, name: s("b") },
            set_attr(1, "class", ""),
            set_attr(1, "style", ""),
        ]
    );
}

#[test]
fn classes_and_styles_of_the_previous_rendering_are_forgotten() {
    let mut scene = Scene::new(0, 1);
    let _: Vec<Patch<()>> = scene.render(div::<_, ()>((class(s("a")), style(s("color"), s("red"))), ()));
    let patches: Vec<Patch<()>> = scene.render(div::<_, ()>((class(s("b")), style(s("width"), s("2px"))), ()));
    assert_eq!(
        patches,
        vec![Patch::ClearListeners { node: 1 }, set_attr(1, "class", "b"), set_attr(1, "style", "width:2px")]
    );
}

#[test]
fn counting_nodes() {
    let nodes: Vec<siro::node::Node<()>> = siro::node::collect_nodes((first_view(), text::<()>(s("t"))));
    assert_eq!(count_nodes(&nodes), Some(3));
}

#[test]
fn an_attribute_named_twice_is_set_again_on_each_rendering() {
    let view = || {
        div::<_, ()>(
            (attribute(s("a"), Attribute::String(s("1"))), attribute(s("a"), Attribute::String(s("2")))),
            (),
        )
    };
    let mut scene = Scene::new(0, 1);
    let _: Vec<Patch<()>> = scene.render(view());
    let patches: Vec<Patch<()>> = scene.render(view());
    assert_eq!(
        patches,
        vec![
            Patch::ClearListeners { node: 1 },
            set_attr(1, "a", "1"),
            set_attr(1, "a", "2"),
            set_attr(1, "class", ""),
            set_attr(1, "style", ""),
        ]
    );
}

#[test]
fn listeners_are_registered_again() {
    let view = || {
        div::<_, ()>(
            siro::attr::event(s("click"), 5u8),
            (),
        )
    };
    let mut scene = Scene::new(0, 1);
    let first: Vec<Patch<u8>> = scene.render(view());
    assert_eq!(first[1], Patch::AddListener { node: 1, event_type: s("click"), decoder: 5 });
    let again: Vec<Patch<u8>> = scene.render(view());
    assert_eq!(
        again,
        vec![
            Patch::ClearListeners { node: 1 },
            Patch::AddListener { node: 1, event_type: s("click"), decoder: 5 },
            set_attr(1, "class", ""),
            set_attr(1, "style", ""),
        ]
    );
}
