[package]
name = "siro"
version = "0.1.0"
edition = "2021"
publish = false

[dependencies]
indexmap = "1"
rustc-hash = "1"
itertools = "0.9"
either = "1"
serde = { version = "1", features = ["derive"] }
serde-wasm-bindgen = "0.1"
wasm-bindgen = "0.2"
js-sys = "0.3"
web-sys = { version = "0.3", features = ["Window", "Document", "Node", "Element", "Text", "Event", "EventTarget", "HtmlElement", "Storage", "Location", "CharacterData"] }
gloo-events = "0.1"
futures = "0.3"
once_cell = "1"
