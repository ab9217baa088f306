//! A library for building client side Web applications out of virtual DOM
//! descriptions.
//!
//! Views are described as plain data (`node::Node`), and the rendering engine
//! (`render`) compares a description against the virtual tree of the previous
//! rendering and produces the list of DOM operations that bring the document
//! up to date. `dom` models the document and states what those operations
//! achieve; `meow` is a smaller virtual DOM whose nodes carry identities of
//! their own. The runtime that performs the operations in a browser, listens
//! to events and runs timers keeps the decisions it takes in `subscription`.
pub mod attr;
pub mod decimal;
pub mod dom;
pub mod event;
pub mod html;
pub mod mailbox;
pub mod mapping;
pub mod meow;
pub mod meow_page;
pub mod node;
pub mod ordered;
pub mod render;
pub mod subscription;
pub mod svg;
pub mod types;
