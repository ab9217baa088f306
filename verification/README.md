# siro

A library for building client side Web applications out of virtual DOM
descriptions, written in Verus: its logic is verified against the contracts
stated in its source.

## Layout

- `src/` — the verified library.
  - `types`, `attr`, `node`, `event`, `mailbox`, `html`, `svg`: the values
    that describe a view (nodes, attributes, listeners) and the builders of
    HTML and SVG elements.
  - `render`: the rendering engine. `Scene::render` compares descriptions
    with the virtual tree of the previous rendering and returns the DOM
    operations (`Patch`es) that bring the document up to date.
  - `dom`: a model of the document those operations act on, and the laws of
    rendering: the document shows what was described, and every rendering
    leaves it holding the new virtual tree, ready for the next one.
  - `meow`, `meow_page`: a smaller virtual DOM whose nodes carry identities,
    with a cache from identities to DOM nodes, and the same laws over its
    own model of the page.
  - `mapping`: mapping the messages of a tree of descriptions.
  - `subscription`: the decisions of the runtime about animation frames and
    intervals.
  - `ordered`: the insertion-ordered maps and sets of `indexmap` (with the
    `rustc-hash` hasher) that hold the state of rendered elements, behind
    trusted declarations with a sequence model.
  - `decimal`: decimal notation of integers.
- `app/` — the browser runtime around the library: performing the
  operations with `web-sys`, listeners, timers, window events and the
  `serde` copies of event types.
- `tests/` — tests of the library, among them simulated documents that
  perform the operations of both engines.
