//! HTML events, decoded from what the browser hands to a listener.
use crate::attr::{event, Event};
use crate::event::EventDecoder;
use vstd::prelude::*;

verus! {

/// The target of an input event: its `value` and `checked`, where present.
pub struct InputTarget {
    pub value: Option<String>,
    pub checked: Option<bool>,
}

/// An [input event](https://developer.mozilla.org/en-US/docs/Web/API/HTMLElement/input_event),
/// as far as its target goes.
pub struct InputEvent {
    pub target: InputTarget,
}

/// A keyboard event, as far as its `key` goes.
pub struct KeyEvent {
    pub key: String,
}

/// A decoder whose message is `f(input)` for the decoded input.
pub struct OnEvent<F> {
    pub f: F,
}

impl<T, M, F: Fn(T) -> M> EventDecoder<T> for OnEvent<F> {
    type Msg = M;

    open spec fn ready(&self, event: T) -> bool {
        self.f.requires((event,))
    }

    open spec fn decodes(&self, event: T, msg: Option<M>) -> bool {
        msg matches Some(m) && self.f.ensures((event,), m)
    }

    fn decode_event(&self, event: T) -> (r: Option<M>) {
        Some((self.f)(event))
    }
}

/// Create an `Attributes` that registers a handler of `event_type` whose
/// message is `f(input)`, the input being the event as the caller decodes it.
pub fn on<F>(event_type: String, f: F) -> (r: Event<OnEvent<F>>)
    ensures
        r.event_type == event_type,
        r.decoder.f == f,
{
    event(event_type, OnEvent { f })
}

/// A decoder whose message is `f()`, whatever the event holds.
pub struct OnAny<F> {
    pub f: F,
}

impl<E, M, F: Fn() -> M> EventDecoder<E> for OnAny<F> {
    type Msg = M;

    open spec fn ready(&self, event: E) -> bool {
        self.f.requires(())
    }

    open spec fn decodes(&self, event: E, msg: Option<M>) -> bool {
        msg matches Some(m) && self.f.ensures((), m)
    }

    fn decode_event(&self, event: E) -> (r: Option<M>) {
        Some((self.f)())
    }
}

fn on_any<F>(event_type: &str, f: F) -> (r: Event<OnAny<F>>)
    ensures
        r.event_type@ == event_type@,
        r.decoder.f == f,
{
    event(event_type.to_owned(), OnAny { f })
}

/// Create an `Attributes` that handles `click` events with the message `f()`.
pub fn on_click<F>(f: F) -> (r: Event<OnAny<F>>)
    ensures
        r.event_type@ == "click"@,
        r.decoder.f == f,
{
    on_any("click", f)
}

/// Create an `Attributes` that handles `dblclick` events with the message `f()`.
pub fn on_double_click<F>(f: F) -> (r: Event<OnAny<F>>)
    ensures
        r.event_type@ == "dblclick"@,
        r.decoder.f == f,
{
    on_any("dblclick", f)
}

/// Create an `Attributes` that handles `focus` events with the message `f()`.
pub fn on_focus<F>(f: F) -> (r: Event<OnAny<F>>)
    ensures
        r.event_type@ == "focus"@,
        r.decoder.f == f,
{
    on_any("focus", f)
}

/// Create an `Attributes` that handles `blur` events with the message `f()`.
pub fn on_blur<F>(f: F) -> (r: Event<OnAny<F>>)
    ensures
        r.event_type@ == "blur"@,
        r.decoder.f == f,
{
    on_any("blur", f)
}

/// A decoder of input events whose message is `f(value)` for the `value`
/// of the target, and none where the target has no value.
pub struct OnInput<F> {
    pub f: F,
}

impl<M, F: Fn(String) -> M> EventDecoder<InputEvent> for OnInput<F> {
    type Msg = M;

    open spec fn ready(&self, event: InputEvent) -> bool {
        event.target.value matches Some(v) ==> self.f.requires((v,))
    }

    open spec fn decodes(&self, event: InputEvent, msg: Option<M>) -> bool {
        match event.target.value {
            Some(v) => msg matches Some(m) && self.f.ensures((v,), m),
            None => msg is None,
        }
    }

    fn decode_event(&self, event: InputEvent) -> (r: Option<M>) {
        match event.target.value {
            Some(v) => Some((self.f)(v)),
            None => None,
        }
    }
}

/// Create a handler of [input events](https://developer.mozilla.org/en-US/docs/Web/API/HTMLElement/input_event)
/// whose message is `f(value)`.
pub fn on_input<F>(f: F) -> (r: Event<OnInput<F>>)
    ensures
        r.event_type@ == "input"@,
        r.decoder.f == f,
{
    event("input".to_owned(), OnInput { f })
}

/// A decoder of input events whose message is `f(checked)` for the
/// `checked` of the target, and none where the target has no such state.
pub struct OnCheck<F> {
    pub f: F,
}

impl<M, F: Fn(bool) -> M> EventDecoder<InputEvent> for OnCheck<F> {
    type Msg = M;

    open spec fn ready(&self, event: InputEvent) -> bool {
        event.target.checked matches Some(c) ==> self.f.requires((c,))
    }

    open spec fn decodes(&self, event: InputEvent, msg: Option<M>) -> bool {
        match event.target.checked {
            Some(c) => msg matches Some(m) && self.f.ensures((c,), m),
            None => msg is None,
        }
    }

    fn decode_event(&self, event: InputEvent) -> (r: Option<M>) {
        match event.target.checked {
            Some(c) => Some((self.f)(c)),
            None => None,
        }
    }
}

/// Create a handler of input events whose message is `f(checked)`.
pub fn on_check<F>(f: F) -> (r: Event<OnCheck<F>>)
    ensures
        r.event_type@ == "input"@,
        r.decoder.f == f,
{
    event("input".to_owned(), OnCheck { f })
}

/// A decoder of keyboard events whose message is `f()` for the key `Enter`,
/// and none for any other key.
pub struct OnEnter<F> {
    pub f: F,
}

impl<M, F: Fn() -> M> EventDecoder<KeyEvent> for OnEnter<F> {
    type Msg = M;

    open spec fn ready(&self, event: KeyEvent) -> bool {
        event.key@ == "Enter"@ ==> self.f.requires(())
    }

    open spec fn decodes(&self, event: KeyEvent, msg: Option<M>) -> bool {
        if event.key@ == "Enter"@ {
            msg matches Some(m) && self.f.ensures((), m)
        } else {
            msg is None
        }
    }

    fn decode_event(&self, event: KeyEvent) -> (r: Option<M>) {
        if event.key.eq(&"Enter".to_owned()) {
            Some((self.f)())
        } else {
            None
        }
    }
}

/// Create a handler of `keydown` events whose message is `f()` when the key
/// is `Enter`.
pub fn on_enter<F>(f: F) -> (r: Event<OnEnter<F>>)
    ensures
        r.event_type@ == "keydown"@,
        r.decoder.f == f,
{
    event("keydown".to_owned(), OnEnter { f })
}

/// Whatever the value of the target of an input event, the empty value
/// included, the decoded message is `f(value)`; there is no message only
/// when the target has no value. Every such event can be decoded.
pub proof fn law_on_input_sends_every_value<M, F: Fn(String) -> M>(d: OnInput<F>, event: InputEvent, msg: Option<M>)
    requires
        d.decodes(event, msg),
    ensures
        event.target.value matches Some(v) ==> (msg matches Some(m) && d.f.ensures((v,), m)),
        event.target.value is None ==> msg is None,
        (event.target.value matches Some(v) && d.f.requires((v,))) ==> d.ready(event),
        event.target.value is None ==> d.ready(event),
{
}

/// Whatever the checked state of the target of an input event, checked or
/// not, the decoded message is `f(checked)`; there is no message only when
/// the target has no such state.
pub proof fn law_on_check_sends_every_state<M, F: Fn(bool) -> M>(d: OnCheck<F>, event: InputEvent, msg: Option<M>)
    requires
        d.decodes(event, msg),
    ensures
        event.target.checked matches Some(c) ==> (msg matches Some(m) && d.f.ensures((c,), m)),
        event.target.checked is None ==> msg is None,
{
}

/// A key event gives the message `f()` exactly when its key is `Enter`.
pub proof fn law_on_enter_answers_only_enter<M, F: Fn() -> M>(d: OnEnter<F>, event: KeyEvent, msg: Option<M>)
    requires
        d.decodes(event, msg),
    ensures
        event.key@ == "Enter"@ ==> (msg matches Some(m) && d.f.ensures((), m)),
        event.key@ != "Enter"@ ==> msg is None,
{
}

/// A handler that ignores what its event holds answers every event with
/// `f()`, and one of `on` answers every input with `f(input)`.
pub proof fn law_plain_handlers_answer_every_event<E, T, M, F: Fn() -> M, G: Fn(T) -> M>(
    a: OnAny<F>,
    e: OnEvent<G>,
    event: E,
    input: T,
    msg: Option<M>,
)
    ensures
        EventDecoder::<E>::decodes(&a, event, msg) ==> (msg matches Some(m) && a.f.ensures((), m)),
        EventDecoder::<T>::decodes(&e, input, msg) ==> (msg matches Some(m) && e.f.ensures((input,), m)),
{
}

} // verus!
