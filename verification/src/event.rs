//! Events: the decoding of DOM events into messages, and the emitters that
//! turn an event of an element into a message.
use vstd::prelude::*;

verus! {

/// A decoder of events of type `E` into messages.
pub trait EventDecoder<E> {
    /// The message type decoded from events.
    type Msg;

    /// `event` may be handed to `decode_event`.
    spec fn ready(&self, event: E) -> bool;

    /// `msg` is a result of decoding `event`.
    spec fn decodes(&self, event: E, msg: Option<Self::Msg>) -> bool;

    /// Decode `event` into a message, or into none.
    fn decode_event(&self, event: E) -> (r: Option<Self::Msg>)
        requires
            self.ready(event),
        ensures
            self.decodes(event, r),
    ;
}

/// The emitter of messages of an event handler: it turns the events that
/// reach an element into messages.
pub trait Emitter<E> {
    /// The message type.
    type Msg;

    /// `event` may be handed to `emit`.
    spec fn ready(&self, event: E) -> bool;

    /// `msg` is a result of emitting for `event`.
    spec fn emits(&self, event: E, msg: Option<Self::Msg>) -> bool;

    /// Whether the default action of the event is to be prevented before the
    /// message is emitted.
    spec fn spec_prevents_default(&self) -> bool;

    /// Whether the default action of the event is to be prevented before the
    /// message is emitted.
    fn prevents_default(&self) -> (r: bool)
        ensures
            r == self.spec_prevents_default(),
    ;

    /// The message for `event`, if any.
    fn emit(&self, event: &E) -> (r: Option<Self::Msg>)
        requires
            self.ready(*event),
        ensures
            self.emits(*event, r),
    ;
}

/// A handler of events of one type, made of an event type and an emitter.
pub trait Event<E> {
    /// The type of emitter this handler turns into.
    type Emitter: Emitter<E>;

    /// The event type.
    spec fn spec_event_type(&self) -> Seq<char>;

    /// The emitter this handler turns into.
    spec fn spec_emitter(&self) -> Self::Emitter;

    /// The event type that this handler listens to.
    fn event_type(&self) -> (r: &'static str)
        ensures
            r@ == self.spec_event_type(),
    ;

    /// Turn this handler into its emitter.
    fn into_emitter(self) -> (r: Self::Emitter)
        ensures
            r == self.spec_emitter(),
    ;
}

/// A handler of events of `event_type` that always emits `f(event)`.
pub struct On<F> {
    pub event_type: &'static str,
    pub f: F,
}

/// Create an `Event` corresponding to the provided event type, whose message
/// is `f(event)`.
pub fn on<F>(event_type: &'static str, f: F) -> (r: On<F>)
    ensures
        r.event_type == event_type,
        r.f == f,
{
    On { event_type, f }
}

impl<E, M, F: Fn(&E) -> M> Event<E> for On<F> {
    type Emitter = OnEmitter<F>;

    open spec fn spec_event_type(&self) -> Seq<char> {
        self.event_type@
    }

    open spec fn spec_emitter(&self) -> OnEmitter<F> {
        OnEmitter { f: self.f }
    }

    fn event_type(&self) -> (r: &'static str) {
        self.event_type
    }

    fn into_emitter(self) -> (r: OnEmitter<F>) {
        OnEmitter { f: self.f }
    }
}

/// The emitter of an `On` handler.
pub struct OnEmitter<F> {
    pub f: F,
}

impl<E, M, F: Fn(&E) -> M> Emitter<E> for OnEmitter<F> {
    type Msg = M;

    open spec fn ready(&self, event: E) -> bool {
        self.f.requires((&event,))
    }

    open spec fn emits(&self, event: E, msg: Option<M>) -> bool {
        msg matches Some(m) && self.f.ensures((&event,), m)
    }

    open spec fn spec_prevents_default(&self) -> bool {
        false
    }

    fn prevents_default(&self) -> (r: bool) {
        false
    }

    fn emit(&self, event: &E) -> (r: Option<M>) {
        Some((self.f)(event))
    }
}

/// A handler of events of `event_type` whose message is `f(event)`, which
/// may be none.
pub struct OnOpt<F> {
    pub event_type: &'static str,
    pub f: F,
}

/// Create an `Event` corresponding to the provided event type, whose message,
/// if any, is `f(event)`.
pub fn on_<F>(event_type: &'static str, f: F) -> (r: OnOpt<F>)
    ensures
        r.event_type == event_type,
        r.f == f,
{
    OnOpt { event_type, f }
}

impl<E, M, F: Fn(&E) -> Option<M>> Event<E> for OnOpt<F> {
    type Emitter = OnOptEmitter<F>;

    open spec fn spec_event_type(&self) -> Seq<char> {
        self.event_type@
    }

    open spec fn spec_emitter(&self) -> OnOptEmitter<F> {
        OnOptEmitter { f: self.f }
    }

    fn event_type(&self) -> (r: &'static str) {
        self.event_type
    }

    fn into_emitter(self) -> (r: OnOptEmitter<F>) {
        OnOptEmitter { f: self.f }
    }
}

/// The emitter of an `OnOpt` handler.
pub struct OnOptEmitter<F> {
    pub f: F,
}

impl<E, M, F: Fn(&E) -> Option<M>> Emitter<E> for OnOptEmitter<F> {
    type Msg = M;

    open spec fn ready(&self, event: E) -> bool {
        self.f.requires((&event,))
    }

    open spec fn emits(&self, event: E, msg: Option<M>) -> bool {
        self.f.ensures((&event,), msg)
    }

    open spec fn spec_prevents_default(&self) -> bool {
        false
    }

    fn prevents_default(&self) -> (r: bool) {
        false
    }

    fn emit(&self, event: &E) -> (r: Option<M>) {
        (self.f)(event)
    }
}

/// A handler that prevents the default action of the event
/// ([`Event.preventDefault`](https://developer.mozilla.org/en-US/docs/Web/API/Event/preventDefault))
/// before the message of the wrapped handler is emitted.
pub struct PreventDefault<V> {
    pub event: V,
}

/// Wrap an `Event` to prevent the default action before the message is emitted.
pub fn prevent_default<V>(event: V) -> (r: PreventDefault<V>)
    ensures
        r.event == event,
{
    PreventDefault { event }
}

impl<E, V: Event<E>> Event<E> for PreventDefault<V> {
    type Emitter = PreventDefaultEmitter<V::Emitter>;

    open spec fn spec_event_type(&self) -> Seq<char> {
        self.event.spec_event_type()
    }

    open spec fn spec_emitter(&self) -> PreventDefaultEmitter<V::Emitter> {
        PreventDefaultEmitter { emitter: self.event.spec_emitter() }
    }

    fn event_type(&self) -> (r: &'static str) {
        self.event.event_type()
    }

    fn into_emitter(self) -> (r: PreventDefaultEmitter<V::Emitter>) {
        PreventDefaultEmitter { emitter: self.event.into_emitter() }
    }
}

/// The emitter of a `PreventDefault` handler.
pub struct PreventDefaultEmitter<M> {
    pub emitter: M,
}

impl<E, M: Emitter<E>> Emitter<E> for PreventDefaultEmitter<M> {
    type Msg = M::Msg;

    open spec fn ready(&self, event: E) -> bool {
        self.emitter.ready(event)
    }

    open spec fn emits(&self, event: E, msg: Option<M::Msg>) -> bool {
        self.emitter.emits(event, msg)
    }

    open spec fn spec_prevents_default(&self) -> bool {
        true
    }

    fn prevents_default(&self) -> (r: bool) {
        true
    }

    fn emit(&self, event: &E) -> (r: Option<M::Msg>) {
        self.emitter.emit(event)
    }
}

} // verus!
