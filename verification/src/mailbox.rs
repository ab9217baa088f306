//! Mailboxes for exchanging the messages within an application, and proxies
//! that turn messages of one type into those of another.
use crate::event::EventDecoder;
use std::marker::PhantomData;
use vstd::prelude::*;

verus! {

/// Sender for posting messages from callback functions.
pub trait Sender {
    /// The message type.
    type Msg;

    /// `msg` may be handed to `send_message`.
    spec fn ready(&self, msg: Self::Msg) -> bool;

    /// Send a message to the mailbox.
    fn send_message(&self, msg: Self::Msg)
        requires
            self.ready(msg),
    ;
}

/// A mailbox for exchanging the messages within the application.
pub trait Mailbox {
    /// The message type.
    type Msg;

    /// The type of `Sender` associated with this mailbox.
    type Sender: Sender<Msg = Self::Msg>;

    /// `msg` may be handed to `send_message`.
    spec fn ready(&self, msg: Self::Msg) -> bool;

    /// Create an instance of `Sender` associated with this mailbox; it takes
    /// every message that the mailbox takes.
    fn sender(&self) -> (r: Self::Sender)
        ensures
            forall|msg: Self::Msg| self.ready(msg) ==> #[trigger] r.ready(msg),
    ;

    /// Post a message to this mailbox: by default, a shortcut to
    /// `self.sender().send_message(msg)`.
    fn send_message(&self, msg: Self::Msg)
        requires
            self.ready(msg),
        default_ensures
            exists|s: Self::Sender|
                call_ensures(Self::sender, (self,), s) && call_ensures(
                    <Self::Sender as Sender>::send_message,
                    (&s, msg),
                    (),
                ),
    {
        let sender = self.sender();
        sender.send_message(msg);
    }
}

/// A proxy `Sender` that receives messages of another type and sends
/// `f(msg)` to the inner sender.
pub struct MapSender<S, F, T> {
    pub sender: S,
    pub f: F,
    pub _marker: PhantomData<T>,
}

impl<S: Sender, T, F: Fn(T) -> S::Msg> MapSender<S, F, T> {
    /// The message that the inner sender receives for `msg`.
    pub fn map_message(&self, msg: T) -> (r: S::Msg)
        requires
            self.f.requires((msg,)),
        ensures
            self.f.ensures((msg,), r),
    {
        (self.f)(msg)
    }
}

impl<S: Sender, T, F: Fn(T) -> S::Msg> Sender for MapSender<S, F, T> {
    type Msg = T;

    open spec fn ready(&self, msg: T) -> bool {
        &&& self.f.requires((msg,))
        &&& forall|m: S::Msg| self.f.ensures((msg,), m) ==> self.sender.ready(m)
    }

    fn send_message(&self, msg: T)
        ensures
            exists|m: S::Msg| self.f.ensures((msg,), m) && call_ensures(S::send_message, (&self.sender, m), ()),
    {
        let m = self.map_message(msg);
        self.sender.send_message(m);
    }
}

/// A proxy `Mailbox` that receives messages of another type and posts
/// `f(msg)` to the inner mailbox.
pub struct MapMailbox<M, F, T> {
    pub mailbox: M,
    pub f: F,
    pub _marker: PhantomData<T>,
}

/// Create a proxy `Mailbox` of `mailbox` that receives other type of
/// messages, turned into messages of `mailbox` by `f`.
pub fn map<M, F, T>(mailbox: M, f: F) -> (r: MapMailbox<M, F, T>)
    ensures
        r.mailbox == mailbox,
        r.f == f,
{
    MapMailbox { mailbox, f, _marker: PhantomData }
}

impl<M: Mailbox, T, F: Fn(T) -> M::Msg + Copy> Mailbox for MapMailbox<M, F, T> {
    type Msg = T;

    type Sender = MapSender<M::Sender, F, T>;

    open spec fn ready(&self, msg: T) -> bool {
        &&& self.f.requires((msg,))
        &&& forall|m: M::Msg| self.f.ensures((msg,), m) ==> self.mailbox.ready(m)
    }

    fn sender(&self) -> (r: MapSender<M::Sender, F, T>)
        ensures
            r.f == self.f,
            call_ensures(M::sender, (&self.mailbox,), r.sender),
    {
        let sender = self.mailbox.sender();
        MapSender { sender, f: self.f, _marker: PhantomData }
    }

    fn send_message(&self, msg: T)
        ensures
            exists|m: M::Msg| self.f.ensures((msg,), m) && call_ensures(M::send_message, (&self.mailbox, m), ()),
    {
        let m = (self.f)(msg);
        self.mailbox.send_message(m);
    }
}

/// Mapping a mailbox twice composes the maps: posting `msg` to
/// `map(map(mailbox, f), g)` posts to `mailbox` a message that `f` gives for
/// a message that `g` gives for `msg`.
pub proof fn law_map_composes<M: Mailbox, F: Fn(T) -> M::Msg + Copy, T, G: Fn(U) -> T + Copy, U>(
    outer: MapMailbox<MapMailbox<M, F, T>, G, U>,
    msg: U,
)
    requires
        call_ensures(<MapMailbox<MapMailbox<M, F, T>, G, U> as Mailbox>::send_message, (&outer, msg), ()),
    ensures
        exists|t: T, m: M::Msg|
            outer.f.ensures((msg,), t) && outer.mailbox.f.ensures((t,), m) && call_ensures(
                M::send_message,
                (&outer.mailbox.mailbox, m),
                (),
            ),
{
    let t = choose|t: T| outer.f.ensures((msg,), t) && call_ensures(
        <MapMailbox<M, F, T> as Mailbox>::send_message,
        (&outer.mailbox, t),
        (),
    );
    let m = choose|m: M::Msg| outer.mailbox.f.ensures((t,), m) && call_ensures(
        M::send_message,
        (&outer.mailbox.mailbox, m),
        (),
    );
}

/// A decoder that turns the message of the inner decoder into `f(msg)`.
pub struct MapDecoder<D, F> {
    pub decoder: D,
    pub f: F,
}

impl<E, T, D: EventDecoder<E>, F: Fn(D::Msg) -> T> EventDecoder<E> for MapDecoder<D, F> {
    type Msg = T;

    open spec fn ready(&self, event: E) -> bool {
        &&& self.decoder.ready(event)
        &&& forall|m: Option<D::Msg>| #[trigger] self.decoder.decodes(event, m) ==> (m matches Some(x) ==> self.f.requires((x,)))
    }

    open spec fn decodes(&self, event: E, msg: Option<T>) -> bool {
        exists|m: Option<D::Msg>| #[trigger] self.decoder.decodes(event, m) && match m {
            Some(x) => msg matches Some(y) && self.f.ensures((x,), y),
            None => msg is None,
        }
    }

    fn decode_event(&self, event: E) -> (r: Option<T>) {
        let m = self.decoder.decode_event(event);
        match m {
            Some(x) => Some((self.f)(x)),
            None => None,
        }
    }
}

} // verus!
