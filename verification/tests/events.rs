use siro::event::{on, on_, prevent_default, Emitter, Event, EventDecoder};
use siro::html::event::{
    on_blur, on_check, on_click, on_double_click, on_enter, on_focus, on_input, InputEvent,
    InputTarget, KeyEvent,
};
use siro::mailbox::{MapDecoder, MapMailbox, MapSender, Mailbox, Sender};
use std::cell::RefCell;
use std::marker::PhantomData;
use std::rc::Rc;

fn input(value: Option<&str>, checked: Option<bool>) -> InputEvent {
    InputEvent { target: InputTarget { value: value.map(|v| v.to_string()), checked } }
}

#[test]
fn input_events_decode_the_value() {
    let h = on_input(|v: String| v.len());
    assert_eq!(h.event_type, "input");
    assert_eq!(h.decoder.decode_event(input(Some("abc"), None)), Some(3));
    assert_eq!(h.decoder.decode_event(input(None, Some(true))), None);
}

#[test]
fn check_events_decode_the_checked_state() {
    let h = on_check(|c: bool| !c);
    assert_eq!(h.event_type, "input");
    assert_eq!(h.decoder.decode_event(input(None, Some(true))), Some(false));
    assert_eq!(h.decoder.decode_event(input(Some("x"), None)), None);
}

#[test]
fn enter_key_only() {
    let h = on_enter(|| 7);
    assert_eq!(h.event_type, "keydown");
    assert_eq!(h.decoder.decode_event(KeyEvent { key: "Enter".to_string() }), Some(7));
    assert_eq!(h.decoder.decode_event(KeyEvent { key: "a".to_string() }), None);
}

#[test]
fn plain_event_handlers() {
    assert_eq!(on_click(|| 1).event_type, "click");
    assert_eq!(on_double_click(|| 1).event_type, "dblclick");
    assert_eq!(on_focus(|| 1).event_type, "focus");
    assert_eq!(on_blur(|| 1).event_type, "blur");
    let h = on_click(|| "clicked");
    assert_eq!(EventDecoder::<u8>::decode_event(&h.decoder, 0u8), Some("clicked"));
}

#[test]
fn on_and_prevent_default() {
    let h = on("mousemove", |e: &i32| e * 2);
    assert_eq!(Event::<i32>::event_type(&h), "mousemove");
    let em = Event::<i32>::into_emitter(h);
    assert!(!Emitter::<i32>::prevents_default(&em));
    assert_eq!(em.emit(&21), Some(42));

    let p = prevent_default(on_("submit", |e: &i32| if *e > 0 { Some(*e) } else { None }));
    assert_eq!(Event::<i32>::event_type(&p), "submit");
    let em = Event::<i32>::into_emitter(p);
    assert!(Emitter::<i32>::prevents_default(&em));
    assert_eq!(em.emit(&5), Some(5));
    assert_eq!(em.emit(&-5), None);
}

#[test]
fn mapped_decoder_applies_the_function() {
    let d = MapDecoder { decoder: on_input(|v: String| v).decoder, f: |v: String| v.to_uppercase() };
    assert_eq!(d.decode_event(input(Some("ab"), None)), Some("AB".to_string()));
    assert_eq!(d.decode_event(input(None, None)), None);
}

struct Log(Rc<RefCell<Vec<i64>>>);

impl Sender for Log {
    type Msg = i64;
    fn ready(&self, _msg: i64) -> bool {
        true
    }
    fn send_message(&self, msg: i64) {
        self.0.borrow_mut().push(msg);
    }
}

struct Inbox(Rc<RefCell<Vec<i64>>>);

impl Mailbox for Inbox {
    type Msg = i64;
    type Sender = Log;
    fn ready(&self, _msg: i64) -> bool {
        true
    }
    fn sender(&self) -> Log {
        Log(self.0.clone())
    }
    fn send_message(&self, msg: i64) {
        self.0.borrow_mut().push(msg);
    }
}

#[test]
fn mapped_mailbox_and_sender_post_the_mapped_message() {
    let log = Rc::new(RefCell::new(Vec::new()));
    let m: MapMailbox<Inbox, fn(u8) -> i64, u8> = siro::mailbox::map(Inbox(log.clone()), |x: u8| -(x as i64));
    m.send_message(3);
    m.sender().send_message(4);
    let s = MapSender { sender: Log(log.clone()), f: |x: i64| x * 10, _marker: PhantomData };
    assert_eq!(s.map_message(2), 20);
    s.send_message(5);
    assert_eq!(*log.borrow(), vec![-3, -4, 50]);
}
