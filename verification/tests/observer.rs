use serde_json::Value;
use tdlib_rs::observer::{Delivery, Observer};

fn json(text: &str) -> Value {
    serde_json::from_str(text).unwrap()
}

#[test]
fn subscribed_request_gets_its_response() {
    let mut o = Observer::new();
    let mut rx = o.subscribe(7);
    let d = o.notify(json(r#"{"@type": "ok", "@extra": 7}"#));
    assert_eq!(d, Delivery::Delivered(7));
    let got = rx.try_recv().unwrap().unwrap();
    assert_eq!(got["@type"], "ok");
}

#[test]
fn response_handled_once() {
    let mut o = Observer::new();
    let _rx = o.subscribe(3);
    assert_eq!(o.notify(json(r#"{"@extra": 3}"#)), Delivery::Delivered(3));
    assert_eq!(o.notify(json(r#"{"@extra": 3}"#)), Delivery::UnknownRequest(3));
}

#[test]
fn response_without_request_number() {
    let mut o = Observer::new();
    let _rx = o.subscribe(1);
    assert_eq!(o.notify(json(r#"{"@type": "updateFoo"}"#)), Delivery::MissingExtra);
    assert_eq!(o.notify(json(r#"{"@extra": "1"}"#)), Delivery::MissingExtra);
    assert_eq!(o.notify(json(r#"{"@extra": 4294967296}"#)), Delivery::MissingExtra);
    assert_eq!(o.notify(json(r#"{"@extra": 1}"#)), Delivery::Delivered(1));
}

#[test]
fn dropped_receiver() {
    let mut o = Observer::new();
    let rx = o.subscribe(9);
    drop(rx);
    assert_eq!(o.notify(json(r#"{"@extra": 9}"#)), Delivery::ReceiverDropped(9));
    assert_eq!(o.notify(json(r#"{"@extra": 9}"#)), Delivery::UnknownRequest(9));
}

#[test]
fn deliver_takes_the_number() {
    let mut o = Observer::new();
    let mut rx = o.subscribe(u32::MAX);
    assert_eq!(o.deliver(Some(u32::MAX as u64), json("5")), Delivery::Delivered(u32::MAX));
    assert_eq!(rx.try_recv().unwrap().unwrap(), json("5"));
    assert_eq!(o.deliver(None, json("5")), Delivery::MissingExtra);
}

#[test]
fn resubscribing_replaces_the_waiting_request() {
    let mut o = Observer::new();
    let mut first = o.subscribe(2);
    let mut second = o.subscribe(2);
    assert_eq!(o.notify(json(r#"{"@extra": 2}"#)), Delivery::Delivered(2));
    assert!(first.try_recv().is_err());
    assert!(second.try_recv().unwrap().is_some());
}
