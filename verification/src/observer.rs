//! Routing of TDLib responses to the requests that wait for them.
//!
//! Each request carries an `@extra` number; a request subscribes with that
//! number and gets the receiving end of a one-shot channel, and the response
//! that carries the same number is sent over that channel.

use futures_channel::oneshot::{Receiver, Sender};
use serde_json::Value;
use std::collections::HashMap;
use vstd::prelude::*;

verus! {

/// A JSON value of `serde_json`.
#[verifier::external_type_specification]
#[verifier::external_body]
pub struct ExValue(serde_json::Value);

/// The sending end of a one-shot channel of `futures_channel`.
#[verifier::external_type_specification]
#[verifier::external_body]
#[verifier::reject_recursive_types(T)]
pub struct ExSender<T>(futures_channel::oneshot::Sender<T>);

/// The receiving end of a one-shot channel of `futures_channel`.
#[verifier::external_type_specification]
#[verifier::external_body]
#[verifier::reject_recursive_types(T)]
pub struct ExReceiver<T>(futures_channel::oneshot::Receiver<T>);

/// The error a receiver yields when its sender was dropped (`futures_channel`).
/// Nothing here names it, but Verus needs it declared because the `Future`
/// impl of `Receiver` mentions it.
#[verifier::external_type_specification]
#[verifier::external_body]
pub struct ExCanceled(futures_channel::oneshot::Canceled);

/// Creates a one-shot channel by `futures_channel::oneshot::channel`.
/// Nothing is claimed of the two ends it returns.
#[verifier::external_body]
fn channel() -> (Sender<Value>, Receiver<Value>) {
    futures_channel::oneshot::channel()
}

/// Sends `value` by `futures_channel::oneshot::Sender::send`. Whether the
/// receiving end still listens is up to the other side; when it does not,
/// the value comes back unchanged in the error, as the crate's source shows.
#[verifier::external_body]
fn send(sender: Sender<Value>, value: Value) -> (r: Result<(), Value>)
    ensures
        r matches Err(v) ==> v == value,
{
    sender.send(value)
}

/// What `serde_json::Value::get` gives for a string key: the field of an
/// object, or nothing.
pub uninterp spec fn json_field(value: Value, key: Seq<char>) -> Option<Value>;

/// What `serde_json::Value::as_u64` gives: the number held by a JSON value,
/// when it is a non-negative integer that fits in a `u64`.
pub uninterp spec fn json_u64(value: Value) -> Option<u64>;

/// Looks up `key` in a JSON value by `serde_json::Value::get`. The contract
/// claims only that the result is a function of the value and the key
/// (`json_field`); what that function is on given values is left unsaid.
#[verifier::external_body]
fn json_get<'a>(value: &'a Value, key: &str) -> (r: Option<&'a Value>)
    ensures
        match r {
            Some(v) => json_field(*value, key@) == Some(*v),
            None => json_field(*value, key@) is None,
        },
{
    value.get(key)
}

/// The number held by a JSON value, as a `u64`, by
/// `serde_json::Value::as_u64`. The contract claims only that the result is
/// a function of the value (`json_u64`); what that function is on given
/// values is left unsaid.
#[verifier::external_body]
fn json_as_u64(value: &Value) -> (r: Option<u64>)
    ensures
        r == json_u64(*value),
{
    value.as_u64()
}

/// The `@extra` number of a response: its `@extra` field, read as a `u64`.
pub open spec fn response_extra(response: Value) -> Option<u64> {
    match json_field(response, "@extra"@) {
        Some(v) => json_u64(v),
        None => None,
    }
}

/// What became of a response.
#[derive(Debug, Clone, Copy, PartialEq, Eq, Structural)]
pub enum Delivery {
    /// The response was sent to the request with this number.
    Delivered(u32),
    /// The request with this number was waiting, but its receiver was dropped.
    ReceiverDropped(u32),
    /// No request with this number was waiting.
    UnknownRequest(u32),
    /// The response had no `@extra` field that holds a `u32`.
    MissingExtra,
}

/// The request number that a response's `@extra` value gives, if it is a `u32`.
pub open spec fn request_id(extra: Option<u64>) -> Option<u32> {
    match extra {
        Some(e) => if e <= u32::MAX {
            Some(e as u32)
        } else {
            None
        },
        None => None,
    }
}

/// The waiting requests after a response with `@extra` value `extra` has been handled.
pub open spec fn pending_after<S>(pending: Map<u32, S>, extra: Option<u64>) -> Map<u32, S> {
    match request_id(extra) {
        Some(id) => pending.remove(id),
        None => pending,
    }
}

/// Whether `d` is a possible outcome of handling a response with `@extra`
/// value `extra` while `pending` waits: it is reported as delivered to the
/// request with its number (or that request's receiver as dropped), if one
/// waits, and as unknown or as missing its number otherwise.
pub open spec fn delivery_fits<S>(pending: Map<u32, S>, extra: Option<u64>, d: Delivery) -> bool {
    match request_id(extra) {
        None => d == Delivery::MissingExtra,
        Some(id) => if pending.contains_key(id) {
            d == Delivery::Delivered(id) || d == Delivery::ReceiverDropped(id)
        } else {
            d == Delivery::UnknownRequest(id)
        },
    }
}

/// A response that carries the number of a request that subscribed is
/// reported as delivered to that request (or that request's receiver as
/// dropped), and afterwards only the other requests still wait.
pub proof fn law_subscribed_request_is_answered<S>(pending: Map<u32, S>, id: u32, s: S, d: Delivery)
    requires
        delivery_fits(pending.insert(id, s), Some(id as u64), d),
    ensures
        d == Delivery::Delivered(id) || d == Delivery::ReceiverDropped(id),
        pending_after(pending.insert(id, s), Some(id as u64)) == pending.remove(id),
{
    assert(pending.insert(id, s).remove(id) =~= pending.remove(id));
}

/// A request gets at most one response: once a response with its number has
/// been handled, another one with that number finds no waiting request.
pub proof fn law_response_handled_once<S>(pending: Map<u32, S>, id: u32, d: Delivery)
    requires
        delivery_fits(pending_after(pending, Some(id as u64)), Some(id as u64), d),
    ensures
        d == Delivery::UnknownRequest(id),
{
}

/// A response whose `@extra` is missing or does not hold a `u32` changes nothing.
pub proof fn law_response_without_request_number<S>(pending: Map<u32, S>, extra: Option<u64>, d: Delivery)
    requires
        request_id(extra) is None,
        delivery_fits(pending, extra, d),
    ensures
        d == Delivery::MissingExtra,
        pending_after(pending, extra) == pending,
{
}

/// The requests that wait for a response, by request number.
pub struct Observer {
    requests: HashMap<u32, Sender<Value>>,
}

impl View for Observer {
    type V = Map<u32, Sender<Value>>;

    closed spec fn view(&self) -> Map<u32, Sender<Value>> {
        self.requests@
    }
}

impl Observer {
    /// An observer with no waiting request.
    pub fn new() -> (o: Self)
        ensures
            o@ == Map::<u32, Sender<Value>>::empty(),
    {
        Observer { requests: HashMap::new() }
    }

    /// Registers the request with number `extra` (replacing one that waited
    /// with the same number) and returns the end on which its response will
    /// arrive.
    pub fn subscribe(&mut self, extra: u32) -> (r: Receiver<Value>)
        ensures
            exists|s: Sender<Value>| final(self)@ == old(self)@.insert(extra, s),
    {
        let (sender, receiver) = channel();
        let ghost s = sender;
        self.requests.insert(extra, sender);
        assert(self@ == old(self)@.insert(extra, s));
        receiver
    }

    /// Forgets the request whose number `extra` gives and sends `response`
    /// to its sender. The contract fixes the requests that still wait and
    /// the reported outcome; whether the receiver still listens is up to it.
    pub fn deliver(&mut self, extra: Option<u64>, response: Value) -> (d: Delivery)
        ensures
            final(self)@ == pending_after(old(self)@, extra),
            delivery_fits(old(self)@, extra, d),
    {
        let id = match extra {
            Some(e) => if e <= u32::MAX as u64 {
                e as u32
            } else {
                return Delivery::MissingExtra;
            },
            None => {
                return Delivery::MissingExtra;
            },
        };
        match self.requests.remove(&id) {
            Some(sender) => match send(sender, response) {
                Ok(()) => Delivery::Delivered(id),
                Err(_) => Delivery::ReceiverDropped(id),
            },
            None => Delivery::UnknownRequest(id),
        }
    }

    /// Reads the `@extra` number of `response`, forgets the request with
    /// that number and sends `response` to its sender. The contract fixes
    /// the requests that still wait and the reported outcome.
    pub fn notify(&mut self, response: Value) -> (d: Delivery)
        ensures
            final(self)@ == pending_after(old(self)@, response_extra(response)),
            delivery_fits(old(self)@, response_extra(response), d),
    {
        let extra = match json_get(&response, "@extra") {
            Some(v) => json_as_u64(v),
            None => None,
        };
        let d = self.deliver(extra, response);
        d
    }
}

} // verus!
