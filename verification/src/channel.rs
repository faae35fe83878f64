//! The channels of the standard library, as far as the engine uses them.
//!
//! What travels over a channel depends on the thread at its other end, so the
//! proofs know nothing of it: the functions here only pass values on.

use std::sync::mpsc::Receiver;
use std::sync::mpsc::Sender;
use vstd::prelude::*;

verus! {

/// Receiving end of a channel of the standard library; opaque to the proofs.
#[verifier::external_type_specification]
#[verifier::external_body]
#[verifier::reject_recursive_types(T)]
pub struct ExReceiver<T>(Receiver<T>);

/// Sending end of a channel of the standard library; opaque to the proofs.
#[verifier::external_type_specification]
#[verifier::external_body]
#[verifier::reject_recursive_types(T)]
pub struct ExSender<T>(Sender<T>);

/// Makes a channel, through `std::sync::mpsc::channel`. Nothing is claimed of
/// the two ends.
#[verifier::external_body]
pub(crate) fn open<T>() -> (ends: (Sender<T>, Receiver<T>)) {
    std::sync::mpsc::channel()
}

/// Polls a channel without blocking, through `Receiver::try_recv`. Whether a
/// value is there depends on the sender, so nothing is claimed of the result;
/// an empty and a disconnected channel both give `None`.
#[verifier::external_body]
pub(crate) fn try_receive<T>(handle: &Receiver<T>) -> (polled: Option<T>) {
    handle.try_recv().ok()
}

/// Sends a value, through `Sender::send`, and says whether the channel took
/// it. That depends on whether the receiver still exists, so nothing is
/// claimed of the result.
#[verifier::external_body]
pub(crate) fn send<T>(channel: &Sender<T>, value: T) -> (accepted: bool) {
    channel.send(value).is_ok()
}

/// A second sending end of the same channel, through `Sender::clone`.
#[verifier::external_body]
pub(crate) fn share<T>(channel: &Sender<T>) -> (other: Sender<T>) {
    channel.clone()
}

} // verus!
