//! Bounded message channels between the trainer's components.
//!
//! The components communicate through `crossbeam_channel`. The channel types
//! and the calls the trainer makes are declared here as trusted items; the
//! channels are opaque to verification, so nothing is assumed about what a
//! receive returns — every caller states what holds of any outcome.

use vstd::prelude::*;

verus! {

/// Declares `crossbeam_channel::Sender` so it can stand in signatures and
/// fields; its values are opaque to verification.
#[verifier::external_type_specification]
#[verifier::external_body]
#[verifier::reject_recursive_types(T)]
pub struct ExSender<T>(crossbeam_channel::Sender<T>);

/// Declares `crossbeam_channel::Receiver` so it can stand in signatures and
/// fields; its values are opaque to verification.
#[verifier::external_type_specification]
#[verifier::external_body]
#[verifier::reject_recursive_types(T)]
pub struct ExReceiver<T>(crossbeam_channel::Receiver<T>);

/// Relies on `crossbeam_channel::bounded`: a connected sender/receiver pair
/// with the given capacity.
#[verifier::external_body]
pub fn bounded<T>(cap: usize) -> (crossbeam_channel::Sender<T>, crossbeam_channel::Receiver<T>) {
    crossbeam_channel::bounded(cap)
}

/// Relies on `crossbeam_channel::Sender::send`: delivers the message unless
/// every receiver is gone. Blocks while the channel is full.
#[verifier::external_body]
pub fn send<T>(s: &crossbeam_channel::Sender<T>, msg: T) -> bool {
    s.send(msg).is_ok()
}

/// Relies on `crossbeam_channel::Receiver::try_recv`: a pending message, or
/// `None` when the channel is empty or disconnected. Never blocks.
#[verifier::external_body]
pub fn try_recv<T>(r: &crossbeam_channel::Receiver<T>) -> Option<T> {
    r.try_recv().ok()
}

/// Relies on `crossbeam_channel::Receiver::recv`: blocks for a message;
/// `None` only when the channel is disconnected and drained.
#[verifier::external_body]
pub fn recv<T>(r: &crossbeam_channel::Receiver<T>) -> Option<T> {
    r.recv().ok()
}

} // verus!
