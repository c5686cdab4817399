//! Rendezvous channels between callers, workers and the reaper. The
//! channels are those of `crossbeam_channel`; nothing is known here of
//! what another thread does with its end, so the contracts promise
//! little.

use vstd::prelude::*;
use crossbeam_channel::{Receiver, RecvTimeoutError, Sender};

verus! {

/// `crossbeam_channel::Sender`: the sending end of a channel, opaque here.
#[verifier::external_type_specification]
#[verifier::external_body]
#[verifier::reject_recursive_types(T)]
pub struct ExSender<T>(Sender<T>);

/// `crossbeam_channel::Receiver`: the receiving end of a channel, opaque here.
#[verifier::external_type_specification]
#[verifier::external_body]
#[verifier::reject_recursive_types(T)]
pub struct ExReceiver<T>(Receiver<T>);

/// What a bounded wait on a channel ended with.
pub enum Arrival<T> {
    /// A message was handed over.
    Message(T),
    /// The time ran out first.
    Timeout,
    /// Every sender is gone.
    Disconnected,
}

/// Calls `crossbeam_channel::bounded`, here only for a channel without a
/// buffer, for which nothing is allocated. Returns the two ends of a new
/// channel; nothing more is claimed of them.
#[verifier::external_body]
pub(crate) fn bounded_channel<T>(capacity: usize) -> (ends: (Sender<T>, Receiver<T>))
    requires
        capacity == 0,
{
    crossbeam_channel::bounded(capacity)
}

/// Calls `Sender::send`, which blocks until the message is taken or the
/// last receiver is gone. Returns whether the message was taken; nothing
/// is promised of which.
#[verifier::external_body]
pub(crate) fn send_on<T>(sender: &Sender<T>, message: T) -> (sent: bool) {
    sender.send(message).is_ok()
}

/// Calls `Receiver::recv`, which blocks until a message comes or the last
/// sender is gone. Returns the message, if one came; nothing is promised
/// of it.
#[verifier::external_body]
pub(crate) fn recv_from<T>(receiver: &Receiver<T>) -> (message: Option<T>) {
    receiver.recv().ok()
}

/// Calls `Receiver::recv_timeout` with a wait of `seconds`. Returns what
/// ended the wait; nothing is promised of which.
#[verifier::external_body]
pub(crate) fn recv_within<T>(receiver: &Receiver<T>, seconds: u64) -> (arrival: Arrival<T>) {
    match receiver.recv_timeout(std::time::Duration::from_secs(seconds)) {
        Ok(message) => Arrival::Message(message),
        Err(RecvTimeoutError::Timeout) => Arrival::Timeout,
        Err(RecvTimeoutError::Disconnected) => Arrival::Disconnected,
    }
}

/// Calls `Sender::clone`: one more sending end of the same channel.
#[verifier::external_body]
pub(crate) fn another_sender<T>(sender: &Sender<T>) -> (other: Sender<T>) {
    sender.clone()
}

/// Calls `Receiver::clone`: one more receiving end of the same channel.
#[verifier::external_body]
pub(crate) fn another_receiver<T>(receiver: &Receiver<T>) -> (other: Receiver<T>) {
    receiver.clone()
}

} // verus!
