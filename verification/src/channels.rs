//! The bounded push channels a connection hands its socket task, behind
//! declared types and wrappers. Delivery is best-effort by design: a send
//! on a full or closed channel is dropped, never blocks and never fails the
//! caller.

use vstd::prelude::*;
use tokio::sync::mpsc::{Receiver, Sender};

verus! {

#[verifier::external_type_specification]
#[verifier::external_body]
#[verifier::reject_recursive_types(T)]
pub struct ExSender<T>(Sender<T>);

#[verifier::external_type_specification]
#[verifier::external_body]
#[verifier::reject_recursive_types(T)]
pub struct ExReceiver<T>(Receiver<T>);

/// Relies on tokio::sync::mpsc::channel: creates a bounded channel of the
/// given capacity. The capacity bounds keep clear of its panics (it asserts
/// a positive buffer and a semaphore permit cap of `usize::MAX / 8`).
#[verifier::external_body]
pub(crate) fn channel_pair(capacity: usize) -> (r: (Sender<String>, Receiver<String>))
    requires
        0 < capacity <= usize::MAX / 8,
{
    tokio::sync::mpsc::channel(capacity)
}

/// Relies on tokio::sync::mpsc::Sender::try_send: queues the message if the
/// channel has room and a live receiver, and returns an error otherwise,
/// never blocking. Whether it succeeds depends on the channel's state, so
/// nothing is promised of the outcome.
#[verifier::external_body]
pub(crate) fn try_send_text(tx: &Sender<String>, text: String) -> (delivered: bool) {
    tx.try_send(text).is_ok()
}

} // verus!
