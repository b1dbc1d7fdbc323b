//! The broadcast hub of a cluster: tokio's bounded broadcast channel. A
//! receiver that falls more than the capacity behind loses the oldest events
//! and goes on with the newest; sending never blocks.

use tokio::sync::broadcast::{Receiver, Sender};
use vstd::prelude::*;

use crate::protocol::WatchResponse;

verus! {

#[verifier::external_type_specification]
#[verifier::external_body]
#[verifier::reject_recursive_types(T)]
pub struct ExSender<T>(Sender<T>);

#[verifier::external_type_specification]
#[verifier::external_body]
#[verifier::reject_recursive_types(T)]
pub struct ExReceiver<T>(Receiver<T>);

/// Relies on tokio's `broadcast::Sender::new`: a hub with no receivers that
/// keeps up to `capacity` events per receiver. It panics for a capacity of 0
/// or above `usize::MAX / 2`.
#[verifier::external_body]
pub(crate) fn new_hub(capacity: usize) -> Sender<WatchResponse>
    requires
        0 < capacity <= usize::MAX / 2,
{
    Sender::new(capacity)
}

/// Relies on tokio's `broadcast::Sender::subscribe`: a receiver of the events
/// sent after this call.
#[verifier::external_body]
pub(crate) fn hub_subscribe(hub: &Sender<WatchResponse>) -> Receiver<WatchResponse> {
    hub.subscribe()
}

/// Relies on tokio's `broadcast::Sender::send`, which does not block: every
/// current receiver gets the event; with no receiver it is dropped, which is
/// no failure here.
#[verifier::external_body]
pub(crate) fn hub_send(hub: &Sender<WatchResponse>, event: WatchResponse) {
    let _ = hub.send(event);
}

} // verus!
