//! What this library takes on trust of tokio's broadcast channel. Nothing in
//! this file is proved: each item states what tokio's source shows.

use tokio::sync::broadcast::{Receiver, Sender};
use vstd::prelude::*;

verus! {

/// `tokio::sync::broadcast::Sender`, the sending half of a channel. Opaque
/// here: it is only passed on.
#[verifier::external_type_specification]
#[verifier::external_body]
#[verifier::reject_recursive_types(T)]
pub struct ExSender<T>(Sender<T>);

/// `tokio::sync::broadcast::Receiver`, one subscription to a channel. Opaque
/// here: it is only passed on.
#[verifier::external_type_specification]
#[verifier::external_body]
#[verifier::reject_recursive_types(T)]
pub struct ExReceiver<T>(Receiver<T>);

/// `tokio::sync::broadcast::channel` makes a channel and its first
/// subscription. It panics on a capacity of zero or above `usize::MAX / 2`,
/// which the precondition leaves out. Nothing is claimed of the two halves.
pub assume_specification<T: Clone>[ tokio::sync::broadcast::channel::<T> ](capacity: usize) -> (ends:
    (Sender<T>, Receiver<T>))
    requires
        0 < capacity <= usize::MAX / 2,
;

/// `tokio::sync::broadcast::Sender::send`, its answer taken apart into plain
/// values.
///
/// The call fails when the channel has no subscription, and otherwise returns
/// how many it has: at least one, and no more than `usize::MAX >> 2`, beyond
/// which tokio lets the number not grow. On failure tokio's error holds the
/// very value that was to be sent, and its `Display` writes "channel closed".
/// Whether the call succeeds depends on the other holders of the channel, so
/// nothing is claimed of that.
#[verifier::external_body]
pub(crate) fn offer<T>(sender: &Sender<T>, value: T) -> (answer: Result<usize, (T, String)>)
    ensures
        match answer {
            Ok(subscriptions) => 1 <= subscriptions <= usize::MAX / 4,
            Err((unsent, text)) => unsent == value && text@ == "channel closed"@,
        },
{
    match sender.send(value) {
        Ok(subscriptions) => Ok(subscriptions),
        Err(error) => {
            let text = error.to_string();
            Err((error.0, text))
        },
    }
}

/// `tokio::sync::broadcast::Sender::receiver_count` returns how many
/// subscriptions the channel has at the moment of the call. That depends on
/// the other holders of the channel, so nothing is claimed of the number.
pub assume_specification<T>[ tokio::sync::broadcast::Sender::<T>::receiver_count ](
    sender: &Sender<T>,
) -> (subscriptions: usize)
;

/// `tokio::sync::broadcast::Sender::subscribe` makes a new subscription, which
/// sees what is sent after this call. Nothing is claimed of it here. (It
/// panics where the channel has `usize::MAX >> 2` subscriptions already, which
/// takes as many calls whose subscriptions were never dropped.)
pub assume_specification<T>[ tokio::sync::broadcast::Sender::<T>::subscribe ](
    sender: &Sender<T>,
) -> (receiver: Receiver<T>)
;

/// `Clone` for `tokio::sync::broadcast::Sender` makes another sender of the
/// same channel. Nothing is claimed of it here.
pub assume_specification<T>[ <tokio::sync::broadcast::Sender<T> as Clone>::clone ](
    sender: &Sender<T>,
) -> (copy: Sender<T>)
;

} // verus!
