//! The channels that carry published messages: `tokio`'s broadcast
//! channels, behind the few calls that the database makes on them.

use bytes::Bytes;
use tokio::sync::broadcast::{Receiver, Sender};
use vstd::prelude::*;

verus! {

/// `tokio::sync::broadcast::Sender`, the sending half of a channel. It is
/// carried around and handed to the calls below; nothing of it is stated.
#[verifier::external_type_specification]
#[verifier::external_body]
#[verifier::reject_recursive_types(T)]
pub struct ExSender<T>(tokio::sync::broadcast::Sender<T>);

/// `tokio::sync::broadcast::Receiver`, a receiving half of a channel. It
/// is carried around; nothing of it is stated.
#[verifier::external_type_specification]
#[verifier::external_body]
#[verifier::reject_recursive_types(T)]
pub struct ExReceiver<T>(tokio::sync::broadcast::Receiver<T>);

/// The number of messages that a channel holds for subscribers that lag.
pub const CAPACITY: usize = 1024;

/// `tokio::sync::broadcast::channel`: a new channel and its first receiver.
/// It panics on a capacity of zero or above `usize::MAX / 2`.
#[verifier::external_body]
pub(crate) fn channel(capacity: usize) -> (pair: (Sender<Bytes>, Receiver<Bytes>))
    requires
        0 < capacity <= usize::MAX / 2,
{
    tokio::sync::broadcast::channel(capacity)
}

/// `Sender::subscribe`: one more receiver of the channel. Nothing is stated
/// of it. (It panics once a channel has `usize::MAX >> 2` receivers.)
#[verifier::external_body]
pub(crate) fn subscribe(sender: &Sender<Bytes>) -> (receiver: Receiver<Bytes>) {
    sender.subscribe()
}

/// `Sender::send`: the message goes to the receivers that the channel has at
/// this moment, and their number comes back; it is at least one. With no
/// receiver nothing is sent and nothing comes back.
#[verifier::external_body]
pub(crate) fn send(sender: &Sender<Bytes>, value: Bytes) -> (sent: Option<usize>)
    ensures
        sent matches Some(n) ==> n >= 1,
{
    sender.send(value).ok()
}

} // verus!
