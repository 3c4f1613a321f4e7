//! The ends of `std::sync::mpsc` channels that the request queues read and
//! answer on.
use vstd::prelude::*;

verus! {

#[verifier::external_type_specification]
#[verifier::external_body]
#[verifier::reject_recursive_types(T)]
pub struct ExReceiver<T>(std::sync::mpsc::Receiver<T>);

#[verifier::external_type_specification]
#[verifier::external_body]
#[verifier::reject_recursive_types(T)]
pub struct ExSender<T>(std::sync::mpsc::Sender<T>);

/// Calls `Receiver::try_iter` and collects what it yields: the messages
/// already waiting, in the order they were sent, without blocking. Which
/// messages are waiting depends on the other threads, so the contract
/// states nothing of them.
#[verifier::external_body]
pub(crate) fn waiting_messages<T>(rx: &std::sync::mpsc::Receiver<T>) -> Vec<T> {
    rx.try_iter().collect()
}

/// `received` is what one call of `waiting_messages` on `rx` took off the
/// channel.
pub closed spec fn took_from_channel<T>(rx: &std::sync::mpsc::Receiver<T>, received: Vec<T>) -> bool {
    call_ensures(waiting_messages::<T>, (rx,), received)
}

/// Takes the messages already waiting on `rx` (see `waiting_messages`),
/// and records that they are what was taken off the channel.
pub(crate) fn take_waiting<T>(rx: &std::sync::mpsc::Receiver<T>) -> (received: Vec<T>)
    ensures
        took_from_channel(rx, received),
{
    let take = waiting_messages::<T>;
    take(rx)
}

/// Calls `Sender::send` with `()`. Whether the other end still listens is
/// not known here, so a failed send is ignored and nothing is stated.
#[verifier::external_body]
pub(crate) fn send_ack(ack: &std::sync::mpsc::Sender<()>) {
    let _ = ack.send(());
}

} // verus!
