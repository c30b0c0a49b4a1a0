use std::sync::mpsc::{Receiver, Sender};
use vstd::prelude::*;

verus! {

#[verifier::external_type_specification]
#[verifier::external_body]
#[verifier::reject_recursive_types(T)]
pub struct ExSender<T>(Sender<T>);

#[verifier::external_type_specification]
#[verifier::external_body]
#[verifier::reject_recursive_types(T)]
pub struct ExReceiver<T>(Receiver<T>);

/// Relies on std's `mpsc::Sender::send`. A send can only fail when the
/// receiving end has been dropped; by the library's lifecycle that is a
/// coordination bug, so it aborts here. Nothing about the channel's state is
/// visible to the verifier.
#[verifier::external_body]
pub fn send_or_error<T>(sender: &Sender<T>, msg: T) {
    sender.send(msg).expect("sending on a closed channel");
}

/// Relies on std's `mpsc::Receiver::recv`: blocks until a message arrives.
/// A receive can only fail when every sending end has been dropped; by the
/// library's lifecycle that is a coordination bug, so it aborts here. The
/// received value is arbitrary to the verifier.
#[verifier::external_body]
pub fn recv_or_error<T>(receiver: &Receiver<T>) -> T {
    receiver.recv().expect("receiving on a closed channel")
}

} // verus!
