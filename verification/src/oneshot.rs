//! A one-shot channel: one value, sent once, received once.

use vstd::prelude::*;

verus! {

#[verifier::external_type_specification]
#[verifier::external_body]
#[verifier::reject_recursive_types(T)]
pub struct ExMpscSender<T>(std::sync::mpsc::Sender<T>);

#[verifier::external_type_specification]
#[verifier::external_body]
#[verifier::reject_recursive_types(T)]
pub struct ExMpscReceiver<T>(std::sync::mpsc::Receiver<T>);

#[verifier::external_type_specification]
#[verifier::external_body]
pub struct ExRecvError(std::sync::mpsc::RecvError);

/// `std::sync::mpsc::channel`: a connected sending and receiving end.
#[verifier::external_body]
fn mpsc_channel<T>() -> (r: (std::sync::mpsc::Sender<T>, std::sync::mpsc::Receiver<T>)) {
    std::sync::mpsc::channel()
}

/// `mpsc::Sender::send`: the documentation returns the value back, inside
/// the error, when the receiving end is gone; whether it is gone is not known here.
#[verifier::external_body]
fn mpsc_send<T>(tx: &std::sync::mpsc::Sender<T>, value: T) -> (r: Result<(), T>)
    ensures
        r matches Err(v) ==> v == value,
{
    match tx.send(value) {
        Ok(()) => Ok(()),
        Err(e) => Err(e.0),
    }
}

/// `mpsc::Receiver::recv`: blocks for a value; fails when the sending end is
/// gone. What arrives depends on the sender and is not stated.
#[verifier::external_body]
fn mpsc_recv<T>(rx: &std::sync::mpsc::Receiver<T>) -> (r: Result<T, std::sync::mpsc::RecvError>) {
    rx.recv()
}

/// The sending end.
#[verifier::reject_recursive_types(T)]
pub struct Sender<T>(std::sync::mpsc::Sender<T>);

/// The receiving end.
#[verifier::reject_recursive_types(T)]
pub struct Receiver<T>(std::sync::mpsc::Receiver<T>);

/// A new channel.
pub fn channel<T>() -> (r: (Sender<T>, Receiver<T>)) {
    let (tx, rx) = mpsc_channel();
    (Sender(tx), Receiver(rx))
}

impl<T> Sender<T> {
    /// Sends the value; where the receiver is gone the value comes back.
    pub fn send(self, value: T) -> (r: Result<(), T>)
        ensures
            r matches Err(v) ==> v == value,
    {
        mpsc_send(&self.0, value)
    }
}

impl<T> Receiver<T> {
    /// Waits for the value; fails where the sender is gone without sending.
    pub fn recv(self) -> (r: Result<T, std::sync::mpsc::RecvError>) {
        mpsc_recv(&self.0)
    }
}

} // verus!
