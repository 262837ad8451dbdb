use vstd::prelude::*;

use crate::error::LogError;

verus! {

#[verifier::external_type_specification]
#[verifier::external_body]
#[verifier::reject_recursive_types(T)]
pub struct ExSender<T>(may::sync::mpsc::Sender<T>);

#[verifier::external_type_specification]
#[verifier::external_body]
#[verifier::reject_recursive_types(T)]
pub struct ExReceiver<T>(may::sync::mpsc::Receiver<T>);

/// Relies on may's `sync::mpsc::channel`: it returns the producer and
/// consumer endpoints of one fresh unbounded FIFO queue.
#[verifier::external_body]
pub fn new_channel<T>() -> (r: (may::sync::mpsc::Sender<T>, may::sync::mpsc::Receiver<T>)) {
    may::sync::mpsc::channel()
}

/// Relies on may's `Sender::send`: the value is queued wait-free, and the
/// call fails only once the receiving end is gone. The error value carries
/// nothing but the rejected message, so only success is reported.
#[verifier::external_body]
pub fn channel_send<T>(s: &may::sync::mpsc::Sender<T>, t: T) -> (ok: bool) {
    s.send(t).is_ok()
}

/// Maps a failed queue send to the error the callers report.
pub fn send_result(ok: bool) -> (r: Result<(), LogError>)
    ensures
        ok ==> r == Result::<(), LogError>::Ok(()),
        !ok ==> r == Result::<(), LogError>::Err(LogError::SendFailed),
{
    if ok {
        Ok(())
    } else {
        Err(LogError::SendFailed)
    }
}

} // verus!
