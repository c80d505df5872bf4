//! The channels through which a game talks to its player, and the clock that bounds a search.
use vstd::prelude::*;
use std::sync::mpsc::{Receiver, Sender};
use std::time::{Duration, Instant};

verus! {

#[verifier::external_type_specification]
#[verifier::external_body]
#[verifier::reject_recursive_types(T)]
pub struct ExSender<T>(Sender<T>);

#[verifier::external_type_specification]
#[verifier::external_body]
#[verifier::reject_recursive_types(T)]
pub struct ExReceiver<T>(Receiver<T>);

#[verifier::external_type_specification]
#[verifier::external_body]
pub struct ExInstant(Instant);

/// `Sender::send`: hands one line (or, with `None`, the end of a reply) to the other side.
/// Whether the other side still listens is not known here, and a refusal is ignored.
#[verifier::external_body]
pub(crate) fn send_line(sender: &Sender<Option<String>>, line: Option<String>) {
    let _ = sender.send(line);
}

/// `Receiver::recv`: waits for the next line from the other side; `None` once that side has
/// gone. What arrives is not known here.
#[verifier::external_body]
pub(crate) fn receive_line(receiver: &Receiver<String>) -> Option<String> {
    receiver.recv().ok()
}

/// `Receiver::try_recv`: the next line from the other side if one is waiting; `None` when none
/// is or that side has gone. What arrives is not known here.
#[verifier::external_body]
pub(crate) fn try_receive_line(receiver: &Receiver<String>) -> Option<String> {
    receiver.try_recv().ok()
}

/// `std::sync::mpsc::channel`: a new channel for replies.
#[verifier::external_body]
pub(crate) fn reply_channel() -> (Sender<Option<String>>, Receiver<Option<String>>) {
    std::sync::mpsc::channel()
}

/// `std::sync::mpsc::channel`: a new channel for input lines.
#[verifier::external_body]
pub(crate) fn input_channel() -> (Sender<String>, Receiver<String>) {
    std::sync::mpsc::channel()
}

/// `Instant::now`.
#[verifier::external_body]
pub(crate) fn clock_now() -> Instant {
    Instant::now()
}

/// `Instant::elapsed`: the time passed since `start`. It depends on the clock, so nothing is
/// said of it.
#[verifier::external_body]
pub(crate) fn elapsed(start: &Instant) -> Duration {
    start.elapsed()
}

/// `Duration::as_millis`: the whole milliseconds of a span of time. Nothing is said of it here.
#[verifier::external_body]
pub(crate) fn whole_millis(d: &Duration) -> u128 {
    d.as_millis()
}

/// The whole milliseconds passed since `start`.
pub(crate) fn elapsed_millis(start: &Instant) -> u128 {
    whole_millis(&elapsed(start))
}

/// Sends each line, then the end of the reply.
pub fn send_reply(lines: &Vec<String>, sender: &Sender<Option<String>>) {
    let mut i: usize = 0;
    while i < lines.len()
        invariant
            i <= lines.len(),
        decreases lines.len() - i,
    {
        send_line(sender, Some(lines[i].clone()));
        i += 1;
    }
    send_line(sender, None);
}

} // verus!
