//! The cancellation signal that a running job polls.

use vstd::prelude::*;
use std::sync::mpsc::Receiver;

verus! {

/// The receiving end of a channel of the standard library. Nothing is
/// claimed of its contents.
#[verifier::external_type_specification]
#[verifier::external_body]
#[verifier::reject_recursive_types(T)]
pub struct ExReceiver<T>(Receiver<T>);

/// Asks the channel, without blocking, whether a message has arrived
/// (`Receiver::try_recv`). Nothing is promised of the answer: it depends on
/// what the sending side has done by now.
#[verifier::external_body]
fn message_arrived(signal: &Receiver<bool>) -> (arrived: bool) {
    match signal.try_recv() {
        Ok(_) => true,
        Err(_) => false,
    }
}

/// A single-use cancellation signal. Once a poll has seen the signal the
/// token stays tripped. A token without a channel is never signalled.
pub struct CancelToken {
    signal: Option<Receiver<bool>>,
    tripped: bool,
}

impl CancelToken {
    /// Whether a poll has already seen the signal.
    pub closed spec fn tripped(&self) -> bool {
        self.tripped
    }

    /// A fresh token that listens on `signal`.
    pub fn new(signal: Receiver<bool>) -> (token: CancelToken)
        ensures
            token.signal() == Some(signal),
            !token.tripped(),
    {
        CancelToken { signal: Some(signal), tripped: false }
    }

    /// Whether a poll has already seen the signal.
    pub fn is_tripped(&self) -> (t: bool)
        ensures
            t == self.tripped(),
    {
        self.tripped
    }

    /// One checkpoint: looks for the signal unless it was seen before, and
    /// says whether the job is cancelled. What an untripped token with a
    /// channel answers depends on the sender; `latch` says what becomes of
    /// the answer. A token without a channel stays as it is.
    pub fn poll(&mut self) -> (cancelled: bool)
        ensures
            cancelled == final(self).tripped(),
            old(self).tripped() ==> cancelled,
            old(self).signal() is None ==> cancelled == old(self).tripped(),
            final(self).signal() == old(self).signal(),
    {
        let arrived = if self.tripped {
            false
        } else {
            match &self.signal {
                Some(channel) => message_arrived(channel),
                None => false,
            }
        };
        self.latch(arrived)
    }

    /// Takes what a look at the channel has found: the token is tripped
    /// from now on if a message had arrived, and stays tripped if it was.
    /// Says whether the job is cancelled.
    pub fn latch(&mut self, arrived: bool) -> (cancelled: bool)
        ensures
            final(self).tripped() == (old(self).tripped() || arrived),
            cancelled == final(self).tripped(),
            final(self).signal() == old(self).signal(),
    {
        if arrived {
            self.tripped = true;
        }
        self.tripped
    }

    /// The channel that the token listens on, if it has one.
    pub closed spec fn signal(&self) -> Option<Receiver<bool>> {
        self.signal
    }

    /// A fresh token without a channel: it never trips by itself.
    pub fn never() -> (token: CancelToken)
        ensures
            token.signal() is None,
            !token.tripped(),
    {
        CancelToken { signal: None, tripped: false }
    }
}

} // verus!
