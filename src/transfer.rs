//! The decisions of the readiness-driven read and write loops: how far a
//! transfer over a fixed-size buffer has come and when it is over.

use vstd::prelude::*;

verus! {

/// The size of the buffer that the readiness-driven server and client read
/// a message into.
pub const READ_BUFFER_SIZE: usize = 128;

/// The outcome of one non-blocking read or write attempt.
#[derive(Clone, Copy, Debug, PartialEq, Eq, Structural)]
pub enum IoOutcome {
    /// That many bytes went through; zero means the peer closed.
    Transferred(usize),
    /// The socket was not ready; nothing went through.
    WouldBlock,
    /// The attempt failed.
    Failed,
}

#[derive(Clone, Copy, Debug, PartialEq, Eq, Structural)]
pub enum TransferStep {
    /// Wait for readiness and try again.
    Continue,
    /// The transfer is over: the buffer is full, all bytes are out, or the
    /// peer closed.
    Done,
    /// The transfer failed.
    Abort,
}

/// How many of `total` bytes have been moved.
pub struct TransferProgress {
    pub done: usize,
    pub total: usize,
}

impl TransferProgress {
    pub fn new(total: usize) -> (r: Self)
        ensures
            r.done == 0,
            r.total == total,
    {
        TransferProgress { done: 0, total }
    }

    pub open spec fn wf(&self) -> bool {
        self.done <= self.total
    }

    /// Takes in the outcome of one attempt. A transfer of `n` bytes, with
    /// `n` no more than what was left, moves the mark on.
    pub fn step(&mut self, outcome: IoOutcome) -> (r: TransferStep)
        requires
            old(self).wf(),
            outcome matches IoOutcome::Transferred(n) ==> n <= old(self).total - old(self).done,
        ensures
            final(self).wf(),
            final(self).total == old(self).total,
            match outcome {
                IoOutcome::Transferred(n) => final(self).done == old(self).done + n && r == (if n == 0
                    || final(self).done == final(self).total {
                    TransferStep::Done
                } else {
                    TransferStep::Continue
                }),
                IoOutcome::WouldBlock => final(self).done == old(self).done && r == TransferStep::Continue,
                IoOutcome::Failed => final(self).done == old(self).done && r == TransferStep::Abort,
            },
    {
        match outcome {
            IoOutcome::Transferred(n) => {
                self.done = self.done + n;
                if n == 0 || self.done == self.total {
                    TransferStep::Done
                } else {
                    TransferStep::Continue
                }
            },
            IoOutcome::WouldBlock => TransferStep::Continue,
            IoOutcome::Failed => TransferStep::Abort,
        }
    }

    /// Whether nothing is left to move.
    pub fn is_complete(&self) -> (r: bool)
        ensures
            r == (self.done == self.total),
    {
        self.done == self.total
    }
}

} // verus!
