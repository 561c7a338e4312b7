//! Progress of writing one payload, in full, to one sink.

use vstd::prelude::*;

verus! {

/// What one write attempt on a sink reported.
#[derive(PartialEq, Eq, Structural, Clone, Copy, Debug)]
pub enum WriteOutcome {
    /// The transport accepted this many bytes from the front of the unsent tail.
    Wrote(usize),
    /// The transport reported an error.
    Failed,
}

/// Where a sink's write of a payload stands after an attempt.
#[derive(PartialEq, Eq, Structural, Clone, Copy, Debug)]
pub enum WriteStatus {
    /// Part of the payload is still unsent.
    Pending,
    /// The whole payload was written.
    Complete,
    /// The sink failed: an error, or a write that accepted no byte.
    Failed,
}

/// The write of a payload of `len` bytes to one sink, of which the first
/// `sent` bytes have been accepted by the transport.
pub struct SinkWrite {
    len: usize,
    sent: usize,
    failed: bool,
}

impl SinkWrite {
    pub closed spec fn len_spec(&self) -> nat {
        self.len as nat
    }

    pub closed spec fn sent_spec(&self) -> nat {
        self.sent as nat
    }

    pub closed spec fn failed_spec(&self) -> bool {
        self.failed
    }

    pub open spec fn status_spec(&self) -> WriteStatus {
        if self.failed_spec() {
            WriteStatus::Failed
        } else if self.sent_spec() == self.len_spec() {
            WriteStatus::Complete
        } else {
            WriteStatus::Pending
        }
    }

    pub closed spec fn wf(&self) -> bool {
        self.sent <= self.len
    }

    /// A write of `len` bytes of which nothing has been sent yet.
    pub fn new(len: usize) -> (w: SinkWrite)
        ensures
            w.wf(),
            w.len_spec() == len,
            w.sent_spec() == 0,
            !w.failed_spec(),
    {
        SinkWrite { len, sent: 0, failed: false }
    }

    /// Offset of the first byte that has not been accepted yet: the next
    /// attempt hands the transport the payload from here to its end.
    pub fn sent(&self) -> (r: usize)
        ensures
            r == self.sent_spec(),
    {
        self.sent
    }

    pub fn status(&self) -> (r: WriteStatus)
        ensures
            r == self.status_spec(),
    {
        if self.failed {
            WriteStatus::Failed
        } else if self.sent == self.len {
            WriteStatus::Complete
        } else {
            WriteStatus::Pending
        }
    }

    /// Records the outcome of one attempt at writing the unsent tail.
    ///
    /// Accepted bytes advance the offset by exactly their count; an error,
    /// or an attempt that accepted no byte, fails the sink for good.
    pub fn record(&mut self, outcome: WriteOutcome) -> (r: WriteStatus)
        requires
            old(self).wf(),
            old(self).status_spec() == WriteStatus::Pending,
            outcome matches WriteOutcome::Wrote(k) ==> k <= old(self).len_spec()
                - old(self).sent_spec(),
        ensures
            final(self).wf(),
            final(self).len_spec() == old(self).len_spec(),
            r == final(self).status_spec(),
            match outcome {
                WriteOutcome::Wrote(k) => if k == 0 {
                    &&& final(self).failed_spec()
                    &&& final(self).sent_spec() == old(self).sent_spec()
                } else {
                    &&& !final(self).failed_spec()
                    &&& final(self).sent_spec() == old(self).sent_spec() + k
                },
                WriteOutcome::Failed => {
                    &&& final(self).failed_spec()
                    &&& final(self).sent_spec() == old(self).sent_spec()
                },
            },
    {
        match outcome {
            WriteOutcome::Wrote(k) => {
                if k == 0 {
                    self.failed = true;
                } else {
                    self.sent = self.sent + k;
                }
            },
            WriteOutcome::Failed => {
                self.failed = true;
            },
        }
        self.status()
    }
}

} // verus!
