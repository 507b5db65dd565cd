//! Fan-out of captured frames to session listeners through capacity-1
//! queues: a full queue drops the frame and counts the drop, a closed one
//! removes the listener.

use vstd::prelude::*;

verus! {

/// What to capture.
#[derive(Debug, Clone, Copy, PartialEq, Eq, Structural)]
pub enum CaptureSource {
    /// The primary monitor.
    PrimaryMonitor,
    /// One window, by its id.
    Window(u32),
}

/// The result of a non-blocking send to one listener's queue.
#[derive(Debug, Clone, Copy, PartialEq, Eq, Structural)]
pub enum SendOutcome {
    Delivered,
    Full,
    Closed,
}

/// What to do with a listener after a send.
#[derive(Debug, Clone, Copy, PartialEq, Eq, Structural)]
pub struct ListenerVerdict {
    /// Keep the listener; false once its queue is closed.
    pub keep: bool,
    /// Report this many dropped frames; given on the first drop and every
    /// 60 drops after it.
    pub log_dropped: Option<u64>,
}

/// How many drops go between two reports.
pub const DROP_LOG_EVERY: u64 = 60;

/// The counter of consecutive drops, shared by all listeners; a delivery resets it.
pub struct DropCounter {
    count: u64,
}

/// The counter after one outcome.
pub open spec fn counter_after(c: u64, o: SendOutcome) -> u64 {
    match o {
        SendOutcome::Delivered => 0,
        SendOutcome::Full => if c == u64::MAX {
            0
        } else {
            (c + 1) as u64
        },
        SendOutcome::Closed => c,
    }
}

/// The counter after a run of outcomes, in order.
pub open spec fn counter_run(c: u64, outs: Seq<SendOutcome>) -> u64
    decreases outs.len(),
{
    if outs.len() == 0 {
        c
    } else {
        counter_after(counter_run(c, outs.drop_last()), outs.last())
    }
}

/// The outcomes of sending `n` frames to a listener whose queue holds `cap`
/// frames and is never drained: the first `cap` are delivered, the rest find it full.
pub open spec fn blocked_outcomes(n: nat, cap: nat) -> Seq<SendOutcome> {
    Seq::new(n, |i: int| if i < cap {
        SendOutcome::Delivered
    } else {
        SendOutcome::Full
    })
}

/// The number of deliveries among the outcomes.
pub open spec fn delivered(outs: Seq<SendOutcome>) -> nat
    decreases outs.len(),
{
    if outs.len() == 0 {
        0
    } else {
        delivered(outs.drop_last()) + if outs.last() == SendOutcome::Delivered {
            1nat
        } else {
            0nat
        }
    }
}

/// Backpressure: `n` frames sent to a listener whose queue of capacity `cap`
/// is never drained deliver exactly `cap` frames, and leave the drop counter
/// at exactly the number dropped, `n - cap`.
pub proof fn lemma_blocked_listener(c: u64, n: nat, cap: nat)
    requires
        1 <= cap <= n,
        n - cap <= u64::MAX,
    ensures
        delivered(blocked_outcomes(n, cap)) == cap,
        counter_run(c, blocked_outcomes(n, cap)) == n - cap,
    decreases n,
{
    let outs = blocked_outcomes(n, cap);
    if n > cap {
        lemma_blocked_listener(c, (n - 1) as nat, cap);
        assert(outs.drop_last() =~= blocked_outcomes((n - 1) as nat, cap));
    } else {
        lemma_all_delivered(c, n);
        assert(outs =~= blocked_outcomes(n, n));
    }
}

proof fn lemma_all_delivered(c: u64, n: nat)
    requires
        n >= 1,
    ensures
        delivered(blocked_outcomes(n, n)) == n,
        counter_run(c, blocked_outcomes(n, n)) == 0,
    decreases n,
{
    let outs = blocked_outcomes(n, n);
    if n > 1 {
        lemma_all_delivered(c, (n - 1) as nat);
        assert(outs.drop_last() =~= blocked_outcomes((n - 1) as nat, (n - 1) as nat));
    } else {
        assert(outs.drop_last() =~= Seq::<SendOutcome>::empty());
        assert(delivered(outs.drop_last()) == 0);
        assert(counter_run(c, outs.drop_last()) == c);
        assert(outs.last() == SendOutcome::Delivered);
    }
}

impl DropCounter {
    pub closed spec fn value(&self) -> u64 {
        self.count
    }

    pub fn new() -> (r: DropCounter)
        ensures
            r.value() == 0,
    {
        DropCounter { count: 0 }
    }

    /// The current count.
    pub fn count(&self) -> (r: u64)
        ensures
            r == self.value(),
    {
        self.count
    }

    /// Accounts for one send to one listener.
    pub fn record(&mut self, outcome: SendOutcome) -> (r: ListenerVerdict)
        ensures
            final(self).value() == counter_after(old(self).value(), outcome),
            r.keep == (outcome != SendOutcome::Closed),
            r.log_dropped == if outcome == SendOutcome::Full && old(self).value() % DROP_LOG_EVERY
                == 0 {
                Some(final(self).value())
            } else {
                None::<u64>
            },
    {
        match outcome {
            SendOutcome::Delivered => {
                self.count = 0;
                ListenerVerdict { keep: true, log_dropped: None }
            },
            SendOutcome::Full => {
                let before = self.count;
                self.count = if before == u64::MAX {
                    0
                } else {
                    before + 1
                };
                let log = if before % DROP_LOG_EVERY == 0 {
                    Some(self.count)
                } else {
                    None
                };
                ListenerVerdict { keep: true, log_dropped: log }
            },
            SendOutcome::Closed => ListenerVerdict { keep: false, log_dropped: None },
        }
    }
}

} // verus!
