use vstd::prelude::*;

use crate::database::ChatMessage;

verus! {

/// What one receive on a live subscription produced.
pub enum RecvOutcome {
    /// The next message of the room.
    Message(ChatMessage),
    /// The subscriber fell behind and this many messages were dropped for it.
    Lagged(u64),
    /// The channel is gone; no message will follow.
    Closed,
}

/// What the client-facing stream does with one receive.
pub enum StreamStep {
    /// Send the message to the client as an event.
    Emit(ChatMessage),
    /// Send nothing and keep receiving.
    Skip,
    /// End the stream.
    End,
}

/// Counters of one subscription, for diagnostics.
pub struct StreamStats {
    /// Messages handed to the client.
    pub delivered: u64,
    /// Messages lost to lag, as the channel reported them.
    pub missed: u64,
}

pub open spec fn capped_add(a: u64, b: u64) -> u64 {
    if a + b > u64::MAX { u64::MAX } else { (a + b) as u64 }
}

impl StreamStats {
    pub fn new() -> (r: StreamStats)
        ensures
            r.delivered == 0 && r.missed == 0,
    {
        StreamStats { delivered: 0, missed: 0 }
    }

    /// The step for `outcome`: a message is emitted, a lag is counted and
    /// skipped without ending the stream, and a closed channel ends it.
    pub fn next_step(&mut self, outcome: RecvOutcome) -> (r: StreamStep)
        ensures
            match outcome {
                RecvOutcome::Message(m) => r == StreamStep::Emit(m)
                    && final(self).delivered == capped_add(old(self).delivered, 1)
                    && final(self).missed == old(self).missed,
                RecvOutcome::Lagged(n) => r == StreamStep::Skip
                    && final(self).missed == capped_add(old(self).missed, n)
                    && final(self).delivered == old(self).delivered,
                RecvOutcome::Closed => r == StreamStep::End && *final(self) == *old(self),
            },
    {
        match outcome {
            RecvOutcome::Message(m) => {
                if self.delivered < u64::MAX {
                    self.delivered = self.delivered + 1;
                }
                StreamStep::Emit(m)
            },
            RecvOutcome::Lagged(n) => {
                if self.missed > u64::MAX - n {
                    self.missed = u64::MAX;
                } else {
                    self.missed = self.missed + n;
                }
                StreamStep::Skip
            },
            RecvOutcome::Closed => StreamStep::End,
        }
    }
}

} // verus!
