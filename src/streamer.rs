//! The proposal streamer's own state: the counters behind the progress display, and
//! the addressing of one command.
use crate::messages::KVCommand;
use crate::wire::{encode_request, request_line};
use vstd::prelude::*;

verus! {

/// What one tick of the proposal streamer sends.
#[derive(Clone, Debug, PartialEq, Eq)]
pub enum Proposal {
    /// Write this request line to the client socket of this node, the leader.
    Send(u64, String),
    /// No leader is known, or the leader's client socket is not connected.
    Unreachable,
}

/// The batch counters after sampling a queue of length `len`: a grown queue adds its
/// growth to the batch total (saturating) and marks a batch as running; a running
/// batch whose queue emptied resets the total. The third component is the total to
/// publish, when it changed.
pub open spec fn sampled(last: nat, total: u64, batching: bool, len: nat) -> (u64, bool, Option<u64>) {
    if len > last {
        let grown = (len - last) as u64;
        let t = if total + grown > u64::MAX {
            u64::MAX
        } else {
            (total + grown) as u64
        };
        (t, true, Some(t))
    } else if batching && len == 0 {
        (0, false, Some(0))
    } else {
        (total, batching, None)
    }
}

/// Paces proposals and tracks the size of the running batch.
pub struct ProposalStreamer {
    last_queue_size: usize,
    current_batch_size: u64,
    currently_batching: bool,
}

impl ProposalStreamer {
    /// The queue length left after the previous tick.
    pub closed spec fn last_queue_size(&self) -> nat {
        self.last_queue_size as nat
    }

    /// The number of commands in the running batch.
    pub closed spec fn batch_total(&self) -> u64 {
        self.current_batch_size
    }

    /// Whether a batch is running.
    pub closed spec fn batching(&self) -> bool {
        self.currently_batching
    }

    /// No batch, and an empty queue seen last.
    pub fn new() -> (r: ProposalStreamer)
        ensures
            r.last_queue_size() == 0,
            r.batch_total() == 0,
            !r.batching(),
    {
        ProposalStreamer { last_queue_size: 0, current_batch_size: 0, currently_batching: false }
    }

    /// Samples the queue length at the start of a tick; returns the batch total to
    /// publish, when it changed.
    pub fn sample(&mut self, queue_len: usize) -> (r: Option<u64>)
        ensures
            (final(self).batch_total(), final(self).batching(), r) == sampled(
                old(self).last_queue_size(),
                old(self).batch_total(),
                old(self).batching(),
                queue_len as nat,
            ),
            final(self).last_queue_size() == old(self).last_queue_size(),
    {
        if queue_len > self.last_queue_size {
            let grown = (queue_len - self.last_queue_size) as u64;
            self.current_batch_size = self.current_batch_size.saturating_add(grown);
            self.currently_batching = true;
            Some(self.current_batch_size)
        } else if self.currently_batching && queue_len == 0 {
            self.currently_batching = false;
            self.current_batch_size = 0;
            Some(0)
        } else {
            None
        }
    }

    /// Records the queue length left at the end of a tick.
    pub fn settle(&mut self, queue_len: usize)
        ensures
            final(self).last_queue_size() == queue_len,
            final(self).batch_total() == old(self).batch_total(),
            final(self).batching() == old(self).batching(),
    {
        self.last_queue_size = queue_len;
    }

    /// Addresses `cmd` to `leader`, the current leader when it is known and its client
    /// socket is connected; without one the cluster is unreachable.
    pub fn propose_command(&self, cmd: &KVCommand, leader: Option<u64>) -> (r: Proposal)
        ensures
            r == (match leader {
                Some(pid) => Proposal::Send(pid, r->Send_1),
                None => Proposal::Unreachable,
            }),
            r matches Proposal::Send(_, line) ==> line@ == request_line(*cmd),
    {
        match leader {
            Some(pid) => Proposal::Send(pid, encode_request(cmd)),
            None => Proposal::Unreachable,
        }
    }
}

} // verus!
