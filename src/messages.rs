//! Values exchanged between the operator, the coordinator, the replicas and the UI.
use std::collections::HashMap;
use vstd::prelude::*;

verus! {

/// A key and the value to store under it.
#[derive(Clone, Debug, PartialEq, Eq)]
pub struct KeyValue {
    pub key: String,
    pub value: String,
}

/// A key-value command proposed to the cluster.
#[derive(Clone, Debug, PartialEq, Eq)]
pub enum KVCommand {
    Put(KeyValue),
    Delete(String),
    Get(String),
}

/// A leadership epoch as self-reported by a replica, ordered by `round_num` first,
/// then by `leader`.
#[derive(Clone, Copy, Debug, PartialEq, Eq, Structural)]
pub struct Round {
    pub round_num: u32,
    pub leader: u64,
}

/// Lexicographic order on rounds.
pub open spec fn round_lt(a: Round, b: Round) -> bool {
    a.round_num < b.round_num || (a.round_num == b.round_num && a.leader < b.leader)
}

impl Round {
    /// Whether `self` comes strictly after `other`.
    pub fn is_newer_than(&self, other: &Round) -> (r: bool)
        ensures
            r == round_lt(*other, *self),
    {
        other.round_num < self.round_num || (other.round_num == self.round_num && other.leader
            < self.leader)
    }
}

/// A self-report envelope sent by a replica on its client socket.
#[derive(Clone, Debug, PartialEq, Eq)]
pub enum APIResponse {
    Decided(u64),
    Get(String, Option<String>),
    NewRound(Option<Round>),
    Happiness(bool),
}

/// A control event for the coordinator.
#[derive(Clone, Debug, PartialEq, Eq)]
pub enum CDMessage {
    StartBatchingPropose(u64),
    /// Launch to initialize the application.
    Initialize,
    KVCommand(KVCommand, Option<u64>),
    SetConnection(u64, Option<u64>, bool),
    OmnipaxosNodeCrashed(u64),
    OmnipaxosNodeJoined(u64),
    NewRound(u64, Option<Round>),
    Happiness(u64, bool),
    Scenario(String),
}

/// The consolidated cluster view published to the UI.
#[derive(Clone, Debug, PartialEq, Eq)]
pub struct NetworkState {
    pub nodes: Vec<u64>,
    pub alive_nodes: Vec<u64>,
    pub happiness: HashMap<u64, bool>,
    pub partitions: Vec<(u64, u64)>,
    pub max_round: Option<Round>,
}

/// An event for the UI.
#[derive(Clone, Debug, PartialEq, Eq)]
pub enum UIMessage {
    ClearConsole,
    /// Launch to initialize the application.
    Initialize,
    UpdateUi,
    OmnipaxosResponse(APIResponse),
    OmnipaxosNetworkUpdate(NetworkState),
    OmnipaxosNodeCrashed(u64),
    ClusterUnreachable,
    NoSuchNode(u64, Vec<u64>),
    ProposalStatus(u64),
    Debug(String),
    Exit,
}

/// A message on the event bus: for the coordinator or for the UI.
#[derive(Clone, Debug, PartialEq, Eq)]
pub enum IOMessage {
    CDMessage(CDMessage),
    UIMessage(UIMessage),
}

/// Progress of a batch of proposals, as shown by the UI.
#[derive(Clone, Copy, Debug, PartialEq, Eq, Structural)]
pub struct Progress {
    pub starting_idx: u64,
    pub is_ongoing: bool,
    pub finished: u64,
    pub total: u64,
}

impl Progress {
    /// No batch in progress.
    pub fn new() -> (r: Progress)
        ensures
            r == (Progress { starting_idx: 0, is_ongoing: false, finished: 0, total: 0 }),
    {
        Progress { starting_idx: 0, is_ongoing: false, finished: 0, total: 0 }
    }

    /// Takes a batch total published by the proposal streamer: a non-zero total
    /// starts a batch at the current decided index, or updates the running one; zero
    /// ends it.
    pub fn on_status(&mut self, total: u64, decided_idx: u64)
        ensures
            *final(self) == (if total == 0 {
                Progress { is_ongoing: false, ..*old(self) }
            } else if !old(self).is_ongoing {
                Progress { starting_idx: decided_idx, is_ongoing: true, finished: 0, total }
            } else {
                Progress { total, ..*old(self) }
            }),
    {
        if total != 0 {
            if !self.is_ongoing {
                self.is_ongoing = true;
                self.total = total;
                self.starting_idx = decided_idx;
                self.finished = 0;
            } else {
                self.total = total;
            }
        } else {
            self.is_ongoing = false;
        }
    }

    /// Takes a new decided index: the batch has finished the entries decided since it
    /// started (none, should the index be below the start).
    pub fn on_decided(&mut self, idx: u64)
        ensures
            *final(self) == (Progress {
                finished: if idx >= old(self).starting_idx {
                    (idx - old(self).starting_idx) as u64
                } else {
                    0
                },
                ..*old(self)
            }),
    {
        self.finished = idx.saturating_sub(self.starting_idx);
    }
}

} // verus!
