//! The coordinator: owns the partition set, the cluster view (alive nodes, highest
//! round, liveness flags), the command queue and the proposal streamer's counters,
//! and turns each control event into its state change and the UI events it emits.
use crate::messages::{CDMessage, IOMessage, KVCommand, KeyValue, NetworkState, Round, UIMessage, round_lt};
use crate::partition::{PartitionSet, with_all_links, with_link};
use crate::text::{decimal, decimal_text, same_text};
use crate::topology::{is_node_id, port_of, valid_nodes, Topology};
use crate::streamer::{sampled, Proposal, ProposalStreamer};
use crate::wire::request_line;
use std::collections::{HashMap, VecDeque};
use vstd::prelude::*;

verus! {

broadcast use vstd::std_specs::hash::group_hash_axioms;

/// Relies on `rand::random`: a value drawn from the standard distribution; nothing
/// is known of it.
pub assume_specification<T>[ rand::random::<T> ]() -> (r: T)
    where
        rand::distributions::Standard: rand::distributions::Distribution<T>,
;

/// The abstract state of the coordinator.
pub struct CoordinatorView {
    pub nodes: Seq<u64>,
    pub partitions: Set<u64>,
    pub alive: Seq<u64>,
    pub max_round: Option<Round>,
    pub happiness: Map<u64, bool>,
    pub queue: Seq<KVCommand>,
    pub last_queue_size: nat,
    pub batch_total: u64,
    pub batching: bool,
}

/// The second phase of the `constrained` scenario, run once its pause is over.
#[derive(Clone, Copy, Debug, PartialEq, Eq, Structural)]
pub struct ConstrainedFollowUp {
    pub next_leader: u64,
    pub current_leader: u64,
}

/// What handling a control event asks of the caller: UI events to emit, in order,
/// and possibly a follow-up to run after the `constrained` scenario's pause.
pub struct Reaction {
    pub ui: Vec<UIMessage>,
    pub follow_up: Option<ConstrainedFollowUp>,
}

/// Pause, in milliseconds, between the two phases of the `constrained` scenario.
pub const CONSTRAINED_PAUSE_MS: u64 = 3000;

/// Number of random puts that the `constrained` scenario proposes during its pause.
pub const CONSTRAINED_PROPOSALS: u64 = 10;

/// Number of nodes the scenarios are written for.
pub const SCENARIO_NODES: usize = 5;

pub struct Coordinator {
    topology: Topology,
    partitions: PartitionSet,
    alive: Vec<u64>,
    max_round: Option<Round>,
    happiness: HashMap<u64, bool>,
    queue: VecDeque<KVCommand>,
    streamer: ProposalStreamer,
}

/// `s` describes the state `v`: every field, and the partitions as undirected pairs
/// `(a, b)` with `a <= b`.
pub open spec fn is_snapshot_of(v: CoordinatorView, s: NetworkState) -> bool {
    &&& s.nodes@ == v.nodes
    &&& s.alive_nodes@ == v.alive
    &&& s.happiness@ == v.happiness
    &&& s.max_round == v.max_round
    &&& forall|a: u64, b: u64|
        #![trigger s.partitions@.contains((a, b))]
        #![trigger v.partitions.contains(port_of(a as int, b as int) as u64)]
        s.partitions@.contains((a, b)) <==> 1 <= a <= b <= 9 && v.partitions.contains(
            port_of(a as int, b as int) as u64,
        )
}

/// `ui` is exactly one snapshot of `v`.
pub open spec fn one_snapshot(v: CoordinatorView, ui: Seq<UIMessage>) -> bool {
    &&& ui.len() == 1
    &&& ui[0] matches UIMessage::OmnipaxosNetworkUpdate(s) && is_snapshot_of(v, s)
}

/// `ui` is exactly one report that `pid` is not a configured node.
pub open spec fn no_such_node(v: CoordinatorView, pid: u64, ui: Seq<UIMessage>) -> bool {
    &&& ui.len() == 1
    &&& ui[0] matches UIMessage::NoSuchNode(x, valid) && x == pid && valid@ == v.nodes
}

/// The highest round after a replica reports `r`: taken only when strictly higher.
pub open spec fn next_max_round(max: Option<Round>, r: Option<Round>) -> Option<Round> {
    match (max, r) {
        (Some(m), Some(n)) => if round_lt(m, n) {
            Some(n)
        } else {
            Some(m)
        },
        (None, Some(n)) => Some(n),
        _ => max,
    }
}

impl View for Coordinator {
    type V = CoordinatorView;

    closed spec fn view(&self) -> CoordinatorView {
        CoordinatorView {
            nodes: self.topology.nodes_view(),
            partitions: self.partitions@,
            alive: self.alive@,
            max_round: self.max_round,
            happiness: self.happiness@,
            queue: self.queue@,
            last_queue_size: self.streamer.last_queue_size(),
            batch_total: self.streamer.batch_total(),
            batching: self.streamer.batching(),
        }
    }
}

impl Coordinator {
    pub closed spec fn wf(&self) -> bool {
        &&& self.topology.wf()
        &&& self.partitions.wf()
        &&& self.alive@.no_duplicates()
    }

    /// The coordinator of the cluster `topology`: no partition, no node alive, no
    /// round known, an empty queue.
    pub fn new(topology: Topology) -> (r: Coordinator)
        requires
            topology.wf(),
        ensures
            r.wf(),
            r@ == (CoordinatorView {
                nodes: topology.nodes_view(),
                partitions: Set::empty(),
                alive: Seq::empty(),
                max_round: None,
                happiness: Map::empty(),
                queue: Seq::empty(),
                last_queue_size: 0,
                batch_total: 0,
                batching: false,
            }),
    {
        Coordinator {
            topology,
            partitions: PartitionSet::new(),
            alive: Vec::new(),
            max_round: None,
            happiness: HashMap::new(),
            queue: VecDeque::new(),
            streamer: ProposalStreamer::new(),
        }
    }

    /// The partition set, as the router reads it.
    pub fn partitions(&self) -> (r: &PartitionSet)
        requires
            self.wf(),
        ensures
            r@ == self@.partitions,
            r.wf(),
    {
        &self.partitions
    }

    /// The port tables of the cluster.
    pub fn topology(&self) -> (r: &Topology)
        requires
            self.wf(),
        ensures
            r.nodes_view() == self@.nodes,
            r.wf(),
    {
        &self.topology
    }

    /// The highest round seen so far.
    pub fn max_round(&self) -> (r: Option<Round>)
        ensures
            r == self@.max_round,
    {
        self.max_round
    }

    /// The number of commands waiting to be proposed.
    pub fn queue_len(&self) -> (r: usize)
        ensures
            r == self@.queue.len(),
    {
        self.queue.len()
    }

    /// Whether the client socket of `pid` is connected.
    pub fn is_alive(&self, pid: u64) -> (r: bool)
        ensures
            r == self@.alive.contains(pid),
    {
        let mut i: usize = 0;
        while i < self.alive.len()
            invariant
                0 <= i <= self.alive@.len(),
                forall|k: int| 0 <= k < i ==> self.alive@[k] != pid,
            decreases self.alive@.len() - i,
        {
            if self.alive[i] == pid {
                return true;
            }
            i += 1;
        }
        false
    }

    /// The current cluster view.
    pub fn snapshot(&self) -> (r: NetworkState)
        requires
            self.wf(),
        ensures
            is_snapshot_of(self@, r),
    {
        NetworkState {
            nodes: self.topology.nodes(),
            alive_nodes: self.alive.clone(),
            happiness: self.happiness.clone(),
            partitions: self.partitions.undirected_pairs(),
            max_round: self.max_round,
        }
    }

    fn snapshot_event(&self) -> (r: Vec<UIMessage>)
        requires
            self.wf(),
        ensures
            one_snapshot(self@, r@),
    {
        let mut r: Vec<UIMessage> = Vec::new();
        r.push(UIMessage::OmnipaxosNetworkUpdate(self.snapshot()));
        r
    }

    /// Appends `cmd` to the command queue.
    pub fn enqueue(&mut self, cmd: KVCommand)
        ensures
            final(self)@ == (CoordinatorView { queue: old(self)@.queue.push(cmd), ..old(self)@ }),
            final(self).wf() == old(self).wf(),
    {
        self.queue.push_back(cmd);
    }

    /// Appends `num` puts of random keys and values, each written in decimal, to the
    /// command queue.
    pub fn batch_proposals(&mut self, num: u64)
        ensures
            final(self).wf() == old(self).wf(),
            batch_effect(old(self)@, final(self)@, num),
    {
        let ghost start = self.queue@;
        let mut n: u64 = 0;
        while n < num
            invariant
                0 <= n <= num,
                self.queue@.len() == start.len() + n,
                self.queue@.subrange(0, start.len() as int) == start,
                forall|i: int|
                    start.len() <= i < self.queue@.len() ==> (#[trigger] self.queue@[i] matches KVCommand::Put(kv)
                        && (exists|k: u64, v: u64|
                        kv.key@ == decimal_text(k as nat) && kv.value@ == decimal_text(v as nat))),
                self@ == (CoordinatorView { queue: self.queue@, ..old(self)@ }),
                self.wf() == old(self).wf(),
            decreases num - n,
        {
            let k: u64 = rand::random::<u64>();
            let v: u64 = rand::random::<u64>();
            let kv = KeyValue { key: decimal(k), value: decimal(v) };
            let ghost before = self.queue@;
            self.queue.push_back(KVCommand::Put(kv));
            proof {
                assert(self.queue@.subrange(0, start.len() as int) =~= before.subrange(
                    0,
                    start.len() as int,
                ));
                assert forall|i: int| start.len() <= i < self.queue@.len() implies (
                #[trigger] self.queue@[i] matches KVCommand::Put(kv) && (exists|k: u64, v: u64|
                    kv.key@ == decimal_text(k as nat) && kv.value@ == decimal_text(v as nat))) by {
                    if i < before.len() {
                        assert(self.queue@[i] == before[i]);
                    }
                }
            }
            n += 1;
        }
    }

    /// Connects or disconnects node `from` and node `to`, or `from` and every other
    /// node when `to` is `None`, then publishes a snapshot. An unknown node id changes
    /// nothing and is reported instead.
    pub fn set_connection(&mut self, from: u64, to: Option<u64>, connected: bool) -> (r: Vec<
        UIMessage,
    >)
        requires
            old(self).wf(),
        ensures
            final(self).wf(),
            set_connection_effect(old(self)@, final(self)@, from, to, connected, r@),
    {
        if !self.topology.contains_node(from) {
            let mut r: Vec<UIMessage> = Vec::new();
            r.push(UIMessage::NoSuchNode(from, self.topology.nodes()));
            return r;
        }
        match to {
            Some(b) => {
                if !self.topology.contains_node(b) {
                    let mut r: Vec<UIMessage> = Vec::new();
                    r.push(UIMessage::NoSuchNode(b, self.topology.nodes()));
                    return r;
                }
                proof {
                    self.lemma_node_ids(from);
                    self.lemma_node_ids(b);
                }
                self.partitions.set_undirected(from, b, connected);
            },
            None => {
                proof {
                    self.lemma_node_ids(from);
                }
                let nodes = self.topology.nodes();
                self.partitions.set_all_from(&nodes, from, connected);
            },
        }
        self.snapshot_event()
    }

    proof fn lemma_node_ids(&self, a: u64)
        requires
            self.wf(),
            self@.nodes.contains(a),
        ensures
            is_node_id(a),
    {
        let i = self@.nodes.index_of(a);
        assert(is_node_id(self@.nodes[i]));
    }

    /// Takes a round reported by a replica: kept only when strictly higher than the
    /// highest so far, and then published in a snapshot.
    pub fn new_round(&mut self, round: Option<Round>) -> (r: Vec<UIMessage>)
        requires
            old(self).wf(),
        ensures
            final(self).wf(),
            new_round_effect(old(self)@, final(self)@, round, r@),
    {
        let accept = match (self.max_round, round) {
            (Some(m), Some(n)) => n.is_newer_than(&m),
            (None, Some(_)) => true,
            _ => false,
        };
        if accept {
            self.max_round = round;
            self.snapshot_event()
        } else {
            Vec::new()
        }
    }

    /// Records the liveness flag last reported by `pid`, then publishes a snapshot.
    pub fn set_happiness(&mut self, pid: u64, happy: bool) -> (r: Vec<UIMessage>)
        requires
            old(self).wf(),
        ensures
            final(self).wf(),
            final(self)@ == (CoordinatorView {
                happiness: old(self)@.happiness.insert(pid, happy),
                ..old(self)@
            }),
            one_snapshot(final(self)@, r@),
    {
        self.happiness.insert(pid, happy);
        self.snapshot_event()
    }

    /// Registers the client socket of `pid` as connected; returns the control event
    /// that announces it.
    pub fn client_joined(&mut self, pid: u64) -> (r: IOMessage)
        requires
            old(self).wf(),
        ensures
            final(self).wf(),
            final(self)@ == (CoordinatorView {
                alive: if old(self)@.alive.contains(pid) {
                    old(self)@.alive
                } else {
                    old(self)@.alive.push(pid)
                },
                ..old(self)@
            }),
            r == IOMessage::CDMessage(CDMessage::OmnipaxosNodeJoined(pid)),
    {
        if !self.is_alive(pid) {
            self.alive.push(pid);
        }
        IOMessage::CDMessage(CDMessage::OmnipaxosNodeJoined(pid))
    }

    /// The client socket of `pid` reached end of stream: removes `pid` from the alive
    /// nodes and returns the crash events for the UI and for the coordinator.
    pub fn client_closed(&mut self, pid: u64) -> (r: Vec<IOMessage>)
        requires
            old(self).wf(),
        ensures
            final(self).wf(),
            final(self)@ == (CoordinatorView {
                alive: final(self)@.alive,
                ..old(self)@
            }),
            final(self)@.alive.to_set() == old(self)@.alive.to_set().remove(pid),
            final(self)@.alive.len() == if old(self)@.alive.contains(pid) {
                old(self)@.alive.len() - 1
            } else {
                old(self)@.alive.len() as int
            },
            r@ == seq![
                IOMessage::UIMessage(UIMessage::OmnipaxosNodeCrashed(pid)),
                IOMessage::CDMessage(CDMessage::OmnipaxosNodeCrashed(pid)),
            ],
    {
        let mut i: usize = 0;
        while i < self.alive.len()
            invariant
                0 <= i <= self.alive@.len(),
                self.alive@ == old(self).alive@,
                forall|k: int| 0 <= k < i ==> self.alive@[k] != pid,
            ensures
                0 <= i <= self.alive@.len(),
                self.alive@ == old(self).alive@,
                forall|k: int| 0 <= k < i ==> self.alive@[k] != pid,
                i < self.alive@.len() ==> self.alive@[i as int] == pid,
            decreases self.alive@.len() - i,
        {
            if self.alive[i] == pid {
                break;
            }
            i += 1;
        }
        let ghost before = self.alive@;
        if i < self.alive.len() {
            self.alive.remove(i);
            proof {
                assert(before[i as int] == pid);
                assert(self.alive@ == before.remove(i as int));
                assert forall|k: int, l: int|
                    0 <= k < l < self.alive@.len() implies self.alive@[k] != self.alive@[l] by {
                    let k2 = if k < i { k } else { k + 1 };
                    let l2 = if l < i { l } else { l + 1 };
                    assert(self.alive@[k] == before[k2]);
                    assert(self.alive@[l] == before[l2]);
                }
                assert(self.alive@.to_set() =~= before.to_set().remove(pid)) by {
                    assert forall|x: u64| before.to_set().remove(pid).contains(x) implies self.alive@.to_set().contains(x) by {
                        let k = before.index_of(x);
                        assert(k != i);
                        let k2 = if k < i { k } else { k - 1 };
                        assert(self.alive@[k2] == x);
                    }
                    assert forall|x: u64| self.alive@.to_set().contains(x) implies before.to_set().remove(pid).contains(x) by {
                        let k = self.alive@.index_of(x);
                        let k2 = if k < i { k } else { k + 1 };
                        assert(before[k2] == x);
                        assert(k2 != i);
                    }
                }
            }
        } else {
            proof {
                assert(!before.contains(pid));
                assert(self.alive@.to_set() =~= before.to_set().remove(pid));
            }
        }
        let mut r: Vec<IOMessage> = Vec::new();
        r.push(IOMessage::UIMessage(UIMessage::OmnipaxosNodeCrashed(pid)));
        r.push(IOMessage::CDMessage(CDMessage::OmnipaxosNodeCrashed(pid)));
        proof {
            assert(r@ =~= seq![
                IOMessage::UIMessage(UIMessage::OmnipaxosNodeCrashed(pid)),
                IOMessage::CDMessage(CDMessage::OmnipaxosNodeCrashed(pid)),
            ]);
        }
        r
    }
}


impl Coordinator {
    /// The configured nodes other than `x`, in configuration order.
    fn nodes_except(&self, x: u64) -> (r: Vec<u64>)
        requires
            self.wf(),
        ensures
            valid_nodes(r@),
            forall|n: u64| r@.contains(n) <==> self@.nodes.contains(n) && n != x,
    {
        let nodes = self.topology.nodes();
        let mut r: Vec<u64> = Vec::new();
        let mut i: usize = 0;
        while i < nodes.len()
            invariant
                nodes@ == self@.nodes,
                valid_nodes(nodes@),
                0 <= i <= nodes@.len(),
                valid_nodes(r@),
                forall|n: u64| r@.contains(n) <==> nodes@.subrange(0, i as int).contains(n) && n != x,
            decreases nodes@.len() - i,
        {
            let n = nodes[i];
            let ghost old_r = r@;
            let ghost pre = nodes@.subrange(0, i as int);
            assert(nodes@.subrange(0, i + 1) == pre.push(n));
            if n != x {
                assert(!pre.contains(n)) by {
                    if pre.contains(n) {
                        let k = pre.index_of(n);
                        assert(nodes@[k] == nodes@[i as int]);
                    }
                }
                r.push(n);
                proof {
                    assert(is_node_id(nodes@[i as int]));
                    assert forall|m: u64| r@.contains(m) <==> nodes@.subrange(0, i + 1).contains(m) && m != x by {
                        if r@.contains(m) && m != n {
                            let k = r@.index_of(m);
                            assert(old_r[k] == m);
                        }
                        if old_r.contains(m) {
                            let k = old_r.index_of(m);
                            assert(r@[k] == m);
                        }
                        assert(r@[old_r.len() as int] == n);
                        assert(nodes@.subrange(0, i + 1)[i as int] == n);
                        if pre.contains(m) {
                            let k = pre.index_of(m);
                            assert(nodes@.subrange(0, i + 1)[k] == m);
                        }
                        if nodes@.subrange(0, i + 1).contains(m) && m != n {
                            let k = nodes@.subrange(0, i + 1).index_of(m);
                            assert(pre[k] == m);
                        }
                    }
                    assert forall|k: int| 0 <= k < r@.len() implies is_node_id(#[trigger] r@[k]) by {
                        if k < old_r.len() {
                            assert(r@[k] == old_r[k]);
                        }
                    }
                    assert forall|k: int, l: int| 0 <= k < l < r@.len() implies r@[k] != r@[l] by {
                        if l == old_r.len() {
                            assert(old_r.contains(r@[k]));
                        } else {
                            assert(r@[k] == old_r[k]);
                            assert(r@[l] == old_r[l]);
                        }
                    }
                }
            } else {
                proof {
                    assert forall|m: u64| r@.contains(m) <==> nodes@.subrange(0, i + 1).contains(m) && m != x by {
                        if nodes@.subrange(0, i + 1).contains(m) && m != n {
                            let k = nodes@.subrange(0, i + 1).index_of(m);
                            assert(pre[k] == m);
                        }
                        if pre.contains(m) {
                            let k = pre.index_of(m);
                            assert(nodes@.subrange(0, i + 1)[k] == m);
                        }
                    }
                }
            }
            i += 1;
        }
        assert(nodes@.subrange(0, nodes@.len() as int) == nodes@);
        r
    }

    /// Installs the quorum-loss partition for `next`: every link between two nodes
    /// other than `next` is cut; the links of `next` stay as they were.
    fn cut_all_but(&mut self, next: u64)
        requires
            old(self).wf(),
        ensures
            final(self).wf(),
            final(self)@ == (CoordinatorView {
                partitions: old(self)@.partitions.union(links_avoiding(old(self)@.nodes, next)),
                ..old(self)@
            }),
    {
        let others = self.nodes_except(next);
        let ghost s0 = self.partitions@;
        assert(links_from_each(others@.subrange(0, 0), others@) =~= Set::empty());
        assert(s0.union(Set::empty()) =~= s0);
        let mut i: usize = 0;
        while i < others.len()
            invariant
                self.wf(),
                valid_nodes(others@),
                forall|n: u64| others@.contains(n) <==> self@.nodes.contains(n) && n != next,
                0 <= i <= others@.len(),
                self@ == (CoordinatorView {
                    partitions: s0.union(links_from_each(others@.subrange(0, i as int), others@)),
                    ..old(self)@
                }),
            decreases others@.len() - i,
        {
            let from = others[i];
            assert(is_node_id(others@[i as int]));
            let ghost pre = others@.subrange(0, i as int);
            self.partitions.set_all_from(&others, from, false);
            proof {
                assert(others@.subrange(0, i + 1) == pre.push(from));
                lemma_links_from_each_push(pre, others@, from);
                assert(self.partitions@ =~= s0.union(links_from_each(others@.subrange(0, i + 1), others@)));
            }
            i += 1;
        }
        proof {
            assert(others@.subrange(0, others@.len() as int) == others@);
            lemma_links_from_each_all(others@, self@.nodes, next);
            assert(self.partitions@ =~= s0.union(links_avoiding(self@.nodes, next)));
        }
    }
}

impl Coordinator {
    fn debug_event(text: &str) -> (r: Reaction)
        ensures
            r.ui@.len() == 1,
            r.ui@[0] == UIMessage::Debug(r.ui@[0]->Debug_0),
            r.ui@[0]->Debug_0@ == text@,
            r.follow_up is None,
    {
        let mut ui: Vec<UIMessage> = Vec::new();
        ui.push(UIMessage::Debug(String::from_str(text)));
        Reaction { ui, follow_up: None }
    }

    /// Runs the partition macro `name` (`restore`, `chained`, `qloss` or
    /// `constrained`) over the five-node mesh and publishes a snapshot. `constrained`
    /// also proposes ten random puts and asks for its follow-up after a pause. A
    /// cluster of another size, or `qloss` and `constrained` with no known leader,
    /// change nothing and are reported; an unknown name is ignored.
    pub fn scenario(&mut self, name: &str) -> (r: Reaction)
        requires
            old(self).wf(),
        ensures
            final(self).wf(),
            scenario_effect(old(self)@, final(self)@, name@, r.ui@, r.follow_up),
    {
        let nodes = self.topology.nodes();
        if nodes.len() != SCENARIO_NODES {
            return Self::debug_event("Must have 5 nodes to execute scenarios");
        }
        if same_text(name, "restore") {
            self.partitions.clear();
            return Reaction { ui: self.snapshot_event(), follow_up: None };
        }
        if same_text(name, "chained") {
            self.partitions.clear();
            self.partitions.set_undirected(1, 2, false);
            self.partitions.set_undirected(1, 3, false);
            self.partitions.set_undirected(1, 4, false);
            self.partitions.set_undirected(2, 4, false);
            self.partitions.set_undirected(2, 5, false);
            self.partitions.set_undirected(3, 5, false);
            assert(self.partitions@ =~= chained_set());
            return Reaction { ui: self.snapshot_event(), follow_up: None };
        }
        let quorum_loss = same_text(name, "qloss");
        let constrained = same_text(name, "constrained");
        if !quorum_loss && !constrained {
            return Reaction { ui: Vec::new(), follow_up: None };
        }
        let current_leader = match self.max_round {
            Some(round) => round.leader,
            None => {
                if quorum_loss {
                    return Self::debug_event(
                        "Need to have a current leader for quorum loss scenario",
                    );
                } else {
                    return Self::debug_event(
                        "Need to have a current leader for constrained scenario",
                    );
                }
            },
        };
        let next_leader = if nodes[0] != current_leader {
            nodes[0]
        } else {
            nodes[1]
        };
        proof {
            assert(self@.nodes.contains(next_leader)) by {
                if nodes@[0] != current_leader {
                    assert(nodes@[0] == next_leader);
                } else {
                    assert(nodes@[1] == next_leader);
                }
            }
            self.lemma_node_ids(next_leader);
        }
        self.partitions.clear();
        if quorum_loss {
            self.cut_all_but(next_leader);
            assert(Set::<u64>::empty().union(links_avoiding(self@.nodes, next_leader))
                =~= links_avoiding(self@.nodes, next_leader));
            Reaction { ui: self.snapshot_event(), follow_up: None }
        } else {
            self.partitions.set_all_from(&nodes, next_leader, false);
            assert(with_all_links(Set::<u64>::empty(), nodes@, next_leader, false)
                =~= crate::partition::links_from(nodes@, next_leader));
            let ui = self.snapshot_event();
            self.batch_proposals(CONSTRAINED_PROPOSALS);
            Reaction {
                ui,
                follow_up: Some(ConstrainedFollowUp { next_leader, current_leader }),
            }
        }
    }

    /// Second phase of the `constrained` scenario: installs the quorum-loss partition
    /// for the next leader, plus a cut between the next and the current leader when
    /// both are configured nodes, and publishes a snapshot.
    pub fn finish_constrained(&mut self, follow_up: ConstrainedFollowUp) -> (r: Vec<UIMessage>)
        requires
            old(self).wf(),
        ensures
            final(self).wf(),
            final(self)@ == (CoordinatorView {
                partitions: constrained_set(old(self)@.nodes, follow_up),
                ..old(self)@
            }),
            one_snapshot(final(self)@, r@),
    {
        let next = follow_up.next_leader;
        let current = follow_up.current_leader;
        self.partitions.clear();
        self.cut_all_but(next);
        assert(Set::<u64>::empty().union(links_avoiding(self@.nodes, next)) =~= links_avoiding(
            self@.nodes,
            next,
        ));
        if self.topology.contains_node(next) && self.topology.contains_node(current) {
            proof {
                self.lemma_node_ids(next);
                self.lemma_node_ids(current);
            }
            self.partitions.set_undirected(next, current, false);
        }
        self.snapshot_event()
    }
}

/// The partitions of the `chained` scenario: 1–2, 1–3, 1–4, 2–4, 2–5 and 3–5 cut.
pub open spec fn chained_set() -> Set<u64> {
    set![8012u64, 8021u64, 8013u64, 8031u64, 8014u64, 8041u64, 8024u64, 8042u64, 8025u64, 8052u64, 8035u64, 8053u64]
}

/// The node that the scenarios take as the next leader: the first configured node
/// that is not the current leader.
pub open spec fn next_leader_of(nodes: Seq<u64>, current: u64) -> u64 {
    if nodes[0] != current {
        nodes[0]
    } else {
        nodes[1]
    }
}

/// The partitions after the second phase of the `constrained` scenario.
pub open spec fn constrained_set(nodes: Seq<u64>, f: ConstrainedFollowUp) -> Set<u64> {
    if nodes.contains(f.next_leader) && nodes.contains(f.current_leader) {
        with_link(links_avoiding(nodes, f.next_leader), f.next_leader, f.current_leader, false)
    } else {
        links_avoiding(nodes, f.next_leader)
    }
}

/// `ui` is one debug line.
pub open spec fn one_debug_line(ui: Seq<UIMessage>) -> bool {
    ui.len() == 1 && ui[0] is Debug
}

/// The effect of the scenario `name`.
pub open spec fn scenario_effect(
    old: CoordinatorView,
    new: CoordinatorView,
    name: Seq<char>,
    ui: Seq<UIMessage>,
    follow_up: Option<ConstrainedFollowUp>,
) -> bool {
    if old.nodes.len() != SCENARIO_NODES {
        new == old && one_debug_line(ui) && follow_up is None
    } else if name == "restore"@ {
        new == (CoordinatorView { partitions: Set::empty(), ..old }) && one_snapshot(new, ui)
            && follow_up is None
    } else if name == "chained"@ {
        new == (CoordinatorView { partitions: chained_set(), ..old }) && one_snapshot(new, ui)
            && follow_up is None
    } else if name != "qloss"@ && name != "constrained"@ {
        new == old && ui.len() == 0 && follow_up is None
    } else if old.max_round is None {
        new == old && one_debug_line(ui) && follow_up is None
    } else {
        let current = old.max_round->0.leader;
        let next = next_leader_of(old.nodes, current);
        if name == "qloss"@ {
            new == (CoordinatorView { partitions: links_avoiding(old.nodes, next), ..old })
                && one_snapshot(new, ui) && follow_up is None
        } else {
            &&& new == (CoordinatorView {
                partitions: crate::partition::links_from(old.nodes, next),
                queue: new.queue,
                ..old
            })
            &&& new.queue.len() == old.queue.len() + CONSTRAINED_PROPOSALS
            &&& new.queue.subrange(0, old.queue.len() as int) == old.queue
            &&& one_snapshot(new, ui)
            &&& follow_up == Some(ConstrainedFollowUp { next_leader: next, current_leader: current })
        }
    }
}

/// The outcome of one tick of the proposal streamer.
pub struct Tick {
    /// The batch total to show, when it changed.
    pub status: Option<u64>,
    /// The command taken from the queue, if there was one, and where it goes.
    pub proposal: Option<Proposal>,
}

/// A proposal as the contracts see it: the line written and its addressee.
pub enum Sent {
    Line(u64, Seq<char>),
    Unreachable,
}

pub open spec fn sent_view(p: Option<Proposal>) -> Option<Sent> {
    match p {
        Some(Proposal::Send(pid, line)) => Some(Sent::Line(pid, line@)),
        Some(Proposal::Unreachable) => Some(Sent::Unreachable),
        None => None,
    }
}

/// The batch counters after a tick samples the queue length.
pub open spec fn tick_counters(v: CoordinatorView) -> (u64, bool, Option<u64>) {
    sampled(v.last_queue_size, v.batch_total, v.batching, v.queue.len())
}

/// What a tick sends: the oldest queued command, to the leader when its client socket
/// is connected.
pub open spec fn tick_sent(v: CoordinatorView) -> Option<Sent> {
    if v.queue.len() == 0 {
        None
    } else {
        match v.max_round {
            Some(r) => if v.alive.contains(r.leader) {
                Some(Sent::Line(r.leader, request_line(v.queue[0])))
            } else {
                Some(Sent::Unreachable)
            },
            None => Some(Sent::Unreachable),
        }
    }
}

/// The state after a tick.
pub open spec fn after_tick(v: CoordinatorView) -> CoordinatorView {
    let (total, batching, _) = tick_counters(v);
    CoordinatorView {
        queue: if v.queue.len() > 0 {
            v.queue.drop_first()
        } else {
            v.queue
        },
        last_queue_size: if v.queue.len() > 0 {
            (v.queue.len() - 1) as nat
        } else {
            0
        },
        batch_total: total,
        batching,
        ..v
    }
}

/// What `n` successive ticks send, in order.
pub open spec fn run_ticks(v: CoordinatorView, n: nat) -> Seq<Option<Sent>>
    decreases n,
{
    if n == 0 {
        Seq::empty()
    } else {
        seq![tick_sent(v)] + run_ticks(after_tick(v), (n - 1) as nat)
    }
}

/// With a known leader whose client socket is connected, `n` ticks over `n` queued
/// commands send exactly those `n` request lines, in queue order, all to the leader.
pub proof fn lemma_ticks_reach_leader(v: CoordinatorView, n: nat)
    requires
        v.queue.len() == n,
        v.max_round is Some,
        v.alive.contains(v.max_round->0.leader),
    ensures
        run_ticks(v, n) == Seq::new(
            n,
            |i: int| Some(Sent::Line(v.max_round->0.leader, request_line(v.queue[i]))),
        ),
    decreases n,
{
    if n > 0 {
        let w = after_tick(v);
        lemma_ticks_reach_leader(w, (n - 1) as nat);
        assert(run_ticks(v, n) =~= Seq::new(
            n,
            |i: int| Some(Sent::Line(v.max_round->0.leader, request_line(v.queue[i]))),
        ));
    }
}

impl Coordinator {
    /// One tick of the proposal streamer: updates the batch counters from the queue
    /// length, then takes the oldest command and addresses it to the leader.
    pub fn propose_tick(&mut self) -> (r: Tick)
        requires
            old(self).wf(),
        ensures
            final(self).wf(),
            final(self)@ == after_tick(old(self)@),
            r.status == tick_counters(old(self)@).2,
            sent_view(r.proposal) == tick_sent(old(self)@),
    {
        let len = self.queue.len();
        let status = self.streamer.sample(len);
        let proposal = match self.queue.pop_front() {
            Some(cmd) => {
                self.streamer.settle(len - 1);
                let leader = match self.max_round {
                    Some(round) => if self.is_alive(round.leader) {
                        Some(round.leader)
                    } else {
                        None
                    },
                    None => None,
                };
                Some(self.streamer.propose_command(&cmd, leader))
            },
            None => {
                self.streamer.settle(0);
                None
            },
        };
        Tick { status, proposal }
    }
}

/// The effect of queueing `num` random puts.
pub open spec fn batch_effect(old: CoordinatorView, new: CoordinatorView, num: u64) -> bool {
    &&& new.queue.len() == old.queue.len() + num
    &&& new.queue.subrange(0, old.queue.len() as int) == old.queue
    &&& forall|i: int|
        old.queue.len() <= i < new.queue.len() ==> (#[trigger] new.queue[i] matches KVCommand::Put(
            kv,
        ) && (exists|k: u64, v: u64|
            kv.key@ == decimal_text(k as nat) && kv.value@ == decimal_text(v as nat)))
    &&& new == (CoordinatorView { queue: new.queue, ..old })
}

/// `a` is not after `b`: rounds only grow, and a known round never becomes unknown.
pub open spec fn round_le(a: Option<Round>, b: Option<Round>) -> bool {
    match (a, b) {
        (None, _) => true,
        (Some(x), Some(y)) => !round_lt(y, x),
        (Some(_), None) => false,
    }
}

/// Rounds only grow across a run: two steps that each keep or raise the highest
/// round keep or raise it together.
pub proof fn lemma_round_le_trans(a: Option<Round>, b: Option<Round>, c: Option<Round>)
    requires
        round_le(a, b),
        round_le(b, c),
    ensures
        round_le(a, c),
{
}

/// The effect of the control event `m`.
pub open spec fn handle_effect(
    old: CoordinatorView,
    new: CoordinatorView,
    m: CDMessage,
    ui: Seq<UIMessage>,
    follow_up: Option<ConstrainedFollowUp>,
) -> bool {
    &&& (!(m is Scenario) ==> follow_up is None)
    &&& match m {
        CDMessage::StartBatchingPropose(num) => batch_effect(old, new, num) && ui.len() == 0,
        CDMessage::Initialize => new == old && ui.len() == 0,
        CDMessage::KVCommand(cmd, _) => new == (CoordinatorView {
            queue: old.queue.push(cmd),
            ..old
        }) && ui.len() == 0,
        CDMessage::SetConnection(from, to, connected) => set_connection_effect(
            old,
            new,
            from,
            to,
            connected,
            ui,
        ),
        CDMessage::OmnipaxosNodeCrashed(_) => new == old && one_snapshot(new, ui),
        CDMessage::OmnipaxosNodeJoined(_) => new == old && one_snapshot(new, ui),
        CDMessage::NewRound(_, round) => new_round_effect(old, new, round, ui),
        CDMessage::Happiness(pid, happy) => new == (CoordinatorView {
            happiness: old.happiness.insert(pid, happy),
            ..old
        }) && one_snapshot(new, ui),
        CDMessage::Scenario(name) => scenario_effect(old, new, name@, ui, follow_up),
    }
}

impl Coordinator {
    /// Applies one control event from the event bus, in bus order. The highest round
    /// never goes down.
    pub fn handle(&mut self, m: CDMessage) -> (r: Reaction)
        requires
            old(self).wf(),
        ensures
            final(self).wf(),
            handle_effect(old(self)@, final(self)@, m, r.ui@, r.follow_up),
            round_le(old(self)@.max_round, final(self)@.max_round),
    {
        match m {
            CDMessage::StartBatchingPropose(num) => {
                self.batch_proposals(num);
                Reaction { ui: Vec::new(), follow_up: None }
            },
            CDMessage::Initialize => Reaction { ui: Vec::new(), follow_up: None },
            CDMessage::KVCommand(cmd, _) => {
                self.enqueue(cmd);
                Reaction { ui: Vec::new(), follow_up: None }
            },
            CDMessage::SetConnection(from, to, connected) => {
                let ui = self.set_connection(from, to, connected);
                Reaction { ui, follow_up: None }
            },
            CDMessage::OmnipaxosNodeCrashed(_) => Reaction {
                ui: self.snapshot_event(),
                follow_up: None,
            },
            CDMessage::OmnipaxosNodeJoined(_) => Reaction {
                ui: self.snapshot_event(),
                follow_up: None,
            },
            CDMessage::NewRound(_, round) => {
                let ui = self.new_round(round);
                Reaction { ui, follow_up: None }
            },
            CDMessage::Happiness(pid, happy) => {
                let ui = self.set_happiness(pid, happy);
                Reaction { ui, follow_up: None }
            },
            CDMessage::Scenario(name) => self.scenario(name.as_str()),
        }
    }
}

/// `restore` run after any scenario leaves every link connected.
pub proof fn lemma_restore_after_scenario(
    start: CoordinatorView,
    name: Seq<char>,
    mid: CoordinatorView,
    ui: Seq<UIMessage>,
    follow_up: Option<ConstrainedFollowUp>,
    end: CoordinatorView,
    restore_ui: Seq<UIMessage>,
    restore_follow_up: Option<ConstrainedFollowUp>,
)
    requires
        start.nodes.len() == SCENARIO_NODES,
        scenario_effect(start, mid, name, ui, follow_up),
        scenario_effect(mid, end, "restore"@, restore_ui, restore_follow_up),
    ensures
        end.partitions == Set::<u64>::empty(),
{
}

/// Both directions of every link between a node of `froms` and another node of
/// `nodes`.
pub open spec fn links_from_each(froms: Seq<u64>, nodes: Seq<u64>) -> Set<u64> {
    Set::new(
        |p: u64|
            exists|a: u64| #[trigger] froms.contains(a) && crate::partition::links_from(nodes, a).contains(p),
    )
}

/// Every link direction between two configured nodes, neither of them `next`.
pub open spec fn links_avoiding(nodes: Seq<u64>, next: u64) -> Set<u64> {
    Set::new(
        |p: u64|
            exists|a: u64, b: u64|
                #![trigger crate::topology::is_link(nodes, a, b), port_of(a as int, b as int)]
                crate::topology::is_link(nodes, a, b) && a != next && b != next && p == port_of(
                    a as int,
                    b as int,
                ),
    )
}

proof fn lemma_links_from_each_push(froms: Seq<u64>, nodes: Seq<u64>, x: u64)
    ensures
        links_from_each(froms.push(x), nodes) =~= links_from_each(froms, nodes).union(
            crate::partition::links_from(nodes, x),
        ),
{
    let l = links_from_each(froms.push(x), nodes);
    let r = links_from_each(froms, nodes).union(crate::partition::links_from(nodes, x));
    assert forall|p: u64| l.contains(p) implies r.contains(p) by {
        let a = choose|a: u64| #[trigger] froms.push(x).contains(a) && crate::partition::links_from(nodes, a).contains(p);
        if a != x {
            let k = froms.push(x).index_of(a);
            assert(froms[k] == a);
            assert(froms.contains(a));
        }
    }
    assert forall|p: u64| r.contains(p) implies l.contains(p) by {
        assert(froms.push(x)[froms.len() as int] == x);
        assert(froms.push(x).contains(x));
        if links_from_each(froms, nodes).contains(p) {
            let a = choose|a: u64| #[trigger] froms.contains(a) && crate::partition::links_from(nodes, a).contains(p);
            let k = froms.index_of(a);
            assert(froms.push(x)[k] == a);
            assert(froms.push(x).contains(a));
        }
    }
}

proof fn lemma_links_from_each_all(others: Seq<u64>, nodes: Seq<u64>, next: u64)
    requires
        forall|n: u64| others.contains(n) <==> nodes.contains(n) && n != next,
    ensures
        links_from_each(others, others) =~= links_avoiding(nodes, next),
{
    let l = links_from_each(others, others);
    let r = links_avoiding(nodes, next);
    assert forall|p: u64| l.contains(p) implies r.contains(p) by {
        let a = choose|a: u64| #[trigger] others.contains(a) && crate::partition::links_from(others, a).contains(p);
        let b = choose|b: u64| #[trigger] others.contains(b) && b != a && (p == port_of(a as int, b as int) || p == port_of(b as int, a as int));
        assert(others.contains(a) && others.contains(b));
        if p == port_of(a as int, b as int) {
            assert(crate::topology::is_link(nodes, a, b));
        } else {
            assert(crate::topology::is_link(nodes, b, a));
        }
    }
    assert forall|p: u64| r.contains(p) implies l.contains(p) by {
        let (a, b) = choose|a: u64, b: u64|
            #![trigger crate::topology::is_link(nodes, a, b), port_of(a as int, b as int)]
            crate::topology::is_link(nodes, a, b) && a != next && b != next && p == port_of(a as int, b as int);
        assert(others.contains(a));
        assert(others.contains(b));
        assert(crate::partition::links_from(others, a).contains(p));
    }
}

/// The effect of `connection from [to] connected`.
pub open spec fn set_connection_effect(
    old: CoordinatorView,
    new: CoordinatorView,
    from: u64,
    to: Option<u64>,
    connected: bool,
    ui: Seq<UIMessage>,
) -> bool {
    if !old.nodes.contains(from) {
        new == old && no_such_node(old, from, ui)
    } else if to matches Some(b) && !old.nodes.contains(b) {
        new == old && no_such_node(old, to->0, ui)
    } else {
        &&& new == (CoordinatorView {
            partitions: match to {
                Some(b) => with_link(old.partitions, from, b, connected),
                None => with_all_links(old.partitions, old.nodes, from, connected),
            },
            ..old
        })
        &&& one_snapshot(new, ui)
    }
}

/// The effect of a replica's round report.
pub open spec fn new_round_effect(
    old: CoordinatorView,
    new: CoordinatorView,
    round: Option<Round>,
    ui: Seq<UIMessage>,
) -> bool {
    &&& new == (CoordinatorView { max_round: next_max_round(old.max_round, round), ..old })
    &&& if new.max_round != old.max_round {
        one_snapshot(new, ui)
    } else {
        ui.len() == 0
    }
}

} // verus!
