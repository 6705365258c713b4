//! Port topology: the inter-replica port mesh and the client API ports derived from
//! the configured node ids.
use vstd::prelude::*;

verus! {

/// Base of every port of the playground.
pub const PORT_BASE: u64 = 8000;

/// Largest node id that the port scheme can encode (one decimal digit per node).
pub const MAX_NODE_ID: u64 = 9;

/// The port on which `a` connects outbound to reach `b`: P(a, b) = 8000 + 10·a + b.
pub open spec fn port_of(a: int, b: int) -> int {
    8000 + 10 * a + b
}

/// Client API port of node `p`.
pub open spec fn client_port_of(p: int) -> int {
    8000 + p
}

/// The sending node encoded in a mesh port (its tens digit).
pub open spec fn sender_digit(p: u64) -> u64 {
    (p / 10) % 10
}

/// The receiving node encoded in a mesh port (its units digit).
pub open spec fn receiver_digit(p: u64) -> u64 {
    p % 10
}

/// The port of the opposite direction of the link that `p` is one direction of.
pub open spec fn mirror_port(p: u64) -> int {
    port_of(receiver_digit(p) as int, sender_digit(p) as int)
}

pub open spec fn is_node_id(a: u64) -> bool {
    1 <= a <= MAX_NODE_ID
}

/// A valid node configuration: every id is in `1..=9` and no id appears twice.
pub open spec fn valid_nodes(nodes: Seq<u64>) -> bool {
    &&& forall|i: int| 0 <= i < nodes.len() ==> is_node_id(#[trigger] nodes[i])
    &&& nodes.no_duplicates()
}

/// Two distinct configured nodes, i.e. one direction of a link of the mesh.
pub open spec fn is_link(nodes: Seq<u64>, a: u64, b: u64) -> bool {
    nodes.contains(a) && nodes.contains(b) && a != b
}

/// `p` is the port of one direction of a link of the mesh.
pub open spec fn is_link_port(nodes: Seq<u64>, p: u64) -> bool {
    exists|a: u64, b: u64| #[trigger] is_link(nodes, a, b) && p == port_of(a as int, b as int)
}

/// The mesh pairing: each link port is mapped to the port of the opposite direction.
pub open spec fn peer_port_map(nodes: Seq<u64>) -> Map<u64, u64> {
    Map::new(|p: u64| is_link_port(nodes, p), |p: u64| mirror_port(p) as u64)
}

/// The node behind a port: the sender of a link port, the owner of a client port.
pub open spec fn port_to_pid_map(nodes: Seq<u64>) -> Map<u64, u64> {
    Map::new(
        |p: u64| is_link_port(nodes, p) || (p >= 8000 && nodes.contains((p - 8000) as u64)),
        |p: u64|
            if is_link_port(nodes, p) {
                sender_digit(p)
            } else {
                (p - 8000) as u64
            },
    )
}

/// The digits of a mesh port built from single-digit node ids decode back to them.
pub proof fn lemma_port_digits(a: u64, b: u64)
    requires
        a <= 9,
        b <= 9,
    ensures
        sender_digit(port_of(a as int, b as int) as u64) == a,
        receiver_digit(port_of(a as int, b as int) as u64) == b,
        8000 <= port_of(a as int, b as int) < 8100,
{
    let p = port_of(a as int, b as int) as u64;
    assert(p == 10 * (800 + a) + b);
    assert(p / 10 == 800 + a) by {
        vstd::arithmetic::div_mod::lemma_fundamental_div_mod_converse(
            p as int,
            10,
            (800 + a) as int,
            b as int,
        );
    }
    assert(p % 10 == b) by {
        vstd::arithmetic::div_mod::lemma_fundamental_div_mod_converse(
            p as int,
            10,
            (800 + a) as int,
            b as int,
        );
    }
    assert((800 + a) % 10 == a) by {
        vstd::arithmetic::div_mod::lemma_fundamental_div_mod_converse(
            (800 + a) as int,
            10,
            80,
            a as int,
        );
    }
}

/// A port in `8000..8100` is rebuilt from its two digits.
pub proof fn lemma_port_from_digits(p: u64)
    requires
        8000 <= p < 8100,
    ensures
        p == port_of(sender_digit(p) as int, receiver_digit(p) as int),
        sender_digit(p) <= 9,
        receiver_digit(p) <= 9,
{
    let q = p / 10;
    assert(800 <= q < 810);
    assert(q % 10 == q - 800) by {
        vstd::arithmetic::div_mod::lemma_fundamental_div_mod_converse(
            q as int,
            10,
            80,
            (q - 800) as int,
        );
    }
}

/// The node id encoded by a link port, and its mirror, in terms of the two nodes.
pub proof fn lemma_link_port(nodes: Seq<u64>, a: u64, b: u64)
    requires
        valid_nodes(nodes),
        is_link(nodes, a, b),
    ensures
        is_link_port(nodes, port_of(a as int, b as int) as u64),
        is_link_port(nodes, port_of(b as int, a as int) as u64),
        sender_digit(port_of(a as int, b as int) as u64) == a,
        receiver_digit(port_of(a as int, b as int) as u64) == b,
        mirror_port(port_of(a as int, b as int) as u64) == port_of(b as int, a as int),
        port_of(a as int, b as int) != port_of(b as int, a as int),
{
    let ia = nodes.index_of(a);
    let ib = nodes.index_of(b);
    assert(is_node_id(nodes[ia]));
    assert(is_node_id(nodes[ib]));
    lemma_port_digits(a, b);
    lemma_port_digits(b, a);
    assert(is_link(nodes, b, a));
}

/// Decoding a link port gives back a link of the configuration.
pub proof fn lemma_link_port_decode(nodes: Seq<u64>, p: u64)
    requires
        valid_nodes(nodes),
        is_link_port(nodes, p),
    ensures
        is_link(nodes, sender_digit(p), receiver_digit(p)),
        p == port_of(sender_digit(p) as int, receiver_digit(p) as int),
        8000 <= p < 8100,
{
    let (a, b) = choose|a: u64, b: u64| #[trigger]
        is_link(nodes, a, b) && p == port_of(a as int, b as int);
    lemma_link_port(nodes, a, b);
    lemma_port_digits(a, b);
}

/// The mesh pairing is an involution: the peer of a mesh port is a mesh port, and
/// the peer of the peer is the port itself; `P(a, b)` is paired with `P(b, a)`.
pub proof fn lemma_peer_port_involution(nodes: Seq<u64>)
    requires
        valid_nodes(nodes),
    ensures
        forall|p: u64| #[trigger]
            peer_port_map(nodes).contains_key(p) ==> {
                let q = peer_port_map(nodes)[p];
                &&& peer_port_map(nodes).contains_key(q)
                &&& peer_port_map(nodes)[q] == p
                &&& q != p
            },
        forall|a: u64, b: u64| #[trigger]
            is_link(nodes, a, b) ==> peer_port_map(nodes).contains_key(
                port_of(a as int, b as int) as u64,
            ) && peer_port_map(nodes)[port_of(a as int, b as int) as u64] == port_of(
                b as int,
                a as int,
            ),
{
    let m = peer_port_map(nodes);
    assert forall|p: u64| #[trigger] m.contains_key(p) implies {
        let q = m[p];
        &&& m.contains_key(q)
        &&& m[q] == p
        &&& q != p
    } by {
        lemma_link_port_decode(nodes, p);
        let a = sender_digit(p);
        let b = receiver_digit(p);
        lemma_link_port(nodes, a, b);
        lemma_link_port(nodes, b, a);
    }
    assert forall|a: u64, b: u64| #[trigger] is_link(nodes, a, b) implies m.contains_key(
        port_of(a as int, b as int) as u64,
    ) && m[port_of(a as int, b as int) as u64] == port_of(b as int, a as int) by {
        lemma_link_port(nodes, a, b);
    }
}

/// Every mesh port `P(a, b)` belongs to its sender `a`; every client port
/// `8000 + p` belongs to node `p`.
pub proof fn lemma_port_to_pid(nodes: Seq<u64>)
    requires
        valid_nodes(nodes),
    ensures
        forall|a: u64, b: u64| #[trigger]
            is_link(nodes, a, b) ==> port_to_pid_map(nodes).contains_key(
                port_of(a as int, b as int) as u64,
            ) && port_to_pid_map(nodes)[port_of(a as int, b as int) as u64] == a,
        forall|p: u64| #[trigger]
            nodes.contains(p) ==> port_to_pid_map(nodes).contains_key(
                client_port_of(p as int) as u64,
            ) && port_to_pid_map(nodes)[client_port_of(p as int) as u64] == p,
{
    let m = port_to_pid_map(nodes);
    assert forall|a: u64, b: u64| #[trigger] is_link(nodes, a, b) implies m.contains_key(
        port_of(a as int, b as int) as u64,
    ) && m[port_of(a as int, b as int) as u64] == a by {
        lemma_link_port(nodes, a, b);
    }
    assert forall|p: u64| #[trigger] nodes.contains(p) implies m.contains_key(
        client_port_of(p as int) as u64,
    ) && m[client_port_of(p as int) as u64] == p by {
        let i = nodes.index_of(p);
        assert(is_node_id(nodes[i]));
        let c = client_port_of(p as int) as u64;
        lemma_port_digits(0, p);
        if is_link_port(nodes, c) {
            lemma_link_port_decode(nodes, c);
            let j = nodes.index_of(sender_digit(c));
            assert(is_node_id(nodes[j]));
        }
    }
}

/// Port of the link direction `from -> to`.
pub fn connection_to_port(from: &u64, to: &u64) -> (r: u64)
    requires
        port_of(*from as int, *to as int) <= u64::MAX,
    ensures
        r == port_of(*from as int, *to as int),
{
    8000 + (*from * 10) + *to
}

/// The undirected link `(min, max)` that a mesh port is one direction of.
pub fn port_to_connection(port: &u64) -> (r: (u64, u64))
    ensures
        r == (if sender_digit(*port) <= receiver_digit(*port) {
            (sender_digit(*port), receiver_digit(*port))
        } else {
            (receiver_digit(*port), sender_digit(*port))
        }),
{
    let from = (*port / 10) % 10;
    let to = *port % 10;
    if from <= to {
        (from, to)
    } else {
        (to, from)
    }
}

/// Why a node configuration was refused.
#[derive(Clone, Copy, Debug, PartialEq, Eq, Structural)]
pub enum ConfigError {
    /// An id outside `1..=9`.
    InvalidNodeId(u64),
    /// An id that appears more than once.
    DuplicateNodeId(u64),
}

/// The first position at which `nodes` is faulty, and what the fault is.
pub open spec fn first_fault(nodes: Seq<u64>, i: int) -> bool {
    &&& 0 <= i < nodes.len()
    &&& (!is_node_id(nodes[i]) || nodes.subrange(0, i).contains(nodes[i]))
    &&& valid_nodes(nodes.subrange(0, i))
}

pub open spec fn fault_error(nodes: Seq<u64>, i: int) -> ConfigError {
    if !is_node_id(nodes[i]) {
        ConfigError::InvalidNodeId(nodes[i])
    } else {
        ConfigError::DuplicateNodeId(nodes[i])
    }
}

/// The port tables of a cluster, derived once from its node ids.
pub struct Topology {
    nodes: Vec<u64>,
}

impl Topology {
    pub closed spec fn nodes_view(&self) -> Seq<u64> {
        self.nodes@
    }

    pub open spec fn wf(&self) -> bool {
        valid_nodes(self.nodes_view())
    }

    /// Derives the topology from the configured node ids; refuses an id outside
    /// `1..=9` or a repeated id, naming the first offending entry.
    pub fn new(nodes: &Vec<u64>) -> (r: Result<Topology, ConfigError>)
        ensures
            valid_nodes(nodes@) <==> r is Ok,
            r matches Ok(t) ==> t.wf() && t.nodes_view() == nodes@,
            r matches Err(e) ==> exists|i: int| first_fault(nodes@, i) && e == fault_error(nodes@, i),
    {
        let mut i: usize = 0;
        while i < nodes.len()
            invariant
                0 <= i <= nodes@.len(),
                valid_nodes(nodes@.subrange(0, i as int)),
            decreases nodes@.len() - i,
        {
            let a = nodes[i];
            let ghost pre = nodes@.subrange(0, i as int);
            if a < 1 || a > MAX_NODE_ID {
                assert(first_fault(nodes@, i as int));
                return Err(ConfigError::InvalidNodeId(a));
            }
            let mut j: usize = 0;
            while j < i
                invariant
                    0 <= j <= i < nodes@.len(),
                    a == nodes@[i as int],
                    is_node_id(a),
                    pre == nodes@.subrange(0, i as int),
                    valid_nodes(pre),
                    forall|k: int| 0 <= k < j ==> nodes@[k] != a,
                decreases i - j,
            {
                if nodes[j] == a {
                    assert(pre[j as int] == a);
                    assert(first_fault(nodes@, i as int));
                    return Err(ConfigError::DuplicateNodeId(a));
                }
                j += 1;
            }
            assert(!pre.contains(a));
            assert(nodes@.subrange(0, i + 1) == pre.push(a));
            i += 1;
        }
        assert(nodes@.subrange(0, nodes@.len() as int) == nodes@);
        proof {
            if !valid_nodes(nodes@) {
                assert(false);
            }
        }
        Ok(Topology { nodes: nodes.clone() })
    }

    /// The configured node ids, in configuration order.
    pub fn nodes(&self) -> (r: Vec<u64>)
        ensures
            r@ == self.nodes_view(),
    {
        self.nodes.clone()
    }

    /// Whether `pid` is a configured node.
    pub fn contains_node(&self, pid: u64) -> (r: bool)
        ensures
            r == self.nodes_view().contains(pid),
    {
        let mut i: usize = 0;
        while i < self.nodes.len()
            invariant
                0 <= i <= self.nodes@.len(),
                forall|k: int| 0 <= k < i ==> self.nodes@[k] != pid,
            decreases self.nodes@.len() - i,
        {
            if self.nodes[i] == pid {
                return true;
            }
            i += 1;
        }
        false
    }

    /// Whether `p` is the port of one direction of a link of the mesh.
    fn is_mesh_port(&self, p: u64) -> (r: bool)
        requires
            self.wf(),
        ensures
            r == is_link_port(self.nodes_view(), p),
    {
        if p < 8000 || p >= 8100 {
            proof {
                if is_link_port(self.nodes_view(), p) {
                    lemma_link_port_decode(self.nodes_view(), p);
                }
            }
            return false;
        }
        let a = (p / 10) % 10;
        let b = p % 10;
        proof {
            lemma_port_from_digits(p);
        }
        let r = a != b && self.contains_node(a) && self.contains_node(b);
        proof {
            if r {
                assert(is_link(self.nodes_view(), a, b));
            }
            if is_link_port(self.nodes_view(), p) {
                lemma_link_port_decode(self.nodes_view(), p);
            }
        }
        r
    }

    /// The port paired with `p` in the mesh: `P(b, a)` for `p = P(a, b)`.
    pub fn peer_port(&self, p: u64) -> (r: Option<u64>)
        requires
            self.wf(),
        ensures
            r == (if peer_port_map(self.nodes_view()).contains_key(p) {
                Some(peer_port_map(self.nodes_view())[p])
            } else {
                None::<u64>
            }),
    {
        if self.is_mesh_port(p) {
            proof {
                lemma_link_port_decode(self.nodes_view(), p);
            }
            Some(8000 + 10 * (p % 10) + (p / 10) % 10)
        } else {
            None
        }
    }

    /// The node behind port `p`: the sender for a mesh port, the owner for a client port.
    pub fn port_to_pid(&self, p: u64) -> (r: Option<u64>)
        requires
            self.wf(),
        ensures
            r == (if port_to_pid_map(self.nodes_view()).contains_key(p) {
                Some(port_to_pid_map(self.nodes_view())[p])
            } else {
                None::<u64>
            }),
    {
        if self.is_mesh_port(p) {
            Some((p / 10) % 10)
        } else if p >= 8000 && self.contains_node(p - 8000) {
            Some(p - 8000)
        } else {
            None
        }
    }

    /// The client API port of every node, in configuration order.
    pub fn client_ports(&self) -> (r: Vec<u64>)
        requires
            self.wf(),
        ensures
            r@.len() == self.nodes_view().len(),
            forall|i: int|
                0 <= i < r@.len() ==> #[trigger] r@[i] == client_port_of(self.nodes_view()[i] as int),
    {
        let mut r: Vec<u64> = Vec::new();
        let mut i: usize = 0;
        while i < self.nodes.len()
            invariant
                self.wf(),
                0 <= i <= self.nodes@.len(),
                r@.len() == i,
                forall|k: int| 0 <= k < i ==> #[trigger] r@[k] == client_port_of(self.nodes@[k] as int),
            decreases self.nodes@.len() - i,
        {
            assert(is_node_id(self.nodes@[i as int]));
            r.push(8000 + self.nodes[i]);
            i += 1;
        }
        r
    }

    /// Every mesh port, each direction of each link.
    pub fn mesh_ports(&self) -> (r: Vec<u64>)
        requires
            self.wf(),
        ensures
            forall|i: int| 0 <= i < r@.len() ==> is_link_port(self.nodes_view(), #[trigger] r@[i]),
            forall|p: u64| is_link_port(self.nodes_view(), p) ==> r@.contains(p),
    {
        let ghost nodes = self.nodes_view();
        let mut r: Vec<u64> = Vec::new();
        let mut i: usize = 0;
        while i < self.nodes.len()
            invariant
                self.wf(),
                nodes == self.nodes@,
                0 <= i <= nodes.len(),
                forall|k: int| 0 <= k < r@.len() ==> is_link_port(nodes, #[trigger] r@[k]),
                forall|x: int, y: int|
                    0 <= x < i && 0 <= y < nodes.len() && nodes[x] != nodes[y] ==> r@.contains(
                        port_of(nodes[x] as int, nodes[y] as int) as u64,
                    ),
            decreases nodes.len() - i,
        {
            let mut j: usize = 0;
            while j < self.nodes.len()
                invariant
                    self.wf(),
                    nodes == self.nodes@,
                    0 <= i < nodes.len(),
                    0 <= j <= nodes.len(),
                    forall|k: int| 0 <= k < r@.len() ==> is_link_port(nodes, #[trigger] r@[k]),
                    forall|x: int, y: int|
                        (0 <= x < i && 0 <= y < nodes.len() || x == i && 0 <= y < j) && nodes[x]
                            != nodes[y] ==> r@.contains(
                            port_of(nodes[x] as int, nodes[y] as int) as u64,
                        ),
                decreases nodes.len() - j,
            {
                let a = self.nodes[i];
                let b = self.nodes[j];
                if a != b {
                    proof {
                        assert(is_node_id(nodes[i as int]));
                        assert(is_node_id(nodes[j as int]));
                        assert(is_link(nodes, a, b));
                    }
                    let ghost old_r = r@;
                    r.push(8000 + 10 * a + b);
                    proof {
                        assert forall|x: int, y: int|
                            (0 <= x < i && 0 <= y < nodes.len() || x == i && 0 <= y < j + 1)
                                && nodes[x] != nodes[y] implies r@.contains(
                            port_of(nodes[x] as int, nodes[y] as int) as u64,
                        ) by {
                            if x == i && y == j {
                                assert(r@[old_r.len() as int] == port_of(a as int, b as int));
                            } else {
                                let k = old_r.index_of(
                                    port_of(nodes[x] as int, nodes[y] as int) as u64,
                                );
                                assert(r@[k] == old_r[k]);
                            }
                        }
                    }
                }
                j += 1;
            }
            i += 1;
        }
        proof {
            assert forall|p: u64| is_link_port(nodes, p) implies r@.contains(p) by {
                let (a, b) = choose|a: u64, b: u64| #[trigger]
                    is_link(nodes, a, b) && p == port_of(a as int, b as int);
                let x = nodes.index_of(a);
                let y = nodes.index_of(b);
                assert(nodes[x] == a && nodes[y] == b);
            }
        }
        r
    }
}

} // verus!
