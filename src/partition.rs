//! The partition engine: the set of mesh ports whose inbound frames are dropped,
//! maintained in symmetric pairs so that every partition is undirected.
use crate::topology::{is_node_id, mirror_port, port_of, receiver_digit, sender_digit, valid_nodes};
use std::collections::HashSet;
use vstd::prelude::*;

verus! {

broadcast use vstd::std_specs::hash::group_hash_axioms;

/// A port `P(a, b)` of two node ids in `1..=9` (possibly equal).
pub open spec fn is_pair_port(p: u64) -> bool {
    8000 <= p < 8100 && is_node_id(sender_digit(p)) && is_node_id(receiver_digit(p))
}

/// Every port of the set is a pair port whose opposite direction is in the set too.
pub open spec fn symmetric(s: Set<u64>) -> bool {
    forall|p: u64| #[trigger]
        s.contains(p) ==> is_pair_port(p) && s.contains(mirror_port(p) as u64)
}

/// The set after connecting (`connected`) or disconnecting the link between `a` and `b`.
pub open spec fn with_link(s: Set<u64>, a: u64, b: u64, connected: bool) -> Set<u64> {
    let x = port_of(a as int, b as int) as u64;
    let y = port_of(b as int, a as int) as u64;
    if connected {
        s.remove(x).remove(y)
    } else {
        s.insert(x).insert(y)
    }
}

/// Both directions of every link between `a` and another node of `nodes`.
pub open spec fn links_from(nodes: Seq<u64>, a: u64) -> Set<u64> {
    Set::new(
        |p: u64|
            exists|b: u64| #[trigger]
                nodes.contains(b) && b != a && (p == port_of(a as int, b as int) || p == port_of(
                    b as int,
                    a as int,
                )),
    )
}

/// The set after connecting or disconnecting `a` from every other node of `nodes`.
pub open spec fn with_all_links(s: Set<u64>, nodes: Seq<u64>, a: u64, connected: bool) -> Set<
    u64,
> {
    if connected {
        s.difference(links_from(nodes, a))
    } else {
        s.union(links_from(nodes, a))
    }
}

/// The set of ports currently partitioned.
pub struct PartitionSet {
    ports: HashSet<u64>,
}

impl View for PartitionSet {
    type V = Set<u64>;

    closed spec fn view(&self) -> Set<u64> {
        self.ports@
    }
}

/// Digits of the two directions of a link of single-digit ids.
proof fn lemma_pair(a: u64, b: u64)
    requires
        is_node_id(a),
        is_node_id(b),
    ensures
        is_pair_port(port_of(a as int, b as int) as u64),
        is_pair_port(port_of(b as int, a as int) as u64),
        mirror_port(port_of(a as int, b as int) as u64) == port_of(b as int, a as int),
        mirror_port(port_of(b as int, a as int) as u64) == port_of(a as int, b as int),
{
    crate::topology::lemma_port_digits(a, b);
    crate::topology::lemma_port_digits(b, a);
}

/// Two pair ports that are mirrors of each other.
proof fn lemma_mirror_of_mirror(p: u64)
    requires
        is_pair_port(p),
    ensures
        is_pair_port(mirror_port(p) as u64),
        mirror_port(mirror_port(p) as u64) == p,
{
    crate::topology::lemma_port_from_digits(p);
    lemma_pair(sender_digit(p), receiver_digit(p));
}

impl PartitionSet {
    pub open spec fn wf(&self) -> bool {
        symmetric(self@)
    }

    /// An empty partition set: every link connected.
    pub fn new() -> (r: PartitionSet)
        ensures
            r@ == Set::<u64>::empty(),
            r.wf(),
    {
        PartitionSet { ports: HashSet::new() }
    }

    /// Whether frames received on `port` are dropped.
    pub fn contains(&self, port: u64) -> (r: bool)
        ensures
            r == self@.contains(port),
    {
        self.ports.contains(&port)
    }

    /// Connects every link.
    pub fn clear(&mut self)
        ensures
            final(self)@ == Set::<u64>::empty(),
            final(self).wf(),
    {
        self.ports.clear();
    }

    /// Adds (`connected == false`) or removes (`connected == true`) both directions of
    /// the link between `a` and `b`.
    pub fn set_undirected(&mut self, a: u64, b: u64, connected: bool)
        requires
            old(self).wf(),
            is_node_id(a),
            is_node_id(b),
        ensures
            final(self)@ == with_link(old(self)@, a, b, connected),
            final(self).wf(),
    {
        let x = 8000 + 10 * a + b;
        let y = 8000 + 10 * b + a;
        proof {
            lemma_pair(a, b);
        }
        if connected {
            self.ports.remove(&x);
            self.ports.remove(&y);
        } else {
            self.ports.insert(x);
            self.ports.insert(y);
        }
        proof {
            let s = self@;
            assert forall|p: u64| #[trigger] s.contains(p) implies is_pair_port(p) && s.contains(
                mirror_port(p) as u64,
            ) by {
                if p != x && p != y {
                    assert(old(self)@.contains(p));
                    lemma_mirror_of_mirror(p);
                }
            }
        }
    }

    /// Applies [`Self::set_undirected`] to `a` and every other node of `nodes`, as one
    /// update.
    pub fn set_all_from(&mut self, nodes: &Vec<u64>, a: u64, connected: bool)
        requires
            old(self).wf(),
            valid_nodes(nodes@),
            is_node_id(a),
        ensures
            final(self)@ == with_all_links(old(self)@, nodes@, a, connected),
            final(self).wf(),
    {
        let ghost s0 = self@;
        let mut i: usize = 0;
        while i < nodes.len()
            invariant
                0 <= i <= nodes@.len(),
                valid_nodes(nodes@),
                is_node_id(a),
                self.wf(),
                self@ == with_all_links(s0, nodes@.subrange(0, i as int), a, connected),
            decreases nodes@.len() - i,
        {
            let b = nodes[i];
            let ghost pre = nodes@.subrange(0, i as int);
            let ghost next = nodes@.subrange(0, i + 1);
            assert(next == pre.push(b));
            assert(is_node_id(nodes@[i as int]));
            if b != a {
                self.set_undirected(a, b, connected);
                assert(links_from(next, a) =~= links_from(pre, a).insert(
                    port_of(a as int, b as int) as u64,
                ).insert(port_of(b as int, a as int) as u64)) by {
                    assert forall|p: u64| links_from(next, a).contains(p) implies links_from(
                        pre,
                        a,
                    ).insert(port_of(a as int, b as int) as u64).insert(
                        port_of(b as int, a as int) as u64,
                    ).contains(p) by {
                        let c = choose|c: u64| #[trigger]
                            next.contains(c) && c != a && (p == port_of(a as int, c as int) || p
                                == port_of(c as int, a as int));
                        if c != b {
                            let k = next.index_of(c);
                            assert(pre[k] == c);
                            assert(pre.contains(c));
                        }
                    }
                    assert forall|p: u64| links_from(pre, a).contains(p) implies links_from(
                        next,
                        a,
                    ).contains(p) by {
                        let c = choose|c: u64| #[trigger]
                            pre.contains(c) && c != a && (p == port_of(a as int, c as int) || p
                                == port_of(c as int, a as int));
                        let k = pre.index_of(c);
                        assert(next[k] == c);
                        assert(next.contains(c));
                    }
                    assert(next[i as int] == b);
                    assert(next.contains(b));
                }
                if connected {
                    assert(self@ =~= with_all_links(s0, next, a, connected));
                } else {
                    assert(self@ =~= with_all_links(s0, next, a, connected));
                }
            } else {
                assert(links_from(next, a) =~= links_from(pre, a)) by {
                    assert forall|p: u64| links_from(next, a).contains(p) implies links_from(
                        pre,
                        a,
                    ).contains(p) by {
                        let c = choose|c: u64| #[trigger]
                            next.contains(c) && c != a && (p == port_of(a as int, c as int) || p
                                == port_of(c as int, a as int));
                        let k = next.index_of(c);
                        assert(k != i);
                        assert(pre[k] == c);
                        assert(pre.contains(c));
                    }
                    assert forall|p: u64| links_from(pre, a).contains(p) implies links_from(
                        next,
                        a,
                    ).contains(p) by {
                        let c = choose|c: u64| #[trigger]
                            pre.contains(c) && c != a && (p == port_of(a as int, c as int) || p
                                == port_of(c as int, a as int));
                        let k = pre.index_of(c);
                        assert(next[k] == c);
                        assert(next.contains(c));
                    }
                }
            }
            i += 1;
        }
        assert(nodes@.subrange(0, nodes@.len() as int) == nodes@);
    }

    /// The partitioned links as undirected pairs `(a, b)` with `a <= b`.
    pub fn undirected_pairs(&self) -> (r: Vec<(u64, u64)>)
        requires
            self.wf(),
        ensures
            forall|a: u64, b: u64|
                #![trigger r@.contains((a, b))]
                #![trigger self@.contains(port_of(a as int, b as int) as u64)]
                r@.contains((a, b)) <==> 1 <= a <= b <= 9 && self@.contains(
                    port_of(a as int, b as int) as u64,
                ),
    {
        let mut r: Vec<(u64, u64)> = Vec::new();
        let mut a: u64 = 1;
        while a <= 9
            invariant
                1 <= a <= 10,
                forall|x: u64, y: u64|
                    #![trigger r@.contains((x, y))]
                    #![trigger self@.contains(port_of(x as int, y as int) as u64)]
                    r@.contains((x, y)) <==> 1 <= x < a && x <= y <= 9 && self@.contains(
                        port_of(x as int, y as int) as u64,
                    ),
            decreases 10 - a,
        {
            let mut b: u64 = a;
            while b <= 9
                invariant
                    1 <= a <= 9,
                    a <= b <= 10,
                    forall|x: u64, y: u64|
                        #![trigger r@.contains((x, y))]
                        #![trigger self@.contains(port_of(x as int, y as int) as u64)]
                        r@.contains((x, y)) <==> (1 <= x < a && x <= y <= 9 || x == a && a <= y
                            < b) && self@.contains(port_of(x as int, y as int) as u64),
                decreases 10 - b,
            {
                let p: u64 = 8000 + 10 * a + b;
                assert(p == port_of(a as int, b as int) as u64);
                let found = self.ports.contains(&p);
                let ghost old_r = r@;
                if found {
                    r.push((a, b));
                }
                proof {
                    assert(found == self@.contains(p));
                    assert forall|x: u64, y: u64|
                        #![trigger r@.contains((x, y))]
                        #![trigger self@.contains(port_of(x as int, y as int) as u64)]
                        r@.contains((x, y)) <==> (1 <= x < a && x <= y <= 9 || x == a && a <= y
                            < b + 1) && self@.contains(port_of(x as int, y as int) as u64) by {
                        if found {
                            if r@.contains((x, y)) {
                                let k = r@.index_of((x, y));
                                if k < old_r.len() {
                                    assert(old_r[k] == (x, y));
                                    assert(old_r.contains((x, y)));
                                }
                            }
                            if old_r.contains((x, y)) {
                                let k = old_r.index_of((x, y));
                                assert(r@[k] == (x, y));
                            }
                            assert(r@[old_r.len() as int] == (a, b));
                            assert(r@.contains((a, b)));
                        }
                    }
                }
                b += 1;
            }
            a += 1;
        }
        r
    }
}

/// A partition set is always symmetric: `P(a, b)` is in it exactly when `P(b, a)` is.
pub proof fn lemma_partition_symmetric(s: &PartitionSet, a: u64, b: u64)
    requires
        s.wf(),
        is_node_id(a),
        is_node_id(b),
    ensures
        s@.contains(port_of(a as int, b as int) as u64) <==> s@.contains(
            port_of(b as int, a as int) as u64,
        ),
{
    lemma_pair(a, b);
}

/// Disconnecting a connected link and connecting it again gives back the set as it
/// was.
pub proof fn lemma_disconnect_reconnect(s: Set<u64>, a: u64, b: u64)
    requires
        symmetric(s),
        is_node_id(a),
        is_node_id(b),
        !s.contains(port_of(a as int, b as int) as u64),
    ensures
        with_link(with_link(s, a, b, false), a, b, true) == s,
{
    lemma_pair(a, b);
    assert(!s.contains(port_of(b as int, a as int) as u64));
    assert(with_link(with_link(s, a, b, false), a, b, true) =~= s);
}

} // verus!
