//! The graph of the areas' routers that routes are computed on.
use vstd::prelude::*;

use crate::area::lsdb::{key_of, lemma_to_map_contains, lemma_to_map_index, LsaDb, LsaIdentifer};
use crate::lsa::router::ROUTER_LSA_TYPE;

verus! {

/// What a node of the graph stands for.
#[derive(Clone, Copy, PartialEq, Eq, PartialOrd, Ord, Hash, Debug, Structural)]
pub enum NodeType {
    Router,
    Transit,
    Stub,
}

/// A node of the graph: a router, transit network or stub network, by its id.
#[derive(Clone, Copy, PartialEq, Eq, PartialOrd, Ord, Hash, Debug, Structural)]
pub struct Node {
    pub node_type: NodeType,
    pub id: u32,
}

/// An edge of the graph and its cost.
#[derive(Clone, Copy, PartialEq, Eq, Debug, Structural)]
pub struct Edge {
    pub cost: u16,
}

/// A directed graph: a set of nodes and, for pairs of nodes, the edge from the first to the
/// second.
pub struct Graph {
    nodes: Vec<Node>,
    edges: Vec<(Node, Node, Edge)>,
}

/// A graph as a mathematical value.
pub struct GraphView {
    pub nodes: Set<Node>,
    pub edges: Map<(Node, Node), Edge>,
}

/// The map from pairs of nodes to edges that a list of edges gives, later entries over
/// earlier.
pub open spec fn edge_map(s: Seq<(Node, Node, Edge)>) -> Map<(Node, Node), Edge>
    decreases s.len(),
{
    if s.len() == 0 {
        Map::empty()
    } else {
        edge_map(s.drop_last()).insert((s.last().0, s.last().1), s.last().2)
    }
}

/// No pair of nodes has two edges in the list.
pub open spec fn edge_pairs_unique(s: Seq<(Node, Node, Edge)>) -> bool {
    forall|i: int, j: int| 0 <= i < j < s.len() ==> (s[i].0, s[i].1) != (s[j].0, s[j].1)
}

proof fn lemma_edge_map_contains(s: Seq<(Node, Node, Edge)>, k: (Node, Node))
    ensures
        edge_map(s).contains_key(k) <==> exists|i: int| 0 <= i < s.len() && (s[i].0, s[i].1) == k,
    decreases s.len(),
{
    if s.len() > 0 {
        lemma_edge_map_contains(s.drop_last(), k);
        if edge_map(s.drop_last()).contains_key(k) {
            let i = choose|i: int|
                0 <= i < s.len() - 1 && (s.drop_last()[i].0, s.drop_last()[i].1) == k;
            assert(s[i] == s.drop_last()[i]);
        }
        if exists|i: int| 0 <= i < s.len() && (s[i].0, s[i].1) == k {
            let i = choose|i: int| 0 <= i < s.len() && (s[i].0, s[i].1) == k;
            if i < s.len() - 1 {
                assert(s.drop_last()[i] == s[i]);
            }
        }
    }
}

proof fn lemma_edge_map_index(s: Seq<(Node, Node, Edge)>, i: int)
    requires
        edge_pairs_unique(s),
        0 <= i < s.len(),
    ensures
        edge_map(s).contains_key((s[i].0, s[i].1)),
        edge_map(s)[(s[i].0, s[i].1)] == s[i].2,
    decreases s.len(),
{
    if i < s.len() - 1 {
        let p = s.drop_last();
        assert(edge_pairs_unique(p)) by {
            assert forall|a: int, b: int| 0 <= a < b < p.len() implies (p[a].0, p[a].1) != (
                p[b].0,
                p[b].1,
            ) by {
                assert(p[a] == s[a] && p[b] == s[b]);
            }
        }
        assert(p[i] == s[i]);
        lemma_edge_map_index(p, i);
        assert((s[i].0, s[i].1) != (s.last().0, s.last().1));
    }
}

proof fn lemma_edge_map_ext(s: Seq<(Node, Node, Edge)>, m: Map<(Node, Node), Edge>)
    requires
        edge_pairs_unique(s),
        forall|k: (Node, Node)| #[trigger]
            m.contains_key(k) <==> exists|i: int| 0 <= i < s.len() && (s[i].0, s[i].1) == k,
        forall|i: int| 0 <= i < s.len() ==> #[trigger] m[(s[i].0, s[i].1)] == s[i].2,
    ensures
        edge_map(s) == m,
{
    assert forall|k: (Node, Node)| #[trigger] edge_map(s).contains_key(k) == m.contains_key(k) by {
        lemma_edge_map_contains(s, k);
    }
    assert forall|k: (Node, Node)| #[trigger] edge_map(s).contains_key(k) implies edge_map(s)[k]
        == m[k] by {
        lemma_edge_map_contains(s, k);
        let i = choose|i: int| 0 <= i < s.len() && (s[i].0, s[i].1) == k;
        lemma_edge_map_index(s, i);
    }
    assert(edge_map(s) =~= m);
}

impl Graph {
    /// No node is kept twice, and no pair of nodes has two edges.
    pub closed spec fn wf(self) -> bool {
        &&& self.nodes@.no_duplicates()
        &&& edge_pairs_unique(self.edges@)
    }
}

impl View for Graph {
    type V = GraphView;

    closed spec fn view(&self) -> GraphView {
        GraphView { nodes: self.nodes@.to_set(), edges: edge_map(self.edges@) }
    }
}

impl Graph {
    pub fn new() -> (r: Self)
        ensures
            r.wf(),
            r@.nodes == Set::<Node>::empty(),
            r@.edges == Map::<(Node, Node), Edge>::empty(),
    {
        let r = Self { nodes: Vec::new(), edges: Vec::new() };
        assert(r.nodes@.to_set() =~= Set::<Node>::empty());
        r
    }

    /// Whether `node` is a node of the graph.
    pub fn contains_node(&self, node: Node) -> (r: bool)
        ensures
            r == self@.nodes.contains(node),
    {
        let mut i: usize = 0;
        while i < self.nodes.len()
            invariant
                i <= self.nodes.len(),
                forall|j: int| 0 <= j < i ==> self.nodes@[j] != node,
            decreases self.nodes.len() - i,
        {
            if self.nodes[i] == node {
                assert(self.nodes@.contains(node));
                return true;
            }
            i = i + 1;
        }
        false
    }

    /// Adds `node`, if it is not there yet.
    pub fn add_node(&mut self, node: Node)
        requires
            old(self).wf(),
        ensures
            final(self).wf(),
            final(self)@.nodes == old(self)@.nodes.insert(node),
            final(self)@.edges == old(self)@.edges,
    {
        if !self.contains_node(node) {
            let ghost old_nodes = self.nodes@;
            self.nodes.push(node);
            proof {
                old_nodes.lemma_push_to_set_commute(node);
            }
            assert(self.nodes@ == old_nodes.push(node));
            assert forall|a: int, b: int|
                0 <= a < self.nodes@.len() && 0 <= b < self.nodes@.len() && a != b implies self.nodes@[a]
                != self.nodes@[b] by {
                if a < old_nodes.len() && b < old_nodes.len() {
                    assert(self.nodes@[a] == old_nodes[a] && self.nodes@[b] == old_nodes[b]);
                } else if a < old_nodes.len() {
                    assert(old_nodes.contains(self.nodes@[a]));
                } else {
                    assert(old_nodes.contains(self.nodes@[b]));
                }
            }
        } else {
            assert(self@.nodes.insert(node) =~= self@.nodes);
        }
    }

    /// Where the edge from `from` to `to` is kept.
    fn find_edge(&self, from: Node, to: Node) -> (r: Option<usize>)
        ensures
            match r {
                Some(i) => i < self.edges@.len() && (self.edges@[i as int].0, self.edges@[i as int].1)
                    == (from, to),
                None => forall|i: int|
                    0 <= i < self.edges@.len() ==> (#[trigger] self.edges@[i].0, self.edges@[i].1)
                        != (from, to),
            },
    {
        let mut i: usize = 0;
        while i < self.edges.len()
            invariant
                i <= self.edges.len(),
                forall|j: int| 0 <= j < i ==> (#[trigger] self.edges@[j].0, self.edges@[j].1) != (from, to),
            decreases self.edges.len() - i,
        {
            let (a, b, _) = self.edges[i];
            if a == from && b == to {
                return Some(i);
            }
            i = i + 1;
        }
        None
    }

    /// The edge from `from` to `to`, if there is one.
    pub fn get_edge(&self, from: Node, to: Node) -> (r: Option<Edge>)
        requires
            self.wf(),
        ensures
            match r {
                Some(e) => self@.edges.contains_key((from, to)) && self@.edges[(from, to)] == e,
                None => !self@.edges.contains_key((from, to)),
            },
    {
        proof {
            lemma_edge_map_contains(self.edges@, (from, to));
        }
        match self.find_edge(from, to) {
            Some(i) => {
                proof {
                    lemma_edge_map_index(self.edges@, i as int);
                }
                Some(self.edges[i].2)
            },
            None => None,
        }
    }

    /// Sets the edge from `node1` to `node2`, in place of any edge between them before.
    pub fn add_edge(&mut self, node1: Node, node2: Node, edge: Edge)
        requires
            old(self).wf(),
        ensures
            final(self).wf(),
            final(self)@.nodes == old(self)@.nodes,
            final(self)@.edges == old(self)@.edges.insert((node1, node2), edge),
    {
        let ghost old_s = self.edges@;
        let ghost k = (node1, node2);
        match self.find_edge(node1, node2) {
            Some(i) => {
                self.edges.set(i, (node1, node2, edge));
                proof {
                    let s = self.edges@;
                    assert(s =~= old_s.update(i as int, (node1, node2, edge)));
                    assert forall|a: int, b: int| 0 <= a < b < s.len() implies (s[a].0, s[a].1) != (
                        s[b].0,
                        s[b].1,
                    ) by {
                        assert((old_s[i as int].0, old_s[i as int].1) == k);
                    }
                    let m = edge_map(old_s).insert(k, edge);
                    assert forall|q: (Node, Node)| #[trigger] m.contains_key(q) <==> exists|j: int|
                        0 <= j < s.len() && (s[j].0, s[j].1) == q by {
                        lemma_edge_map_contains(old_s, q);
                        if q == k {
                            assert((s[i as int].0, s[i as int].1) == q);
                        } else if m.contains_key(q) {
                            let j = choose|j: int| 0 <= j < old_s.len() && (old_s[j].0, old_s[j].1) == q;
                            assert((s[j].0, s[j].1) == q);
                        }
                        if exists|j: int| 0 <= j < s.len() && (s[j].0, s[j].1) == q {
                            let j = choose|j: int| 0 <= j < s.len() && (s[j].0, s[j].1) == q;
                            if j != i {
                                assert((old_s[j].0, old_s[j].1) == q);
                            }
                        }
                    }
                    assert forall|j: int| 0 <= j < s.len() implies #[trigger] m[(s[j].0, s[j].1)]
                        == s[j].2 by {
                        if j != i {
                            lemma_edge_map_index(old_s, j);
                            assert((old_s[i as int].0, old_s[i as int].1) != (old_s[j].0, old_s[j].1));
                        }
                    }
                    lemma_edge_map_ext(s, m);
                }
            },
            None => {
                self.edges.push((node1, node2, edge));
                proof {
                    let s = self.edges@;
                    assert(s.drop_last() =~= old_s);
                    assert forall|a: int, b: int| 0 <= a < b < s.len() implies (s[a].0, s[a].1) != (
                        s[b].0,
                        s[b].1,
                    ) by {
                        if b == s.len() - 1 {
                            assert(s[a] == old_s[a]);
                        } else {
                            assert(s[a] == old_s[a] && s[b] == old_s[b]);
                        }
                    }
                }
            },
        }
    }

    /// Removes every node and edge.
    pub fn clear(&mut self)
        ensures
            final(self).wf(),
            final(self)@.nodes == Set::<Node>::empty(),
            final(self)@.edges == Map::<(Node, Node), Edge>::empty(),
    {
        self.nodes.clear();
        self.edges.clear();
        assert(self.nodes@.to_set() =~= Set::<Node>::empty());
    }
}

/// Whether router `id` originated a router-LSA that one of the databases holds: some
/// router-LSA there, of the router-LSA type, has `id` as its link state id.
pub open spec fn router_in(lsdbs: Seq<LsaDb>, id: u32) -> bool {
    exists|k: int, l: LsaIdentifer| 0 <= k < lsdbs.len() && #[trigger] lsdbs[k]@.router.contains_key(l) && {
        let h = lsdbs[k]@.router[l].header();
        h.lsa_type == ROUTER_LSA_TYPE && h.link_state_id == id
    }
}

/// Builds the graph anew from the areas' databases: one router node for each router-LSA,
/// named by its link state id, and no edges.
pub fn build_graph(graph: &mut Graph, lsdbs: &Vec<LsaDb>)
    requires
        forall|k: int| 0 <= k < lsdbs@.len() ==> (#[trigger] lsdbs@[k]).wf(),
    ensures
        final(graph).wf(),
        final(graph)@.edges == Map::<(Node, Node), Edge>::empty(),
        forall|n: Node| #[trigger]
            final(graph)@.nodes.contains(n) <==> (n.node_type == NodeType::Router && router_in(
                lsdbs@,
                n.id,
            )),
{
    graph.clear();
    let mut k: usize = 0;
    while k < lsdbs.len()
        invariant
            k <= lsdbs@.len(),
            forall|j: int| 0 <= j < lsdbs@.len() ==> (#[trigger] lsdbs@[j]).wf(),
            graph.wf(),
            graph@.edges == Map::<(Node, Node), Edge>::empty(),
            forall|n: Node| #[trigger]
                graph@.nodes.contains(n) <==> (n.node_type == NodeType::Router && router_in(
                    lsdbs@.take(k as int),
                    n.id,
                )),
        decreases lsdbs@.len() - k,
    {
        let db = &lsdbs[k];
        let headers = db.router_lsa.headers();
        let ghost es = db.router_lsa.entries();
        let mut i: usize = 0;
        while i < headers.len()
            invariant
                k < lsdbs@.len(),
                *db == lsdbs@[k as int],
                db.wf(),
                es == db.router_lsa.entries(),
                headers@ == es.map_values(|v: crate::lsa::LsaView| v.header()),
                i <= headers@.len(),
                graph.wf(),
                graph@.edges == Map::<(Node, Node), Edge>::empty(),
                forall|n: Node| #[trigger]
                    graph@.nodes.contains(n) <==> (n.node_type == NodeType::Router && (router_in(
                        lsdbs@.take(k as int),
                        n.id,
                    ) || exists|j: int|
                        0 <= j < i && #[trigger] es[j].header().lsa_type == ROUTER_LSA_TYPE
                            && es[j].header().link_state_id == n.id)),
            decreases headers@.len() - i,
        {
            let h = &headers[i];
            if h.lsa_type == ROUTER_LSA_TYPE {
                graph.add_node(Node { node_type: NodeType::Router, id: h.link_state_id });
            }
            i = i + 1;
        }
        proof {
            let next = lsdbs@.take(k as int + 1);
            assert forall|n: Node| #[trigger] graph@.nodes.contains(n) <==> (n.node_type
                == NodeType::Router && router_in(next, n.id)) by {
                assert forall|id: u32| router_in(next, id) <==> (router_in(lsdbs@.take(k as int), id)
                    || exists|j: int|
                    0 <= j < es.len() && #[trigger] es[j].header().lsa_type == ROUTER_LSA_TYPE
                        && es[j].header().link_state_id == id) by {
                    if router_in(next, id) {
                        let (kk, l) = choose|kk: int, l: LsaIdentifer|
                            0 <= kk < next.len() && #[trigger] next[kk]@.router.contains_key(l) && {
                                let h = next[kk]@.router[l].header();
                                h.lsa_type == ROUTER_LSA_TYPE && h.link_state_id == id
                            };
                        if kk < k {
                            assert(lsdbs@.take(k as int)[kk] == next[kk]);
                        } else {
                            lemma_to_map_contains(es, l);
                            let j = choose|j: int| 0 <= j < es.len() && key_of(es[j]) == l;
                            lemma_to_map_index(es, j);
                            assert(es[j].header().lsa_type == ROUTER_LSA_TYPE);
                        }
                    }
                    if router_in(lsdbs@.take(k as int), id) {
                        let (kk, l) = choose|kk: int, l: LsaIdentifer|
                            0 <= kk < k && #[trigger] lsdbs@.take(k as int)[kk]@.router.contains_key(l)
                                && {
                                let h = lsdbs@.take(k as int)[kk]@.router[l].header();
                                h.lsa_type == ROUTER_LSA_TYPE && h.link_state_id == id
                            };
                        assert(next[kk] == lsdbs@.take(k as int)[kk]);
                    }
                    if exists|j: int|
                        0 <= j < es.len() && #[trigger] es[j].header().lsa_type == ROUTER_LSA_TYPE
                            && es[j].header().link_state_id == id {
                        let j = choose|j: int|
                            0 <= j < es.len() && #[trigger] es[j].header().lsa_type == ROUTER_LSA_TYPE
                                && es[j].header().link_state_id == id;
                        lemma_to_map_index(es, j);
                        assert(next[k as int] == lsdbs@[k as int]);
                        assert(next[k as int]@.router.contains_key(key_of(es[j])));
                    }
                }
            }
        }
        k = k + 1;
    }
    assert(lsdbs@.take(k as int) =~= lsdbs@);
}

} // verus!
