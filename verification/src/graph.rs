use vstd::prelude::*;

use crate::types::{EdgeId, NodeId, RoadType};

verus! {

/// A node of the road graph: a point where roads meet or bend.
#[derive(Debug, Clone)]
pub struct RoadNode {
    pub id: NodeId,
    pub name: String,
}

/// A directed road segment between two nodes.
#[derive(Debug, Clone)]
pub struct RoadEdge {
    pub id: EdgeId,
    pub from: NodeId,
    pub to: NodeId,
    pub road_type: RoadType,
    pub is_blocked: bool,
    pub has_toll: bool,
    pub name: String,
}

/// A directed road graph. `adjacency[n]` lists, in insertion order, the ids
/// of the edges that leave node `n`.
#[derive(Debug, Clone)]
pub struct RoadGraph {
    pub nodes: Vec<RoadNode>,
    pub edges: Vec<RoadEdge>,
    pub adjacency: Vec<Vec<EdgeId>>,
}

/// The ids, in increasing order, of the edges in `edges` that leave node `n`.
pub open spec fn outgoing_ids(edges: Seq<RoadEdge>, n: NodeId) -> Seq<EdgeId>
    decreases edges.len(),
{
    if edges.len() == 0 {
        Seq::empty()
    } else {
        let rest = outgoing_ids(edges.drop_last(), n);
        if edges.last().from == n {
            rest.push((edges.len() - 1) as EdgeId)
        } else {
            rest
        }
    }
}

impl RoadGraph {
    /// Node and edge ids are their positions, every edge leaves an existing
    /// node, and the adjacency lists agree with the edge list.
    pub open spec fn well_formed(&self) -> bool {
        &&& self.adjacency@.len() == self.nodes@.len()
        &&& forall|i: int| 0 <= i < self.nodes@.len() ==> (#[trigger] self.nodes@[i]).id == i
        &&& forall|i: int|
            0 <= i < self.edges@.len() ==> (#[trigger] self.edges@[i]).id == i
                && self.edges@[i].from < self.nodes@.len()
        &&& forall|n: NodeId|
            n < self.nodes@.len() ==> (#[trigger] self.adjacency@[n as int])@ == outgoing_ids(
                self.edges@,
                n,
            )
    }

    /// An empty graph.
    pub fn new() -> (graph: Self)
        ensures
            graph.well_formed(),
            graph.nodes@.len() == 0,
            graph.edges@.len() == 0,
    {
        RoadGraph { nodes: Vec::new(), edges: Vec::new(), adjacency: Vec::new() }
    }

    /// Adds a node with no outgoing edges and returns its id.
    pub fn add_node(&mut self, name: String) -> (id: NodeId)
        requires
            old(self).well_formed(),
        ensures
            final(self).well_formed(),
            id == old(self).nodes@.len(),
            final(self).nodes@ == old(self).nodes@.push(RoadNode { id, name }),
            final(self).edges@ == old(self).edges@,
            outgoing_ids(final(self).edges@, id) == Seq::<EdgeId>::empty(),
    {
        let id = self.nodes.len();
        proof {
            lemma_no_outgoing_beyond(self.edges@, id);
        }
        self.nodes.push(RoadNode { id, name });
        self.adjacency.push(Vec::new());
        id
    }

    /// Adds a directed edge from `from` to `to`, not blocked, and returns its id.
    pub fn add_directed_edge(
        &mut self,
        from: NodeId,
        to: NodeId,
        road_type: RoadType,
        has_toll: bool,
        name: String,
    ) -> (id: EdgeId)
        requires
            old(self).well_formed(),
            from < old(self).nodes@.len(),
        ensures
            final(self).well_formed(),
            id == old(self).edges@.len(),
            final(self).nodes@ == old(self).nodes@,
            final(self).edges@ == old(self).edges@.push(
                RoadEdge { id, from, to, road_type, is_blocked: false, has_toll, name },
            ),
            forall|n: NodeId|
                #![trigger outgoing_ids(final(self).edges@, n)]
                outgoing_ids(final(self).edges@, n) == if n == from {
                    outgoing_ids(old(self).edges@, n).push(id)
                } else {
                    outgoing_ids(old(self).edges@, n)
                },
    {
        let id = self.edges.len();
        let ghost old_edges = self.edges@;
        let ghost old_adj = self.adjacency@;
        self.edges.push(RoadEdge { id, from, to, road_type, is_blocked: false, has_toll, name });
        self.adjacency[from].push(id);
        proof {
            assert(self.edges@ == old_edges.push(self.edges@.last()));
            assert(self.edges@.last().from == from);
            assert forall|n: NodeId| #![trigger outgoing_ids(self.edges@, n)] outgoing_ids(self.edges@, n) == if n == from {
                outgoing_ids(old_edges, n).push(id)
            } else {
                outgoing_ids(old_edges, n)
            } by {
                lemma_outgoing_after_push(old_edges, self.edges@.last(), n);
            }
            assert forall|n: NodeId| n < self.nodes@.len() implies (
            #[trigger] self.adjacency@[n as int])@ == outgoing_ids(self.edges@, n) by {
                lemma_outgoing_after_push(old_edges, self.edges@.last(), n);
                if n == from {
                    assert(self.adjacency@[n as int]@ == old_adj[n as int]@.push(id));
                } else {
                    assert(self.adjacency@[n as int] == old_adj[n as int]);
                }
            }
        }
        id
    }

    /// The ids of the edges leaving `node_id`, in the order they were added.
    pub fn outgoing_edges(&self, node_id: NodeId) -> (ids: &Vec<EdgeId>)
        requires
            self.well_formed(),
            node_id < self.nodes@.len(),
        ensures
            ids@ == outgoing_ids(self.edges@, node_id),
    {
        &self.adjacency[node_id]
    }
}

/// A node that no edge leaves has no outgoing edges.
pub proof fn lemma_no_outgoing_beyond(edges: Seq<RoadEdge>, n: NodeId)
    requires
        forall|i: int| 0 <= i < edges.len() ==> (#[trigger] edges[i]).from < n,
    ensures
        outgoing_ids(edges, n) == Seq::<EdgeId>::empty(),
    decreases edges.len(),
{
    if edges.len() > 0 {
        lemma_no_outgoing_beyond(edges.drop_last(), n);
    }
}

/// Appending an edge appends its id to the outgoing list of its source node
/// and leaves every other node's outgoing list unchanged.
pub proof fn lemma_outgoing_after_push(edges: Seq<RoadEdge>, e: RoadEdge, n: NodeId)
    ensures
        outgoing_ids(edges.push(e), n) == (if e.from == n {
            outgoing_ids(edges, n).push(edges.len() as EdgeId)
        } else {
            outgoing_ids(edges, n)
        }),
{
    assert(edges.push(e).drop_last() == edges);
}

/// Exactly the edges that leave `n` are listed, each once, in increasing order.
pub proof fn lemma_outgoing_ids_exact(edges: Seq<RoadEdge>, n: NodeId)
    requires
        edges.len() <= usize::MAX + 1,
    ensures
        forall|k: int|
            0 <= k < outgoing_ids(edges, n).len() ==> 0 <= #[trigger] outgoing_ids(edges, n)[k]
                < edges.len() && edges[outgoing_ids(edges, n)[k] as int].from == n,
        forall|j: int, k: int|
            0 <= j < k < outgoing_ids(edges, n).len() ==> outgoing_ids(edges, n)[j]
                < outgoing_ids(edges, n)[k],
        forall|i: int|
            0 <= i < edges.len() && (#[trigger] edges[i]).from == n ==> outgoing_ids(
                edges,
                n,
            ).contains(i as EdgeId),
    decreases edges.len(),
{
    if edges.len() > 0 {
        let rest = edges.drop_last();
        lemma_outgoing_ids_exact(rest, n);
        let out = outgoing_ids(edges, n);
        let rout = outgoing_ids(rest, n);
        assert forall|i: int| 0 <= i < edges.len() && (#[trigger] edges[i]).from == n implies out.contains(
            i as EdgeId,
        ) by {
            if i < edges.len() - 1 {
                assert(rest[i] == edges[i]);
                let k = choose|k: int| 0 <= k < rout.len() && rout[k] == i as EdgeId;
                assert(out[k] == i as EdgeId);
            } else {
                assert(out[out.len() - 1] == i as EdgeId);
            }
        }
        assert forall|k: int| 0 <= k < out.len() implies 0 <= #[trigger] out[k] < edges.len()
            && edges[out[k] as int].from == n by {
            if k < rout.len() {
                assert(out[k] == rout[k]);
                assert(rest[rout[k] as int] == edges[rout[k] as int]);
            }
        }
    }
}

} // verus!
