use std::collections::HashMap;

use vstd::prelude::*;

use crate::graph::RoadEdge;
use crate::types::{EdgeId, NodeId, RoadType, RoutingOptions};

verus! {

broadcast use vstd::std_specs::hash::group_hash_axioms;

/// A* search over a road graph. The search itself weighs edges by
/// floating-point costs; this type carries the integer-valued rules it uses.
pub struct AStarRouter;

/// Whether a route under `options` may use `edge`.
pub open spec fn spec_edge_allowed(edge: RoadEdge, options: RoutingOptions) -> bool {
    &&& !edge.is_blocked
    &&& !(options.avoid_tolls && edge.has_toll)
    &&& !(options.avoid_motorways && edge.road_type == RoadType::Motorway)
}

/// A blocked edge is never used; a toll edge is not used when tolls are
/// avoided; a motorway edge is not used when motorways are avoided.
pub fn edge_allowed(edge: &RoadEdge, options: &RoutingOptions) -> (allowed: bool)
    ensures
        allowed == spec_edge_allowed(*edge, *options),
        edge.is_blocked ==> !allowed,
        options.avoid_tolls && edge.has_toll ==> !allowed,
        options.avoid_motorways && edge.road_type == RoadType::Motorway ==> !allowed,
        !edge.is_blocked && !edge.has_toll && edge.road_type != RoadType::Motorway ==> allowed,
        !options.avoid_tolls && !options.avoid_motorways ==> (allowed <==> !edge.is_blocked),
{
    if edge.is_blocked {
        return false;
    }
    if options.avoid_tolls && edge.has_toll {
        return false;
    }
    if options.avoid_motorways && edge.road_type == RoadType::Motorway {
        return false;
    }
    true
}

/// What a route may use: never a blocked edge, never a toll edge while
/// tolls are avoided (whatever its road class), never a motorway while
/// motorways are avoided; an open edge without toll that is no motorway is
/// always usable, and with nothing avoided exactly the open edges are.
pub proof fn lemma_edge_rules(edge: RoadEdge, options: RoutingOptions)
    ensures
        edge.is_blocked ==> !spec_edge_allowed(edge, options),
        options.avoid_tolls && edge.has_toll ==> !spec_edge_allowed(edge, options),
        options.avoid_motorways && edge.road_type == RoadType::Motorway ==> !spec_edge_allowed(
            edge,
            options,
        ),
        !edge.is_blocked && !edge.has_toll && edge.road_type != RoadType::Motorway
            ==> spec_edge_allowed(edge, options),
        !options.avoid_tolls && !options.avoid_motorways ==> (spec_edge_allowed(edge, options)
            <==> !edge.is_blocked),
        !edge.is_blocked && !(options.avoid_tolls && edge.has_toll) && !(options.avoid_motorways
            && edge.road_type == RoadType::Motorway) ==> spec_edge_allowed(edge, options),
{
}

/// Under the preferences a session starts with, every edge that is not
/// blocked may be used.
pub proof fn lemma_initial_options_allow_open_edges(edge: RoadEdge)
    ensures
        spec_edge_allowed(edge, RoutingOptions::initial()) == !edge.is_blocked,
{
}

/// Avoiding more never allows more: an edge allowed while avoiding tolls or
/// motorways is allowed when avoiding fewer of them.
pub proof fn lemma_fewer_avoidances_allow_more(
    edge: RoadEdge,
    strict: RoutingOptions,
    relaxed: RoutingOptions,
)
    requires
        relaxed.avoid_tolls ==> strict.avoid_tolls,
        relaxed.avoid_motorways ==> strict.avoid_motorways,
    ensures
        spec_edge_allowed(edge, strict) ==> spec_edge_allowed(edge, relaxed),
{
}

/// Whether the backwards walk stops at `cur`: it reached `start`, or `cur`
/// has no recorded predecessor node or edge.
pub open spec fn walk_stops(
    parent_node: Map<NodeId, NodeId>,
    parent_edge: Map<NodeId, EdgeId>,
    start: NodeId,
    cur: NodeId,
) -> bool {
    cur == start || !parent_node.contains_key(cur) || !parent_edge.contains_key(cur)
}

/// The nodes and edges met when following predecessors back from `cur`,
/// in the order they are met (`cur` first), taking at most `fuel` steps;
/// `None` when `fuel` steps do not reach a stopping node.
pub open spec fn walk_back(
    parent_node: Map<NodeId, NodeId>,
    parent_edge: Map<NodeId, EdgeId>,
    start: NodeId,
    cur: NodeId,
    fuel: nat,
) -> Option<(Seq<NodeId>, Seq<EdgeId>)>
    decreases fuel,
{
    if walk_stops(parent_node, parent_edge, start, cur) {
        Some((seq![cur], Seq::empty()))
    } else if fuel == 0 {
        None
    } else {
        match walk_back(parent_node, parent_edge, start, parent_node[cur], (fuel - 1) as nat) {
            Some(p) => Some((seq![cur] + p.0, seq![parent_edge[cur]] + p.1)),
            None => None,
        }
    }
}

/// The route that ends at `goal`, as node and edge sequences in travel
/// order, when the predecessors lead from `goal` to a stopping node
/// within `fuel` steps.
pub open spec fn traced_route(
    parent_node: Map<NodeId, NodeId>,
    parent_edge: Map<NodeId, EdgeId>,
    start: NodeId,
    goal: NodeId,
    fuel: nat,
) -> Option<(Seq<NodeId>, Seq<EdgeId>)> {
    match walk_back(parent_node, parent_edge, start, goal, fuel) {
        Some(p) => Some((p.0.reverse(), p.1.reverse())),
        None => None,
    }
}

fn reversed(v: &Vec<usize>) -> (r: Vec<usize>)
    ensures
        r@ == v@.reverse(),
{
    let mut r: Vec<usize> = Vec::new();
    let mut i: usize = v.len();
    while i > 0
        invariant
            i <= v.len(),
            r@ == v@.subrange(i as int, v@.len() as int).reverse(),
        decreases i,
    {
        i = i - 1;
        let ghost before = r@;
        r.push(v[i]);
        assert(v@.subrange(i as int, v@.len() as int) == seq![v@[i as int]] + v@.subrange(
            i + 1,
            v@.len() as int,
        ));
        assert(r@ == v@.subrange(i as int, v@.len() as int).reverse());
    }
    assert(v@.subrange(0, v@.len() as int) == v@);
    r
}

/// Follows the recorded predecessors back from `goal` until it reaches
/// `start` or a node without a recorded predecessor node or edge, taking at
/// most `max_steps` steps. Returns the route's nodes and edges in travel
/// order, or `None` when `max_steps` steps are not enough.
pub fn trace_route(
    start: NodeId,
    goal: NodeId,
    parent_node: &HashMap<NodeId, NodeId>,
    parent_edge: &HashMap<NodeId, EdgeId>,
    max_steps: usize,
) -> (route: Option<(Vec<NodeId>, Vec<EdgeId>)>)
    ensures
        match route {
            Some(r) => traced_route(parent_node@, parent_edge@, start, goal, max_steps as nat)
                == Some((r.0@, r.1@)),
            None => traced_route(parent_node@, parent_edge@, start, goal, max_steps as nat)
                is None,
        },
{
    let ghost pn = parent_node@;
    let ghost pe = parent_edge@;
    let mut nodes_back: Vec<NodeId> = Vec::new();
    let mut edges_back: Vec<EdgeId> = Vec::new();
    let mut current = goal;
    let mut steps: usize = 0;
    loop
        invariant
            steps <= max_steps,
            pn == parent_node@,
            pe == parent_edge@,
            walk_back(pn, pe, start, goal, max_steps as nat) == match walk_back(
                pn,
                pe,
                start,
                current,
                (max_steps - steps) as nat,
            ) {
                Some(p) => Some((nodes_back@ + p.0, edges_back@ + p.1)),
                None => None::<(Seq<NodeId>, Seq<EdgeId>)>,
            },
        ensures
            walk_stops(pn, pe, start, current),
            steps <= max_steps,
            walk_back(pn, pe, start, goal, max_steps as nat) == match walk_back(
                pn,
                pe,
                start,
                current,
                (max_steps - steps) as nat,
            ) {
                Some(p) => Some((nodes_back@ + p.0, edges_back@ + p.1)),
                None => None::<(Seq<NodeId>, Seq<EdgeId>)>,
            },
        decreases max_steps - steps,
    {
        let ghost fuel = (max_steps - steps) as nat;
        if current == start {
            break;
        }
        let prev = match parent_node.get(&current) {
            Some(p) => *p,
            None => break,
        };
        let edge_id = match parent_edge.get(&current) {
            Some(e) => *e,
            None => break,
        };
        if steps == max_steps {
            return None;
        }
        proof {
            assert(!walk_stops(pn, pe, start, current));
            assert(pn[current] == prev);
            assert(pe[current] == edge_id);
            let w = walk_back(pn, pe, start, prev, (fuel - 1) as nat);
            if w is Some {
                let p = w->0;
                assert(nodes_back@.push(current) + p.0 == nodes_back@ + (seq![current] + p.0));
                assert(edges_back@.push(edge_id) + p.1 == edges_back@ + (seq![edge_id] + p.1));
            }
        }
        nodes_back.push(current);
        edges_back.push(edge_id);
        current = prev;
        steps = steps + 1;
    }
    proof {
        let fuel = (max_steps - steps) as nat;
        assert(walk_stops(pn, pe, start, current));
        assert(walk_back(pn, pe, start, current, fuel) == Some((seq![current], Seq::<EdgeId>::empty())));
        assert(edges_back@ + Seq::<EdgeId>::empty() == edges_back@);
    }
    nodes_back.push(current);
    let node_path = reversed(&nodes_back);
    let edge_path = reversed(&edges_back);
    Some((node_path, edge_path))
}

/// A walk that ends within `fuel` steps ends the same way with any larger
/// bound: the traced route does not depend on the step bound once it is
/// large enough.
pub proof fn lemma_walk_fuel_monotone(
    parent_node: Map<NodeId, NodeId>,
    parent_edge: Map<NodeId, EdgeId>,
    start: NodeId,
    cur: NodeId,
    fuel: nat,
    more: nat,
)
    requires
        walk_back(parent_node, parent_edge, start, cur, fuel) is Some,
        fuel <= more,
    ensures
        walk_back(parent_node, parent_edge, start, cur, more) == walk_back(
            parent_node,
            parent_edge,
            start,
            cur,
            fuel,
        ),
        traced_route(parent_node, parent_edge, start, cur, more) == traced_route(
            parent_node,
            parent_edge,
            start,
            cur,
            fuel,
        ),
    decreases fuel,
{
    if !walk_stops(parent_node, parent_edge, start, cur) {
        lemma_walk_fuel_monotone(
            parent_node,
            parent_edge,
            start,
            parent_node[cur],
            (fuel - 1) as nat,
            (more - 1) as nat,
        );
    }
}

/// Shape of a backwards walk: it begins at `cur`, ends at a stopping node,
/// and each step goes from a node to its recorded predecessor along its
/// recorded edge.
pub proof fn lemma_walk_back_shape(
    parent_node: Map<NodeId, NodeId>,
    parent_edge: Map<NodeId, EdgeId>,
    start: NodeId,
    cur: NodeId,
    fuel: nat,
)
    requires
        walk_back(parent_node, parent_edge, start, cur, fuel) is Some,
    ensures
        ({
            let (ns, es) = walk_back(parent_node, parent_edge, start, cur, fuel)->0;
            &&& ns.len() == es.len() + 1
            &&& es.len() <= fuel
            &&& ns[0] == cur
            &&& walk_stops(parent_node, parent_edge, start, ns.last())
            &&& forall|i: int|
                0 <= i < es.len() ==> !walk_stops(parent_node, parent_edge, start, #[trigger] ns[i])
                    && parent_node[ns[i]] == ns[i + 1] && parent_edge[ns[i]] == es[i]
        }),
    decreases fuel,
{
    if !walk_stops(parent_node, parent_edge, start, cur) {
        let next = parent_node[cur];
        lemma_walk_back_shape(parent_node, parent_edge, start, next, (fuel - 1) as nat);
        let (ns, es) = walk_back(parent_node, parent_edge, start, cur, fuel)->0;
        let (ns1, es1) = walk_back(parent_node, parent_edge, start, next, (fuel - 1) as nat)->0;
        assert(ns == seq![cur] + ns1);
        assert(es == seq![parent_edge[cur]] + es1);
        assert forall|i: int| 0 <= i < es.len() implies !walk_stops(
            parent_node,
            parent_edge,
            start,
            #[trigger] ns[i],
        ) && parent_node[ns[i]] == ns[i + 1] && parent_edge[ns[i]] == es[i] by {
            if i > 0 {
                assert(ns[i] == ns1[i - 1]);
                assert(ns[i + 1] == ns1[i]);
                assert(es[i] == es1[i - 1]);
            }
        }
    }
}

/// A traced route is a path that ends at `goal`: it has one more node than
/// edges, its first node is `start` or a node with no recorded predecessor,
/// and each node after the first was reached from the node before it along
/// the edge recorded for it.
pub proof fn lemma_traced_route_is_path(
    parent_node: Map<NodeId, NodeId>,
    parent_edge: Map<NodeId, EdgeId>,
    start: NodeId,
    goal: NodeId,
    fuel: nat,
)
    requires
        traced_route(parent_node, parent_edge, start, goal, fuel) is Some,
    ensures
        ({
            let (ns, es) = traced_route(parent_node, parent_edge, start, goal, fuel)->0;
            &&& ns.len() == es.len() + 1
            &&& ns.last() == goal
            &&& es.len() <= fuel
            &&& (ns[0] == start || !parent_node.contains_key(ns[0]) || !parent_edge.contains_key(
                ns[0],
            ))
            &&& forall|j: int|
                0 <= j < es.len() ==> parent_node.contains_key(#[trigger] ns[j + 1])
                    && parent_edge.contains_key(ns[j + 1]) && ns[j + 1] != start
                    && parent_node[ns[j + 1]] == ns[j] && parent_edge[ns[j + 1]] == es[j]
        }),
{
    lemma_walk_back_shape(parent_node, parent_edge, start, goal, fuel);
    let (bs, be) = walk_back(parent_node, parent_edge, start, goal, fuel)->0;
    let (ns, es) = traced_route(parent_node, parent_edge, start, goal, fuel)->0;
    assert(ns.last() == bs[0]);
    assert(ns[0] == bs.last());
    assert forall|j: int| 0 <= j < es.len() implies parent_node.contains_key(#[trigger] ns[j + 1])
        && parent_edge.contains_key(ns[j + 1]) && ns[j + 1] != start
        && parent_node[ns[j + 1]] == ns[j] && parent_edge[ns[j + 1]] == es[j] by {
        let i = bs.len() - 2 - j;
        assert(ns[j + 1] == bs[i]);
        assert(ns[j] == bs[i + 1]);
        assert(es[j] == be[i]);
        assert(!walk_stops(parent_node, parent_edge, start, bs[i]));
    }
}

} // verus!
