use std::collections::HashMap;

use osm_nav::graph::RoadEdge;
use osm_nav::router::{edge_allowed, trace_route};
use osm_nav::types::{RoadType, RouteMode, RoutingOptions};

fn edge(road_type: RoadType, is_blocked: bool, has_toll: bool) -> RoadEdge {
    RoadEdge { id: 0, from: 0, to: 1, road_type, is_blocked, has_toll, name: "e".to_string() }
}

fn options(avoid_tolls: bool, avoid_motorways: bool) -> RoutingOptions {
    RoutingOptions { mode: RouteMode::Shortest, avoid_tolls, avoid_motorways, traffic_enabled: true }
}

#[test]
fn blocked_edge_is_never_allowed() {
    assert!(!edge_allowed(&edge(RoadType::Primary, true, false), &options(false, false)));
    assert!(!edge_allowed(&edge(RoadType::Primary, true, false), &RoutingOptions::default()));
}

#[test]
fn toll_edge_rejected_only_when_avoiding_tolls() {
    let e = edge(RoadType::Primary, false, true);
    assert!(edge_allowed(&e, &options(false, false)));
    assert!(!edge_allowed(&e, &options(true, false)));
    assert!(edge_allowed(&e, &options(false, true)));
}

#[test]
fn motorway_rejected_only_when_avoiding_motorways() {
    let e = edge(RoadType::Motorway, false, false);
    assert!(edge_allowed(&e, &options(true, false)));
    assert!(!edge_allowed(&e, &options(false, true)));
    let trunk = edge(RoadType::Trunk, false, false);
    assert!(edge_allowed(&trunk, &options(true, true)));
}

#[test]
fn default_options_allow_every_open_edge() {
    let e = edge(RoadType::Motorway, false, true);
    assert!(edge_allowed(&e, &RoutingOptions::default()));
}

fn parents(links: &[(usize, usize, usize)]) -> (HashMap<usize, usize>, HashMap<usize, usize>) {
    let mut pn = HashMap::new();
    let mut pe = HashMap::new();
    for &(node, prev, edge) in links {
        pn.insert(node, prev);
        pe.insert(node, edge);
    }
    (pn, pe)
}

#[test]
fn trace_route_follows_parents_back_to_start() {
    // 0 -e7-> 3 -e2-> 5 -e9-> 4
    let (pn, pe) = parents(&[(3, 0, 7), (5, 3, 2), (4, 5, 9)]);
    let (nodes, edges) = trace_route(0, 4, &pn, &pe, pn.len()).unwrap();
    assert_eq!(nodes, vec![0, 3, 5, 4]);
    assert_eq!(edges, vec![7, 2, 9]);
}

#[test]
fn trace_route_of_start_itself_is_single_node() {
    let (pn, pe) = parents(&[(3, 0, 7)]);
    let (nodes, edges) = trace_route(3, 3, &pn, &pe, 0).unwrap();
    assert_eq!(nodes, vec![3]);
    assert!(edges.is_empty());
}

#[test]
fn trace_route_stops_where_parents_end() {
    let (pn, pe) = parents(&[(5, 3, 2), (4, 5, 9)]);
    let (nodes, edges) = trace_route(0, 4, &pn, &pe, 10).unwrap();
    assert_eq!(nodes, vec![3, 5, 4]);
    assert_eq!(edges, vec![2, 9]);
}

#[test]
fn trace_route_stops_when_parent_edge_missing() {
    let (mut pn, pe) = parents(&[(4, 5, 9)]);
    pn.insert(5, 3);
    let (nodes, edges) = trace_route(0, 4, &pn, &pe, 10).unwrap();
    assert_eq!(nodes, vec![5, 4]);
    assert_eq!(edges, vec![9]);
}

#[test]
fn trace_route_gives_none_when_steps_run_out() {
    let (pn, pe) = parents(&[(3, 0, 7), (5, 3, 2), (4, 5, 9)]);
    assert!(trace_route(0, 4, &pn, &pe, 2).is_none());
    assert!(trace_route(0, 4, &pn, &pe, 3).is_some());
}

#[test]
fn trace_route_gives_none_on_a_parent_cycle() {
    let (pn, pe) = parents(&[(1, 2, 0), (2, 1, 1)]);
    assert!(trace_route(0, 1, &pn, &pe, 100).is_none());
}

#[test]
fn trace_route_does_not_depend_on_a_larger_step_bound() {
    let (pn, pe) = parents(&[(3, 0, 7), (5, 3, 2), (4, 5, 9)]);
    let tight = trace_route(0, 4, &pn, &pe, 3).unwrap();
    let loose = trace_route(0, 4, &pn, &pe, 1000).unwrap();
    assert_eq!(tight, loose);
}

#[test]
fn traced_route_links_follow_parents() {
    let (pn, pe) = parents(&[(3, 0, 7), (5, 3, 2), (4, 5, 9)]);
    let (nodes, edges) = trace_route(0, 4, &pn, &pe, 3).unwrap();
    assert_eq!(nodes.len(), edges.len() + 1);
    assert_eq!(*nodes.last().unwrap(), 4);
    for j in 0..edges.len() {
        assert_eq!(pn[&nodes[j + 1]], nodes[j]);
        assert_eq!(pe[&nodes[j + 1]], edges[j]);
    }
}
