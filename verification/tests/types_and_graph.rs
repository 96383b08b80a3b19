use osm_nav::graph::RoadGraph;
use osm_nav::types::{ClickMode, RoadType, RouteMode, RoutingOptions};

#[test]
fn route_mode_names() {
    assert_eq!(RouteMode::Fastest.name(), "Fastest");
    assert_eq!(RouteMode::Shortest.name(), "Shortest");
}

#[test]
fn click_mode_names() {
    assert_eq!(ClickMode::SelectStart.name(), "Select Start");
    assert_eq!(ClickMode::SelectGoal.name(), "Select Goal");
}

#[test]
fn default_routing_options() {
    let o = RoutingOptions::default();
    assert_eq!(o.mode, RouteMode::Fastest);
    assert!(!o.avoid_tolls);
    assert!(!o.avoid_motorways);
    assert!(o.traffic_enabled);
}

#[test]
fn new_graph_is_empty() {
    let g = RoadGraph::new();
    assert!(g.nodes.is_empty());
    assert!(g.edges.is_empty());
    assert!(g.adjacency.is_empty());
}

#[test]
fn add_node_returns_consecutive_ids() {
    let mut g = RoadGraph::new();
    assert_eq!(g.add_node("a".to_string()), 0);
    assert_eq!(g.add_node("b".to_string()), 1);
    assert_eq!(g.add_node("c".to_string()), 2);
    assert_eq!(g.nodes[1].id, 1);
    assert_eq!(g.nodes[1].name, "b");
    assert!(g.outgoing_edges(2).is_empty());
}

#[test]
fn add_directed_edge_records_edge_and_adjacency() {
    let mut g = RoadGraph::new();
    let a = g.add_node("a".to_string());
    let b = g.add_node("b".to_string());
    let c = g.add_node("c".to_string());
    let e0 = g.add_directed_edge(a, b, RoadType::Primary, false, "ab".to_string());
    let e1 = g.add_directed_edge(b, c, RoadType::Motorway, true, "bc".to_string());
    let e2 = g.add_directed_edge(a, c, RoadType::Service, false, "ac".to_string());
    assert_eq!((e0, e1, e2), (0, 1, 2));
    let edge = &g.edges[1];
    assert_eq!(edge.id, 1);
    assert_eq!(edge.from, b);
    assert_eq!(edge.to, c);
    assert_eq!(edge.road_type, RoadType::Motorway);
    assert!(edge.has_toll);
    assert!(!edge.is_blocked);
    assert_eq!(edge.name, "bc");
    assert_eq!(g.outgoing_edges(a), &vec![0, 2]);
    assert_eq!(g.outgoing_edges(b), &vec![1]);
    assert!(g.outgoing_edges(c).is_empty());
}

#[test]
fn outgoing_edges_after_adding_an_edge_gain_exactly_that_edge() {
    let mut g = RoadGraph::new();
    let a = g.add_node("a".to_string());
    let b = g.add_node("b".to_string());
    g.add_directed_edge(a, b, RoadType::Trunk, false, "x".to_string());
    let before_a = g.outgoing_edges(a).clone();
    let before_b = g.outgoing_edges(b).clone();
    let id = g.add_directed_edge(a, a, RoadType::Trunk, false, "loop".to_string());
    let mut expected = before_a.clone();
    expected.push(id);
    assert_eq!(g.outgoing_edges(a), &expected);
    assert_eq!(g.outgoing_edges(b), &before_b);
}
