use osm_nav::osm::{
    classify_speed, graph_from_osm, has_toll, is_oneway, is_routable_way, parse_road_type,
    parse_speed_text, way_name, EdgeOrigin, OsmWay, SpeedUnit, WayTags,
};
use osm_nav::types::RoadType;

fn tags(highway: Option<&str>) -> WayTags {
    WayTags {
        highway: highway.map(|s| s.to_string()),
        maxspeed: None,
        oneway: None,
        toll: None,
        name: None,
    }
}

fn way(id: i64, nodes: Vec<i64>, tags: WayTags) -> OsmWay {
    OsmWay { id, nodes, tags }
}

#[test]
fn routable_highways() {
    for h in [
        "motorway", "motorway_link", "trunk", "trunk_link", "primary", "primary_link",
        "secondary", "secondary_link", "tertiary", "tertiary_link", "residential",
        "living_street", "service", "unclassified",
    ] {
        assert!(is_routable_way(&way(1, vec![1, 2], tags(Some(h)))), "{}", h);
    }
    for h in ["footway", "cycleway", "path", "Motorway", ""] {
        assert!(!is_routable_way(&way(1, vec![1, 2], tags(Some(h)))), "{}", h);
    }
    assert!(!is_routable_way(&way(1, vec![1, 2], tags(None))));
}

#[test]
fn way_with_fewer_than_two_nodes_is_not_routable() {
    assert!(!is_routable_way(&way(1, vec![1], tags(Some("primary")))));
    assert!(!is_routable_way(&way(1, vec![], tags(Some("primary")))));
}

#[test]
fn road_types_from_highway() {
    let cases = [
        (Some("motorway"), RoadType::Motorway),
        (Some("motorway_link"), RoadType::Motorway),
        (Some("trunk_link"), RoadType::Trunk),
        (Some("primary"), RoadType::Primary),
        (Some("secondary_link"), RoadType::Secondary),
        (Some("tertiary"), RoadType::Tertiary),
        (Some("service"), RoadType::Service),
        (Some("residential"), RoadType::Residential),
        (Some("living_street"), RoadType::Residential),
        (Some("unclassified"), RoadType::Unclassified),
        (Some("track"), RoadType::Unclassified),
        (None, RoadType::Unclassified),
    ];
    for (h, expected) in cases {
        assert_eq!(parse_road_type(&tags(h)), expected, "{:?}", h);
    }
}

#[test]
fn oneway_rules() {
    let mut t = tags(Some("primary"));
    for v in ["yes", "1", "true", "-1"] {
        t.oneway = Some(v.to_string());
        assert!(is_oneway(&t, RoadType::Primary), "{}", v);
    }
    for v in ["no", "0", "false"] {
        t.oneway = Some(v.to_string());
        assert!(!is_oneway(&t, RoadType::Motorway), "{}", v);
    }
    t.oneway = None;
    assert!(is_oneway(&t, RoadType::Motorway));
    assert!(!is_oneway(&t, RoadType::Primary));
    t.oneway = Some("reversible".to_string());
    assert!(!is_oneway(&t, RoadType::Trunk));
    assert!(is_oneway(&t, RoadType::Motorway));
}

#[test]
fn toll_rules() {
    let mut t = tags(None);
    assert!(!has_toll(&t));
    for v in ["yes", "true", "1"] {
        t.toll = Some(v.to_string());
        assert!(has_toll(&t), "{}", v);
    }
    for v in ["no", "Yes", ""] {
        t.toll = Some(v.to_string());
        assert!(!has_toll(&t), "{}", v);
    }
}

#[test]
fn way_name_uses_name_tag_or_id() {
    let mut t = tags(Some("primary"));
    assert_eq!(way_name(&way(42, vec![], t.clone())), "way:42");
    assert_eq!(way_name(&way(-7, vec![], t.clone())), "way:-7");
    t.name = Some("Main Street".to_string());
    assert_eq!(way_name(&way(42, vec![], t)), "Main Street");
}

#[test]
fn classify_speed_units() {
    let s = classify_speed("50 km/h");
    assert_eq!((s.unit, s.number.as_str()), (SpeedUnit::KilometresPerHour, "50"));
    let s = classify_speed("70km/h");
    assert_eq!((s.unit, s.number.as_str()), (SpeedUnit::KilometresPerHour, "70"));
    let s = classify_speed("30 mph");
    assert_eq!((s.unit, s.number.as_str()), (SpeedUnit::MilesPerHour, "30"));
    let s = classify_speed("90");
    assert_eq!((s.unit, s.number.as_str()), (SpeedUnit::Unitless, "90"));
    let s = classify_speed("signals");
    assert_eq!((s.unit, s.number.as_str()), (SpeedUnit::Unitless, "signals"));
    let s = classify_speed("km/h");
    assert_eq!((s.unit, s.number.as_str()), (SpeedUnit::KilometresPerHour, ""));
}

#[test]
fn parse_speed_text_normalises_raw_value() {
    let mut t = tags(Some("primary"));
    assert!(parse_speed_text(&t).is_none());
    t.maxspeed = Some("  60 KM/H ".to_string());
    let s = parse_speed_text(&t).unwrap();
    assert_eq!((s.unit, s.number.as_str()), (SpeedUnit::KilometresPerHour, "60"));
    t.maxspeed = Some("25 MPH".to_string());
    let s = parse_speed_text(&t).unwrap();
    assert_eq!((s.unit, s.number.as_str()), (SpeedUnit::MilesPerHour, "25"));
    t.maxspeed = Some(" 100 ".to_string());
    let s = parse_speed_text(&t).unwrap();
    assert_eq!((s.unit, s.number.as_str()), (SpeedUnit::Unitless, "100"));
}

#[test]
fn graph_from_osm_builds_nodes_and_edges() {
    let mut oneway = tags(Some("primary"));
    oneway.oneway = Some("yes".to_string());
    oneway.name = Some("High Street".to_string());
    let mut two_way = tags(Some("residential"));
    two_way.toll = Some("yes".to_string());
    let ways = vec![
        way(100, vec![10, 20, 30], oneway),
        way(200, vec![30, 40], tags(Some("footway"))),
        way(300, vec![20, 50, 99], two_way),
    ];
    // Node 40 is used only by the footway, node 99 is not among the nodes at hand.
    let node_ids = vec![10, 20, 30, 40, 50, 60];
    let built = graph_from_osm(&node_ids, &ways);
    let g = &built.graph;
    let names: Vec<&str> = g.nodes.iter().map(|n| n.name.as_str()).collect();
    assert_eq!(names, vec!["osm:10", "osm:20", "osm:30", "osm:50"]);
    let ends: Vec<(usize, usize)> = g.edges.iter().map(|e| (e.from, e.to)).collect();
    assert_eq!(ends, vec![(0, 1), (1, 2), (1, 3), (3, 1)]);
    assert_eq!(g.edges[0].road_type, RoadType::Primary);
    assert_eq!(g.edges[0].name, "High Street");
    assert!(!g.edges[0].has_toll);
    assert_eq!(g.edges[2].road_type, RoadType::Residential);
    assert_eq!(g.edges[3].name, "way:300");
    assert!(g.edges[3].has_toll);
    assert_eq!(
        built.origins,
        vec![
            EdgeOrigin { way: 0, reversed: false },
            EdgeOrigin { way: 0, reversed: false },
            EdgeOrigin { way: 2, reversed: false },
            EdgeOrigin { way: 2, reversed: true },
        ]
    );
    assert_eq!(g.outgoing_edges(1), &vec![1, 2]);
    assert_eq!(g.outgoing_edges(3), &vec![3]);
}

#[test]
fn graph_from_osm_motorway_defaults_to_oneway() {
    let ways = vec![way(1, vec![1, 2], tags(Some("motorway")))];
    let built = graph_from_osm(&vec![1, 2], &ways);
    assert_eq!(built.graph.edges.len(), 1);
    let ways = vec![way(1, vec![1, 2], tags(Some("trunk")))];
    let built = graph_from_osm(&vec![1, 2], &ways);
    assert_eq!(built.graph.edges.len(), 2);
}

#[test]
fn graph_from_osm_repeated_node_id_maps_to_last_node() {
    let ways = vec![way(1, vec![1, 2], tags(Some("service")))];
    let built = graph_from_osm(&vec![1, 2, 1], &ways);
    assert_eq!(built.graph.nodes.len(), 3);
    let ends: Vec<(usize, usize)> = built.graph.edges.iter().map(|e| (e.from, e.to)).collect();
    assert_eq!(ends, vec![(2, 1), (1, 2)]);
}

#[test]
fn graph_from_osm_with_no_ways_is_empty() {
    let built = graph_from_osm(&vec![1, 2, 3], &vec![]);
    assert!(built.graph.nodes.is_empty());
    assert!(built.graph.edges.is_empty());
    assert!(built.origins.is_empty());
}
