use std::collections::HashMap;
use std::collections::HashSet;

use vstd::prelude::*;

use crate::graph::{RoadEdge, RoadGraph};
use crate::text::{
    decimal_text, lemma_strip_appended_suffix, id_label, lowercase_text, lowercased, spec_strip_suffix, strip_suffix_text,
    text_is, trim_text, trimmed,
};
use crate::types::{NodeId, RoadType};

verus! {

broadcast use vstd::std_specs::hash::group_hash_axioms;

/// The tags of an OpenStreetMap way that routing reads, each present or not.
#[derive(Debug, Clone)]
pub struct WayTags {
    pub highway: Option<String>,
    pub maxspeed: Option<String>,
    pub oneway: Option<String>,
    pub toll: Option<String>,
    pub name: Option<String>,
}

/// An OpenStreetMap way: its id, the ids of its nodes in order, and its tags.
#[derive(Debug, Clone)]
pub struct OsmWay {
    pub id: i64,
    pub nodes: Vec<i64>,
    pub tags: WayTags,
}

/// Unit written after a `maxspeed` value.
#[derive(Debug, Clone, Copy, PartialEq, Eq, Structural)]
pub enum SpeedUnit {
    KilometresPerHour,
    MilesPerHour,
    Unitless,
}

/// A `maxspeed` value split into its number text and its unit.
#[derive(Debug, Clone)]
pub struct SpeedText {
    pub unit: SpeedUnit,
    pub number: String,
}

/// Where an edge of a graph built from OpenStreetMap came from: the position
/// of its way in the input, and whether it runs against the way's direction.
#[derive(Debug, Clone, Copy, PartialEq, Eq, Structural)]
pub struct EdgeOrigin {
    pub way: usize,
    pub reversed: bool,
}

/// A road graph built from OpenStreetMap data, with the OpenStreetMap id of
/// each node and the origin of each edge.
#[derive(Debug, Clone)]
pub struct GraphBuild {
    pub graph: RoadGraph,
    pub osm_nodes: Vec<i64>,
    pub origins: Vec<EdgeOrigin>,
}

/// The tag is present and its value is `value`.
pub open spec fn tag_is(tag: Option<String>, value: Seq<char>) -> bool {
    match tag {
        Some(s) => s@ == value,
        None => false,
    }
}

/// `highway` values of the roads that routing uses.
pub open spec fn routable_highway(h: Seq<char>) -> bool {
    ||| h == "motorway"@
    ||| h == "motorway_link"@
    ||| h == "trunk"@
    ||| h == "trunk_link"@
    ||| h == "primary"@
    ||| h == "primary_link"@
    ||| h == "secondary"@
    ||| h == "secondary_link"@
    ||| h == "tertiary"@
    ||| h == "tertiary_link"@
    ||| h == "residential"@
    ||| h == "living_street"@
    ||| h == "service"@
    ||| h == "unclassified"@
}

/// A way is routable when it has at least two nodes and a routable `highway` tag.
pub open spec fn spec_is_routable_way(way: OsmWay) -> bool {
    &&& way.nodes@.len() >= 2
    &&& match way.tags.highway {
        Some(h) => routable_highway(h@),
        None => false,
    }
}

pub open spec fn spec_road_type(tags: WayTags) -> RoadType {
    let h = tags.highway;
    if tag_is(h, "motorway"@) || tag_is(h, "motorway_link"@) {
        RoadType::Motorway
    } else if tag_is(h, "trunk"@) || tag_is(h, "trunk_link"@) {
        RoadType::Trunk
    } else if tag_is(h, "primary"@) || tag_is(h, "primary_link"@) {
        RoadType::Primary
    } else if tag_is(h, "secondary"@) || tag_is(h, "secondary_link"@) {
        RoadType::Secondary
    } else if tag_is(h, "tertiary"@) || tag_is(h, "tertiary_link"@) {
        RoadType::Tertiary
    } else if tag_is(h, "service"@) {
        RoadType::Service
    } else if tag_is(h, "residential"@) || tag_is(h, "living_street"@) {
        RoadType::Residential
    } else {
        RoadType::Unclassified
    }
}

/// `oneway` of `yes`, `1`, `true` or `-1` makes a way one-way, `no`, `0` or
/// `false` two-way; otherwise only motorways are one-way.
pub open spec fn spec_is_oneway(tags: WayTags, road_type: RoadType) -> bool {
    let o = tags.oneway;
    if tag_is(o, "yes"@) || tag_is(o, "1"@) || tag_is(o, "true"@) {
        true
    } else if tag_is(o, "no"@) || tag_is(o, "0"@) || tag_is(o, "false"@) {
        false
    } else if tag_is(o, "-1"@) {
        true
    } else {
        road_type == RoadType::Motorway
    }
}

/// `toll` of `yes`, `true` or `1`.
pub open spec fn spec_has_toll(tags: WayTags) -> bool {
    let t = tags.toll;
    tag_is(t, "yes"@) || tag_is(t, "true"@) || tag_is(t, "1"@)
}

/// The way's `name` tag, or `way:` followed by its id.
pub open spec fn spec_way_name(way: OsmWay) -> Seq<char> {
    match way.tags.name {
        Some(n) => n@,
        None => "way:"@ + decimal_text(way.id as int),
    }
}

/// The unit and number text of a trimmed, lower-cased `maxspeed` value.
pub open spec fn speed_parts(normalized: Seq<char>) -> (SpeedUnit, Seq<char>) {
    match spec_strip_suffix(normalized, " km/h"@) {
        Some(v) => (SpeedUnit::KilometresPerHour, trimmed(v)),
        None => match spec_strip_suffix(normalized, "km/h"@) {
            Some(v) => (SpeedUnit::KilometresPerHour, trimmed(v)),
            None => match spec_strip_suffix(normalized, "mph"@) {
                Some(v) => (SpeedUnit::MilesPerHour, trimmed(v)),
                None => (SpeedUnit::Unitless, normalized),
            },
        },
    }
}

fn tag_equals(tag: &Option<String>, value: &str) -> (same: bool)
    ensures
        same == tag_is(*tag, value@),
{
    match tag {
        Some(s) => text_is(s.as_str(), value),
        None => false,
    }
}

/// Whether routing uses the way: it has at least two nodes and a `highway`
/// tag of a road class that routing knows.
pub fn is_routable_way(way: &OsmWay) -> (routable: bool)
    ensures
        routable == spec_is_routable_way(*way),
{
    if way.nodes.len() < 2 {
        return false;
    }
    let h = &way.tags.highway;
    tag_equals(h, "motorway")
        || tag_equals(h, "motorway_link")
        || tag_equals(h, "trunk")
        || tag_equals(h, "trunk_link")
        || tag_equals(h, "primary")
        || tag_equals(h, "primary_link")
        || tag_equals(h, "secondary")
        || tag_equals(h, "secondary_link")
        || tag_equals(h, "tertiary")
        || tag_equals(h, "tertiary_link")
        || tag_equals(h, "residential")
        || tag_equals(h, "living_street")
        || tag_equals(h, "service")
        || tag_equals(h, "unclassified")
}

/// The road class given by the `highway` tag; `Unclassified` for any other value.
pub fn parse_road_type(tags: &WayTags) -> (road_type: RoadType)
    ensures
        road_type == spec_road_type(*tags),
{
    let h = &tags.highway;
    if tag_equals(h, "motorway") || tag_equals(h, "motorway_link") {
        RoadType::Motorway
    } else if tag_equals(h, "trunk") || tag_equals(h, "trunk_link") {
        RoadType::Trunk
    } else if tag_equals(h, "primary") || tag_equals(h, "primary_link") {
        RoadType::Primary
    } else if tag_equals(h, "secondary") || tag_equals(h, "secondary_link") {
        RoadType::Secondary
    } else if tag_equals(h, "tertiary") || tag_equals(h, "tertiary_link") {
        RoadType::Tertiary
    } else if tag_equals(h, "service") {
        RoadType::Service
    } else if tag_equals(h, "residential") || tag_equals(h, "living_street") {
        RoadType::Residential
    } else {
        RoadType::Unclassified
    }
}

/// Whether the way may be driven in one direction only.
pub fn is_oneway(tags: &WayTags, road_type: RoadType) -> (oneway: bool)
    ensures
        oneway == spec_is_oneway(*tags, road_type),
{
    let o = &tags.oneway;
    if tag_equals(o, "yes") || tag_equals(o, "1") || tag_equals(o, "true") {
        true
    } else if tag_equals(o, "no") || tag_equals(o, "0") || tag_equals(o, "false") {
        false
    } else if tag_equals(o, "-1") {
        true
    } else {
        road_type == RoadType::Motorway
    }
}

/// Whether the way charges a toll.
pub fn has_toll(tags: &WayTags) -> (toll: bool)
    ensures
        toll == spec_has_toll(*tags),
{
    let t = &tags.toll;
    tag_equals(t, "yes") || tag_equals(t, "true") || tag_equals(t, "1")
}

/// The name given to the edges of the way.
pub fn way_name(way: &OsmWay) -> (name: String)
    ensures
        name@ == spec_way_name(*way),
{
    match &way.tags.name {
        Some(n) => n.clone(),
        None => id_label("way:", way.id),
    }
}

/// Splits a trimmed, lower-cased `maxspeed` value into its number text and unit:
/// a ` km/h` or `km/h` suffix gives km/h, an `mph` suffix mph, and the number
/// text is what precedes the suffix, trimmed; without a suffix the whole
/// value is the number text.
pub fn classify_speed(normalized: &str) -> (speed: SpeedText)
    ensures
        (speed.unit, speed.number@) == speed_parts(normalized@),
{
    match strip_suffix_text(normalized, " km/h") {
        Some(v) => SpeedText { unit: SpeedUnit::KilometresPerHour, number: trim_text(v).to_owned() },
        None => match strip_suffix_text(normalized, "km/h") {
            Some(v) => SpeedText {
                unit: SpeedUnit::KilometresPerHour,
                number: trim_text(v).to_owned(),
            },
            None => match strip_suffix_text(normalized, "mph") {
                Some(v) => SpeedText { unit: SpeedUnit::MilesPerHour, number: trim_text(v).to_owned() },
                None => SpeedText { unit: SpeedUnit::Unitless, number: normalized.to_owned() },
            },
        },
    }
}

/// The `maxspeed` tag, trimmed, lower-cased and split into number text and
/// unit; `None` when the tag is absent.
pub fn parse_speed_text(tags: &WayTags) -> (speed: Option<SpeedText>)
    ensures
        match tags.maxspeed {
            Some(raw) => speed is Some && (speed->0.unit, speed->0.number@) == speed_parts(
                lowercased(trimmed(raw@)),
            ),
            None => speed is None,
        },
{
    match &tags.maxspeed {
        Some(raw) => {
            let normalized = lowercase_text(trim_text(raw.as_str()));
            Some(classify_speed(normalized.as_str()))
        },
        None => None,
    }
}

/// The road class of each `highway` value: `motorway(_link)` is a motorway,
/// `trunk(_link)` a trunk road, `primary(_link)`, `secondary(_link)` and
/// `tertiary(_link)` their classes, `service` a service road,
/// `residential` and `living_street` residential; any other value, or none,
/// is unclassified.
pub proof fn lemma_road_type_table(tags: WayTags)
    ensures
        tag_is(tags.highway, "motorway"@) ==> spec_road_type(tags) == RoadType::Motorway,
        tag_is(tags.highway, "motorway_link"@) ==> spec_road_type(tags) == RoadType::Motorway,
        tag_is(tags.highway, "trunk"@) ==> spec_road_type(tags) == RoadType::Trunk,
        tag_is(tags.highway, "trunk_link"@) ==> spec_road_type(tags) == RoadType::Trunk,
        tag_is(tags.highway, "primary"@) ==> spec_road_type(tags) == RoadType::Primary,
        tag_is(tags.highway, "primary_link"@) ==> spec_road_type(tags) == RoadType::Primary,
        tag_is(tags.highway, "secondary"@) ==> spec_road_type(tags) == RoadType::Secondary,
        tag_is(tags.highway, "secondary_link"@) ==> spec_road_type(tags) == RoadType::Secondary,
        tag_is(tags.highway, "tertiary"@) ==> spec_road_type(tags) == RoadType::Tertiary,
        tag_is(tags.highway, "tertiary_link"@) ==> spec_road_type(tags) == RoadType::Tertiary,
        tag_is(tags.highway, "service"@) ==> spec_road_type(tags) == RoadType::Service,
        tag_is(tags.highway, "residential"@) ==> spec_road_type(tags) == RoadType::Residential,
        tag_is(tags.highway, "living_street"@) ==> spec_road_type(tags) == RoadType::Residential,
        (!tag_is(tags.highway, "motorway"@) && !tag_is(tags.highway, "motorway_link"@) && !tag_is(tags.highway, "trunk"@) && !tag_is(tags.highway, "trunk_link"@) && !tag_is(tags.highway, "primary"@) && !tag_is(tags.highway, "primary_link"@) && !tag_is(tags.highway, "secondary"@) && !tag_is(tags.highway, "secondary_link"@) && !tag_is(tags.highway, "tertiary"@) && !tag_is(tags.highway, "tertiary_link"@) && !tag_is(tags.highway, "service"@) && !tag_is(tags.highway, "residential"@) && !tag_is(tags.highway, "living_street"@)) ==> spec_road_type(tags) == RoadType::Unclassified,
{
        reveal_strlit("motorway");
        reveal_strlit("motorway_link");
        reveal_strlit("trunk");
        reveal_strlit("trunk_link");
        reveal_strlit("primary");
        reveal_strlit("primary_link");
        reveal_strlit("secondary");
        reveal_strlit("secondary_link");
        reveal_strlit("tertiary");
        reveal_strlit("tertiary_link");
        reveal_strlit("residential");
        reveal_strlit("living_street");
        reveal_strlit("service");
        reveal_strlit("unclassified");
    assert("motorway"@ != "motorway_link"@) by {
        assert("motorway"@.len() != "motorway_link"@.len());
    }
    assert("motorway"@ != "trunk"@) by {
        assert("motorway"@.len() != "trunk"@.len());
    }
    assert("motorway"@ != "trunk_link"@) by {
        assert("motorway"@.len() != "trunk_link"@.len());
    }
    assert("motorway"@ != "primary"@) by {
        assert("motorway"@.len() != "primary"@.len());
    }
    assert("motorway"@ != "primary_link"@) by {
        assert("motorway"@.len() != "primary_link"@.len());
    }
    assert("motorway"@ != "secondary"@) by {
        assert("motorway"@.len() != "secondary"@.len());
    }
    assert("motorway"@ != "secondary_link"@) by {
        assert("motorway"@.len() != "secondary_link"@.len());
    }
    assert("motorway"@ != "tertiary"@) by {
        assert("motorway"@[0] != "tertiary"@[0]);
    }
    assert("motorway"@ != "tertiary_link"@) by {
        assert("motorway"@.len() != "tertiary_link"@.len());
    }
    assert("motorway"@ != "residential"@) by {
        assert("motorway"@.len() != "residential"@.len());
    }
    assert("motorway"@ != "living_street"@) by {
        assert("motorway"@.len() != "living_street"@.len());
    }
    assert("motorway"@ != "service"@) by {
        assert("motorway"@.len() != "service"@.len());
    }
    assert("motorway"@ != "unclassified"@) by {
        assert("motorway"@.len() != "unclassified"@.len());
    }
    assert("motorway_link"@ != "trunk"@) by {
        assert("motorway_link"@.len() != "trunk"@.len());
    }
    assert("motorway_link"@ != "trunk_link"@) by {
        assert("motorway_link"@.len() != "trunk_link"@.len());
    }
    assert("motorway_link"@ != "primary"@) by {
        assert("motorway_link"@.len() != "primary"@.len());
    }
    assert("motorway_link"@ != "primary_link"@) by {
        assert("motorway_link"@.len() != "primary_link"@.len());
    }
    assert("motorway_link"@ != "secondary"@) by {
        assert("motorway_link"@.len() != "secondary"@.len());
    }
    assert("motorway_link"@ != "secondary_link"@) by {
        assert("motorway_link"@.len() != "secondary_link"@.len());
    }
    assert("motorway_link"@ != "tertiary"@) by {
        assert("motorway_link"@.len() != "tertiary"@.len());
    }
    assert("motorway_link"@ != "tertiary_link"@) by {
        assert("motorway_link"@[0] != "tertiary_link"@[0]);
    }
    assert("motorway_link"@ != "residential"@) by {
        assert("motorway_link"@.len() != "residential"@.len());
    }
    assert("motorway_link"@ != "living_street"@) by {
        assert("motorway_link"@[0] != "living_street"@[0]);
    }
    assert("motorway_link"@ != "service"@) by {
        assert("motorway_link"@.len() != "service"@.len());
    }
    assert("motorway_link"@ != "unclassified"@) by {
        assert("motorway_link"@.len() != "unclassified"@.len());
    }
    assert("trunk"@ != "trunk_link"@) by {
        assert("trunk"@.len() != "trunk_link"@.len());
    }
    assert("trunk"@ != "primary"@) by {
        assert("trunk"@.len() != "primary"@.len());
    }
    assert("trunk"@ != "primary_link"@) by {
        assert("trunk"@.len() != "primary_link"@.len());
    }
    assert("trunk"@ != "secondary"@) by {
        assert("trunk"@.len() != "secondary"@.len());
    }
    assert("trunk"@ != "secondary_link"@) by {
        assert("trunk"@.len() != "secondary_link"@.len());
    }
    assert("trunk"@ != "tertiary"@) by {
        assert("trunk"@.len() != "tertiary"@.len());
    }
    assert("trunk"@ != "tertiary_link"@) by {
        assert("trunk"@.len() != "tertiary_link"@.len());
    }
    assert("trunk"@ != "residential"@) by {
        assert("trunk"@.len() != "residential"@.len());
    }
    assert("trunk"@ != "living_street"@) by {
        assert("trunk"@.len() != "living_street"@.len());
    }
    assert("trunk"@ != "service"@) by {
        assert("trunk"@.len() != "service"@.len());
    }
    assert("trunk"@ != "unclassified"@) by {
        assert("trunk"@.len() != "unclassified"@.len());
    }
    assert("trunk_link"@ != "primary"@) by {
        assert("trunk_link"@.len() != "primary"@.len());
    }
    assert("trunk_link"@ != "primary_link"@) by {
        assert("trunk_link"@.len() != "primary_link"@.len());
    }
    assert("trunk_link"@ != "secondary"@) by {
        assert("trunk_link"@.len() != "secondary"@.len());
    }
    assert("trunk_link"@ != "secondary_link"@) by {
        assert("trunk_link"@.len() != "secondary_link"@.len());
    }
    assert("trunk_link"@ != "tertiary"@) by {
        assert("trunk_link"@.len() != "tertiary"@.len());
    }
    assert("trunk_link"@ != "tertiary_link"@) by {
        assert("trunk_link"@.len() != "tertiary_link"@.len());
    }
    assert("trunk_link"@ != "residential"@) by {
        assert("trunk_link"@.len() != "residential"@.len());
    }
    assert("trunk_link"@ != "living_street"@) by {
        assert("trunk_link"@.len() != "living_street"@.len());
    }
    assert("trunk_link"@ != "service"@) by {
        assert("trunk_link"@.len() != "service"@.len());
    }
    assert("trunk_link"@ != "unclassified"@) by {
        assert("trunk_link"@.len() != "unclassified"@.len());
    }
    assert("primary"@ != "primary_link"@) by {
        assert("primary"@.len() != "primary_link"@.len());
    }
    assert("primary"@ != "secondary"@) by {
        assert("primary"@.len() != "secondary"@.len());
    }
    assert("primary"@ != "secondary_link"@) by {
        assert("primary"@.len() != "secondary_link"@.len());
    }
    assert("primary"@ != "tertiary"@) by {
        assert("primary"@.len() != "tertiary"@.len());
    }
    assert("primary"@ != "tertiary_link"@) by {
        assert("primary"@.len() != "tertiary_link"@.len());
    }
    assert("primary"@ != "residential"@) by {
        assert("primary"@.len() != "residential"@.len());
    }
    assert("primary"@ != "living_street"@) by {
        assert("primary"@.len() != "living_street"@.len());
    }
    assert("primary"@ != "service"@) by {
        assert("primary"@[0] != "service"@[0]);
    }
    assert("primary"@ != "unclassified"@) by {
        assert("primary"@.len() != "unclassified"@.len());
    }
    assert("primary_link"@ != "secondary"@) by {
        assert("primary_link"@.len() != "secondary"@.len());
    }
    assert("primary_link"@ != "secondary_link"@) by {
        assert("primary_link"@.len() != "secondary_link"@.len());
    }
    assert("primary_link"@ != "tertiary"@) by {
        assert("primary_link"@.len() != "tertiary"@.len());
    }
    assert("primary_link"@ != "tertiary_link"@) by {
        assert("primary_link"@.len() != "tertiary_link"@.len());
    }
    assert("primary_link"@ != "residential"@) by {
        assert("primary_link"@.len() != "residential"@.len());
    }
    assert("primary_link"@ != "living_street"@) by {
        assert("primary_link"@.len() != "living_street"@.len());
    }
    assert("primary_link"@ != "service"@) by {
        assert("primary_link"@.len() != "service"@.len());
    }
    assert("primary_link"@ != "unclassified"@) by {
        assert("primary_link"@[0] != "unclassified"@[0]);
    }
    assert("secondary"@ != "secondary_link"@) by {
        assert("secondary"@.len() != "secondary_link"@.len());
    }
    assert("secondary"@ != "tertiary"@) by {
        assert("secondary"@.len() != "tertiary"@.len());
    }
    assert("secondary"@ != "tertiary_link"@) by {
        assert("secondary"@.len() != "tertiary_link"@.len());
    }
    assert("secondary"@ != "residential"@) by {
        assert("secondary"@.len() != "residential"@.len());
    }
    assert("secondary"@ != "living_street"@) by {
        assert("secondary"@.len() != "living_street"@.len());
    }
    assert("secondary"@ != "service"@) by {
        assert("secondary"@.len() != "service"@.len());
    }
    assert("secondary"@ != "unclassified"@) by {
        assert("secondary"@.len() != "unclassified"@.len());
    }
    assert("secondary_link"@ != "tertiary"@) by {
        assert("secondary_link"@.len() != "tertiary"@.len());
    }
    assert("secondary_link"@ != "tertiary_link"@) by {
        assert("secondary_link"@.len() != "tertiary_link"@.len());
    }
    assert("secondary_link"@ != "residential"@) by {
        assert("secondary_link"@.len() != "residential"@.len());
    }
    assert("secondary_link"@ != "living_street"@) by {
        assert("secondary_link"@.len() != "living_street"@.len());
    }
    assert("secondary_link"@ != "service"@) by {
        assert("secondary_link"@.len() != "service"@.len());
    }
    assert("secondary_link"@ != "unclassified"@) by {
        assert("secondary_link"@.len() != "unclassified"@.len());
    }
    assert("tertiary"@ != "tertiary_link"@) by {
        assert("tertiary"@.len() != "tertiary_link"@.len());
    }
    assert("tertiary"@ != "residential"@) by {
        assert("tertiary"@.len() != "residential"@.len());
    }
    assert("tertiary"@ != "living_street"@) by {
        assert("tertiary"@.len() != "living_street"@.len());
    }
    assert("tertiary"@ != "service"@) by {
        assert("tertiary"@.len() != "service"@.len());
    }
    assert("tertiary"@ != "unclassified"@) by {
        assert("tertiary"@.len() != "unclassified"@.len());
    }
    assert("tertiary_link"@ != "residential"@) by {
        assert("tertiary_link"@.len() != "residential"@.len());
    }
    assert("tertiary_link"@ != "living_street"@) by {
        assert("tertiary_link"@[0] != "living_street"@[0]);
    }
    assert("tertiary_link"@ != "service"@) by {
        assert("tertiary_link"@.len() != "service"@.len());
    }
    assert("tertiary_link"@ != "unclassified"@) by {
        assert("tertiary_link"@.len() != "unclassified"@.len());
    }
    assert("residential"@ != "living_street"@) by {
        assert("residential"@.len() != "living_street"@.len());
    }
    assert("residential"@ != "service"@) by {
        assert("residential"@.len() != "service"@.len());
    }
    assert("residential"@ != "unclassified"@) by {
        assert("residential"@.len() != "unclassified"@.len());
    }
    assert("living_street"@ != "service"@) by {
        assert("living_street"@.len() != "service"@.len());
    }
    assert("living_street"@ != "unclassified"@) by {
        assert("living_street"@.len() != "unclassified"@.len());
    }
    assert("service"@ != "unclassified"@) by {
        assert("service"@.len() != "unclassified"@.len());
    }
}

/// The routable ways are exactly those with two or more nodes whose
/// `highway` value is one of motorway, motorway_link, trunk, trunk_link,
/// primary, primary_link, secondary, secondary_link, tertiary,
/// tertiary_link, residential, living_street, service or unclassified.
pub proof fn lemma_routable_highways(way: OsmWay)
    ensures
        spec_is_routable_way(way) <==> way.nodes@.len() >= 2 && (
            tag_is(way.tags.highway, "motorway"@)
            || tag_is(way.tags.highway, "motorway_link"@)
            || tag_is(way.tags.highway, "trunk"@)
            || tag_is(way.tags.highway, "trunk_link"@)
            || tag_is(way.tags.highway, "primary"@)
            || tag_is(way.tags.highway, "primary_link"@)
            || tag_is(way.tags.highway, "secondary"@)
            || tag_is(way.tags.highway, "secondary_link"@)
            || tag_is(way.tags.highway, "tertiary"@)
            || tag_is(way.tags.highway, "tertiary_link"@)
            || tag_is(way.tags.highway, "residential"@)
            || tag_is(way.tags.highway, "living_street"@)
            || tag_is(way.tags.highway, "service"@)
            || tag_is(way.tags.highway, "unclassified"@)),
{
}

/// The `oneway` values: `yes`, `1`, `true` and `-1` make a way one-way, `no`,
/// `0` and `false` two-way; without the tag, or with any other value, a way
/// is one-way exactly when it is a motorway.
pub proof fn lemma_oneway_rules(tags: WayTags, road_type: RoadType)
    ensures
        tag_is(tags.oneway, "yes"@) || tag_is(tags.oneway, "1"@) || tag_is(tags.oneway, "true"@)
            || tag_is(tags.oneway, "-1"@) ==> spec_is_oneway(tags, road_type),
        tag_is(tags.oneway, "no"@) || tag_is(tags.oneway, "0"@) || tag_is(tags.oneway, "false"@)
            ==> !spec_is_oneway(tags, road_type),
        tags.oneway is None ==> (spec_is_oneway(tags, road_type) <==> road_type
            == RoadType::Motorway),
        !(tag_is(tags.oneway, "yes"@) || tag_is(tags.oneway, "1"@) || tag_is(tags.oneway, "true"@)
            || tag_is(tags.oneway, "-1"@) || tag_is(tags.oneway, "no"@) || tag_is(tags.oneway, "0"@)
            || tag_is(tags.oneway, "false"@)) ==> (spec_is_oneway(tags, road_type) <==> road_type
            == RoadType::Motorway),
{
        reveal_strlit("yes");
        reveal_strlit("1");
        reveal_strlit("true");
        reveal_strlit("-1");
        reveal_strlit("no");
        reveal_strlit("0");
        reveal_strlit("false");
    assert("yes"@ != "1"@) by {
        assert("yes"@.len() != "1"@.len());
    }
    assert("yes"@ != "true"@) by {
        assert("yes"@.len() != "true"@.len());
    }
    assert("yes"@ != "-1"@) by {
        assert("yes"@.len() != "-1"@.len());
    }
    assert("yes"@ != "no"@) by {
        assert("yes"@.len() != "no"@.len());
    }
    assert("yes"@ != "0"@) by {
        assert("yes"@.len() != "0"@.len());
    }
    assert("yes"@ != "false"@) by {
        assert("yes"@.len() != "false"@.len());
    }
    assert("1"@ != "true"@) by {
        assert("1"@.len() != "true"@.len());
    }
    assert("1"@ != "-1"@) by {
        assert("1"@.len() != "-1"@.len());
    }
    assert("1"@ != "no"@) by {
        assert("1"@.len() != "no"@.len());
    }
    assert("1"@ != "0"@) by {
        assert("1"@[0] != "0"@[0]);
    }
    assert("1"@ != "false"@) by {
        assert("1"@.len() != "false"@.len());
    }
    assert("true"@ != "-1"@) by {
        assert("true"@.len() != "-1"@.len());
    }
    assert("true"@ != "no"@) by {
        assert("true"@.len() != "no"@.len());
    }
    assert("true"@ != "0"@) by {
        assert("true"@.len() != "0"@.len());
    }
    assert("true"@ != "false"@) by {
        assert("true"@.len() != "false"@.len());
    }
    assert("-1"@ != "no"@) by {
        assert("-1"@[0] != "no"@[0]);
    }
    assert("-1"@ != "0"@) by {
        assert("-1"@.len() != "0"@.len());
    }
    assert("-1"@ != "false"@) by {
        assert("-1"@.len() != "false"@.len());
    }
    assert("no"@ != "0"@) by {
        assert("no"@.len() != "0"@.len());
    }
    assert("no"@ != "false"@) by {
        assert("no"@.len() != "false"@.len());
    }
    assert("0"@ != "false"@) by {
        assert("0"@.len() != "false"@.len());
    }
}

/// A way charges a toll exactly when its `toll` value is `yes`, `true` or `1`.
pub proof fn lemma_toll_rules(tags: WayTags)
    ensures
        spec_has_toll(tags) <==> (tags.toll is Some && (tags.toll->0@ == "yes"@ || tags.toll->0@
            == "true"@ || tags.toll->0@ == "1"@)),
{
}

/// A way is named by its `name` tag, and otherwise by `way:` and its id.
pub proof fn lemma_way_name_rules(way: OsmWay)
    ensures
        way.tags.name is Some ==> spec_way_name(way) == way.tags.name->0@,
        way.tags.name is None ==> spec_way_name(way) == "way:"@ + decimal_text(way.id as int),
{
}

/// A speed written with ` km/h` is in km/h, its number being what precedes
/// the unit, trimmed; one written with `km/h` is in km/h too; one written
/// with `mph` is in mph, its number what precedes the unit, trimmed; a value
/// ending in neither unit is a bare number, kept whole.
pub proof fn lemma_speed_units(number: Seq<char>, normalized: Seq<char>)
    ensures
        speed_parts(number + " km/h"@) == (SpeedUnit::KilometresPerHour, trimmed(number)),
        speed_parts(number + "km/h"@).0 == SpeedUnit::KilometresPerHour,
        (number.len() == 0 || number.last() != ' ') ==> speed_parts(number + "km/h"@) == (
            SpeedUnit::KilometresPerHour,
            trimmed(number),
        ),
        speed_parts(number + "mph"@) == (SpeedUnit::MilesPerHour, trimmed(number)),
        !(normalized.len() >= 4 && normalized.subrange(normalized.len() - 4, normalized.len() as int)
            == "km/h"@) && !(normalized.len() >= 3 && normalized.subrange(
            normalized.len() - 3,
            normalized.len() as int,
        ) == "mph"@) ==> speed_parts(normalized) == (SpeedUnit::Unitless, normalized),
{
    reveal_strlit(" km/h");
    reveal_strlit("km/h");
    reveal_strlit("mph");
    lemma_strip_appended_suffix(number, " km/h"@);
    lemma_strip_appended_suffix(number, "mph"@);
    let k = number + "km/h"@;
    lemma_strip_appended_suffix(number, "km/h"@);
    if number.len() == 0 || number.last() != ' ' {
        if k.len() >= 5 && k.subrange(k.len() - 5, k.len() as int) == " km/h"@ {
            assert(k.subrange(k.len() - 5, k.len() as int)[0] == k[k.len() - 5]);
            assert(k[k.len() - 5] == number.last());
        }
    }
    let m = number + "mph"@;
    assert(m[m.len() - 2] == 'p');
    if m.len() >= 5 && m.subrange(m.len() - 5, m.len() as int) == " km/h"@ {
        assert(m.subrange(m.len() - 5, m.len() as int)[3] == m[m.len() - 2]);
    }
    if m.len() >= 4 && m.subrange(m.len() - 4, m.len() as int) == "km/h"@ {
        assert(m.subrange(m.len() - 4, m.len() as int)[2] == m[m.len() - 2]);
    }
    let n = normalized;
    if n.len() >= 5 && n.subrange(n.len() - 5, n.len() as int) == " km/h"@ {
        assert forall|j: int| 0 <= j < 4 implies n.subrange(n.len() - 4, n.len() as int)[j]
            == "km/h"@[j] by {
            assert(n.subrange(n.len() - 5, n.len() as int)[j + 1] == n[n.len() - 4 + j]);
            assert(" km/h"@[j + 1] == "km/h"@[j]);
        }
        assert(n.subrange(n.len() - 4, n.len() as int) =~= "km/h"@);
    }
}

/// The set of ids in `ids`.
pub open spec fn id_set(ids: Seq<i64>) -> Set<i64>
    decreases ids.len(),
{
    if ids.len() == 0 {
        Set::empty()
    } else {
        id_set(ids.drop_last()).insert(ids.last())
    }
}

/// The ids of the nodes that the routable ways among `ways` pass through.
pub open spec fn used_node_ids(ways: Seq<OsmWay>) -> Set<i64>
    decreases ways.len(),
{
    if ways.len() == 0 {
        Set::empty()
    } else {
        let rest = used_node_ids(ways.drop_last());
        if spec_is_routable_way(ways.last()) {
            rest.union(id_set(ways.last().nodes@))
        } else {
            rest
        }
    }
}

/// The ids in `ids` that belong to `used`, in order.
pub open spec fn kept_ids(ids: Seq<i64>, used: Set<i64>) -> Seq<i64>
    decreases ids.len(),
{
    if ids.len() == 0 {
        Seq::empty()
    } else {
        let rest = kept_ids(ids.drop_last(), used);
        if used.contains(ids.last()) {
            rest.push(ids.last())
        } else {
            rest
        }
    }
}

/// The graph node of OpenStreetMap node `x`: its last position in `kept`.
pub open spec fn graph_index(kept: Seq<i64>, x: i64) -> Option<int>
    decreases kept.len(),
{
    if kept.len() == 0 {
        None
    } else if kept.last() == x {
        Some(kept.len() - 1)
    } else {
        graph_index(kept.drop_last(), x)
    }
}

/// An edge that building a graph adds, as it is determined by the input.
pub struct PlannedEdge {
    pub from: int,
    pub to: int,
    pub road_type: RoadType,
    pub has_toll: bool,
    pub name: Seq<char>,
    pub way: int,
    pub reversed: bool,
}

/// The edges for the segment from node `k` to node `k + 1` of way `wi`: none
/// when an end is not a graph node, else the forward edge, followed by the
/// backward edge unless the way is one-way.
pub open spec fn segment_edges(kept: Seq<i64>, way: OsmWay, wi: int, k: int) -> Seq<PlannedEdge> {
    let a = graph_index(kept, way.nodes@[k]);
    let b = graph_index(kept, way.nodes@[k + 1]);
    let road_type = spec_road_type(way.tags);
    let has_toll = spec_has_toll(way.tags);
    let name = spec_way_name(way);
    if a is Some && b is Some {
        let forward = PlannedEdge {
            from: a->0,
            to: b->0,
            road_type,
            has_toll,
            name,
            way: wi,
            reversed: false,
        };
        let backward = PlannedEdge {
            from: b->0,
            to: a->0,
            road_type,
            has_toll,
            name,
            way: wi,
            reversed: true,
        };
        if spec_is_oneway(way.tags, road_type) {
            seq![forward]
        } else {
            seq![forward, backward]
        }
    } else {
        Seq::empty()
    }
}

/// The edges for the first `k` segments of way `wi`.
pub open spec fn way_edges(kept: Seq<i64>, way: OsmWay, wi: int, k: nat) -> Seq<PlannedEdge>
    decreases k,
{
    if k == 0 {
        Seq::empty()
    } else {
        way_edges(kept, way, wi, (k - 1) as nat) + segment_edges(kept, way, wi, k - 1)
    }
}

/// The edges for all routable ways among `ways`, way by way.
pub open spec fn planned_edges(kept: Seq<i64>, ways: Seq<OsmWay>) -> Seq<PlannedEdge>
    decreases ways.len(),
{
    if ways.len() == 0 {
        Seq::empty()
    } else {
        let rest = planned_edges(kept, ways.drop_last());
        let w = ways.last();
        if spec_is_routable_way(w) {
            rest + way_edges(kept, w, ways.len() - 1, (w.nodes@.len() - 1) as nat)
        } else {
            rest
        }
    }
}

/// The built edge and its origin are the planned edge.
pub open spec fn edge_as_planned(edge: RoadEdge, origin: EdgeOrigin, plan: PlannedEdge) -> bool {
    &&& edge.from == plan.from
    &&& edge.to == plan.to
    &&& edge.road_type == plan.road_type
    &&& edge.has_toll == plan.has_toll
    &&& edge.name@ == plan.name
    &&& !edge.is_blocked
    &&& origin.way == plan.way
    &&& origin.reversed == plan.reversed
}

pub open spec fn edges_as_planned(
    edges: Seq<RoadEdge>,
    origins: Seq<EdgeOrigin>,
    plan: Seq<PlannedEdge>,
) -> bool {
    &&& edges.len() == plan.len()
    &&& origins.len() == plan.len()
    &&& forall|j: int|
        0 <= j < plan.len() ==> edge_as_planned(#[trigger] edges[j], origins[j], plan[j])
}

/// An OpenStreetMap node maps to a graph node exactly when it is among the
/// graph's nodes, and then to the last graph node that is it.
pub proof fn lemma_graph_index(kept: Seq<i64>, x: i64)
    ensures
        graph_index(kept, x) is Some <==> kept.contains(x),
        graph_index(kept, x) is Some ==> 0 <= graph_index(kept, x)->0 < kept.len() && kept[graph_index(
            kept,
            x,
        )->0] == x,
        graph_index(kept, x) is Some ==> forall|j: int|
            graph_index(kept, x)->0 < j < kept.len() ==> kept[j] != x,
    decreases kept.len(),
{
    if kept.len() > 0 {
        let rest = kept.drop_last();
        lemma_graph_index(rest, x);
        if rest.contains(x) {
            let j = choose|j: int| 0 <= j < rest.len() && rest[j] == x;
            assert(kept[j] == x);
        }
        if kept.contains(x) && kept.last() != x {
            let j = choose|j: int| 0 <= j < kept.len() && kept[j] == x;
            assert(rest[j] == x);
        }
        if graph_index(kept, x) is Some && kept.last() != x {
            assert forall|j: int| graph_index(kept, x)->0 < j < kept.len() implies kept[j] != x by {
                if j < rest.len() {
                    assert(rest[j] == kept[j]);
                }
            }
        }
    }
}

/// The graph's nodes are the nodes at hand that are in `used`, in the order
/// they come.
pub proof fn lemma_kept_ids_filter(ids: Seq<i64>, used: Set<i64>)
    ensures
        kept_ids(ids, used) == ids.filter(|x: i64| used.contains(x)),
    decreases ids.len(),
{
    reveal_with_fuel(Seq::filter, 1);
    if ids.len() > 0 {
        lemma_kept_ids_filter(ids.drop_last(), used);
    }
}

proof fn lemma_kept_len(ids: Seq<i64>, used: Set<i64>)
    ensures
        kept_ids(ids, used).len() <= ids.len(),
    decreases ids.len(),
{
    if ids.len() > 0 {
        lemma_kept_len(ids.drop_last(), used);
    }
}

/// Builds the road graph of the routable ways. `node_ids` are the ids of the
/// OpenStreetMap nodes at hand, in order; the graph has one node for each of
/// those that a routable way passes through, named `osm:` and its id, in the
/// same order. Each segment of a routable way whose two ends are graph nodes
/// becomes an edge in the way's direction and, unless the way is one-way,
/// one against it.
pub fn graph_from_osm(node_ids: &Vec<i64>, ways: &Vec<OsmWay>) -> (built: GraphBuild)
    ensures
        built.graph.well_formed(),
        ({
            let kept = kept_ids(node_ids@, used_node_ids(ways@));
            &&& built.graph.nodes@.len() == kept.len()
            &&& built.osm_nodes@ == kept
            &&& forall|i: int|
                0 <= i < kept.len() ==> (#[trigger] built.graph.nodes@[i]).name@ == "osm:"@
                    + decimal_text(kept[i] as int)
            &&& edges_as_planned(
                built.graph.edges@,
                built.origins@,
                planned_edges(kept, ways@),
            )
        }),
        forall|j: int|
            0 <= j < built.graph.edges@.len() ==> (#[trigger] built.graph.edges@[j]).to
                < built.graph.nodes@.len(),
{
    // The nodes that routable ways pass through.
    let mut used: HashSet<i64> = HashSet::new();
    let mut i: usize = 0;
    while i < ways.len()
        invariant
            i <= ways@.len(),
            used@ == used_node_ids(ways@.take(i as int)),
        decreases ways@.len() - i,
    {
        let way = &ways[i];
        assert(ways@.take(i + 1).drop_last() == ways@.take(i as int));
        if is_routable_way(way) {
            let mut k: usize = 0;
            while k < way.nodes.len()
                invariant
                    i < ways@.len(),
                    way == ways@[i as int],
                    k <= way.nodes@.len(),
                    used@ == used_node_ids(ways@.take(i as int)).union(
                        id_set(way.nodes@.take(k as int)),
                    ),
                decreases way.nodes@.len() - k,
            {
                assert(way.nodes@.take(k + 1).drop_last() == way.nodes@.take(k as int));
                used.insert(way.nodes[k]);
                assert(used@ == used_node_ids(ways@.take(i as int)).union(
                    id_set(way.nodes@.take(k + 1)),
                ));
                k = k + 1;
            }
            assert(way.nodes@.take(way.nodes@.len() as int) == way.nodes@);
        }
        i = i + 1;
    }
    assert(ways@.take(ways@.len() as int) == ways@);
    let ghost used_ids = used_node_ids(ways@);

    // One graph node per used node, in input order.
    let mut graph = RoadGraph::new();
    let mut to_graph: HashMap<i64, NodeId> = HashMap::new();
    let mut osm_nodes: Vec<i64> = Vec::new();
    let mut j: usize = 0;
    while j < node_ids.len()
        invariant
            j <= node_ids@.len(),
            used@ == used_ids,
            graph.well_formed(),
            graph.edges@.len() == 0,
            ({
                let kept = kept_ids(node_ids@.take(j as int), used_ids);
                &&& graph.nodes@.len() == kept.len()
                &&& osm_nodes@ == kept
                &&& forall|n: int|
                    0 <= n < kept.len() ==> (#[trigger] graph.nodes@[n]).name@ == "osm:"@
                        + decimal_text(kept[n] as int)
                &&& forall|x: i64|
                    #![trigger to_graph@.contains_key(x)]
                    (to_graph@.contains_key(x) <==> graph_index(kept, x) is Some) && (
                    to_graph@.contains_key(x) ==> to_graph@[x] == graph_index(kept, x)->0)
            }),
        decreases node_ids@.len() - j,
    {
        let x = node_ids[j];
        let ghost kept0 = kept_ids(node_ids@.take(j as int), used_ids);
        assert(node_ids@.take(j + 1).drop_last() == node_ids@.take(j as int));
        assert(node_ids@.take(j + 1).last() == x);
        proof {
            lemma_kept_len(node_ids@.take(j as int), used_ids);
        }
        if used.contains(&x) {
            let label = id_label("osm:", x);
            let ghost nodes0 = graph.nodes@;
            let id = graph.add_node(label);
            to_graph.insert(x, id);
            osm_nodes.push(x);
            let ghost kept1 = kept0.push(x);
            assert(kept1.drop_last() == kept0);
            assert forall|n: int| 0 <= n < kept1.len() implies (#[trigger] graph.nodes@[n]).name@
                == "osm:"@ + decimal_text(kept1[n] as int) by {
                if n < kept0.len() {
                    assert(graph.nodes@[n] == nodes0[n]);
                }
            }
        }
        j = j + 1;
    }
    assert(node_ids@.take(node_ids@.len() as int) == node_ids@);
    let ghost kept = kept_ids(node_ids@, used_ids);

    // The edges of each routable way, segment by segment.
    let mut origins: Vec<EdgeOrigin> = Vec::new();
    let mut i: usize = 0;
    while i < ways.len()
        invariant
            i <= ways@.len(),
            graph.well_formed(),
            graph.nodes@.len() == kept.len(),
            osm_nodes@ == kept,
            kept == kept_ids(node_ids@, used_node_ids(ways@)),
            forall|n: int|
                0 <= n < kept.len() ==> (#[trigger] graph.nodes@[n]).name@ == "osm:"@
                    + decimal_text(kept[n] as int),
            forall|x: i64|
                #![trigger to_graph@.contains_key(x)]
                (to_graph@.contains_key(x) <==> graph_index(kept, x) is Some) && (
                to_graph@.contains_key(x) ==> to_graph@[x] == graph_index(kept, x)->0),
            edges_as_planned(graph.edges@, origins@, planned_edges(kept, ways@.take(i as int))),
            forall|e: int|
                0 <= e < graph.edges@.len() ==> (#[trigger] graph.edges@[e]).to < graph.nodes@.len(),
        decreases ways@.len() - i,
    {
        let way = &ways[i];
        assert(ways@.take(i + 1).drop_last() == ways@.take(i as int));
        assert(ways@.take(i + 1).last() == *way);
        let ghost before = planned_edges(kept, ways@.take(i as int));
        if is_routable_way(way) {
            let road_type = parse_road_type(&way.tags);
            let toll = has_toll(&way.tags);
            let name = way_name(way);
            let oneway = is_oneway(&way.tags, road_type);
            let last = way.nodes.len() - 1;
            let mut k: usize = 0;
            while k < last
                invariant
                    i < ways@.len(),
                    way == ways@[i as int],
                    last == way.nodes@.len() - 1,
                    k <= last,
                    road_type == spec_road_type(way.tags),
                    toll == spec_has_toll(way.tags),
                    name@ == spec_way_name(*way),
                    oneway == spec_is_oneway(way.tags, road_type),
                    graph.well_formed(),
                    graph.nodes@.len() == kept.len(),
                    forall|n: int|
                        0 <= n < kept.len() ==> (#[trigger] graph.nodes@[n]).name@ == "osm:"@
                            + decimal_text(kept[n] as int),
                    forall|x: i64|
                        #![trigger to_graph@.contains_key(x)]
                        (to_graph@.contains_key(x) <==> graph_index(kept, x) is Some) && (
                        to_graph@.contains_key(x) ==> to_graph@[x] == graph_index(kept, x)->0),
                    edges_as_planned(
                        graph.edges@,
                        origins@,
                        before + way_edges(kept, *way, i as int, k as nat),
                    ),
                    forall|e: int|
                        0 <= e < graph.edges@.len() ==> (#[trigger] graph.edges@[e]).to
                            < graph.nodes@.len(),
                decreases last - k,
            {
                let ghost plan0 = before + way_edges(kept, *way, i as int, k as nat);
                let ghost seg = segment_edges(kept, *way, i as int, k as int);
                assert(before + way_edges(kept, *way, i as int, (k + 1) as nat) == plan0 + seg);
                let a_id = way.nodes[k];
                let b_id = way.nodes[k + 1];
                let a = to_graph.get(&a_id);
                let b = to_graph.get(&b_id);
                proof {
                    lemma_graph_index(kept, a_id);
                    lemma_graph_index(kept, b_id);
                }
                match (a, b) {
                    (Some(from), Some(to)) => {
                        let from = *from;
                        let to = *to;
                        assert(to_graph@.contains_key(a_id) && to_graph@.contains_key(b_id));
                        graph.add_directed_edge(from, to, road_type, toll, name.clone());
                        origins.push(EdgeOrigin { way: i, reversed: false });
                        if !oneway {
                            graph.add_directed_edge(to, from, road_type, toll, name.clone());
                            origins.push(EdgeOrigin { way: i, reversed: true });
                        }
                        assert forall|e: int| 0 <= e < (plan0 + seg).len() implies edge_as_planned(
                            #[trigger] graph.edges@[e],
                            origins@[e],
                            (plan0 + seg)[e],
                        ) by {
                            if e < plan0.len() {
                                assert((plan0 + seg)[e] == plan0[e]);
                            }
                        }
                    },
                    _ => {
                        assert(!(to_graph@.contains_key(a_id) && to_graph@.contains_key(b_id)));
                        assert(seg == Seq::<PlannedEdge>::empty());
                        assert(plan0 + seg == plan0);
                    },
                }
                k = k + 1;
            }
            assert(planned_edges(kept, ways@.take(i + 1)) == before + way_edges(
                kept,
                *way,
                i as int,
                last as nat,
            ));
        } else {
            assert(planned_edges(kept, ways@.take(i + 1)) == before);
        }
        i = i + 1;
    }
    assert(ways@.take(ways@.len() as int) == ways@);
    GraphBuild { graph, osm_nodes, origins }
}

/// The planned edge comes from way `wi` of `ways`, a routable way whose road
/// class, toll and name it carries, and both its ends are graph nodes.
pub open spec fn planned_from_way(
    kept: Seq<i64>,
    ways: Seq<OsmWay>,
    e: PlannedEdge,
) -> bool {
    &&& 0 <= e.way < ways.len()
    &&& spec_is_routable_way(ways[e.way])
    &&& e.road_type == spec_road_type(ways[e.way].tags)
    &&& e.has_toll == spec_has_toll(ways[e.way].tags)
    &&& e.name == spec_way_name(ways[e.way])
    &&& 0 <= e.from < kept.len()
    &&& 0 <= e.to < kept.len()
}

proof fn lemma_way_edges_from_way(kept: Seq<i64>, ways: Seq<OsmWay>, wi: int, k: nat)
    requires
        0 <= wi < ways.len(),
        spec_is_routable_way(ways[wi]),
    ensures
        forall|j: int|
            0 <= j < way_edges(kept, ways[wi], wi, k).len() ==> planned_from_way(
                kept,
                ways,
                #[trigger] way_edges(kept, ways[wi], wi, k)[j],
            ),
    decreases k,
{
    if k > 0 {
        let w = ways[wi];
        lemma_way_edges_from_way(kept, ways, wi, (k - 1) as nat);
        let a = way_edges(kept, w, wi, (k - 1) as nat);
        let b = segment_edges(kept, w, wi, k - 1);
        lemma_graph_index(kept, w.nodes@[k - 1]);
        lemma_graph_index(kept, w.nodes@[k as int]);
        assert forall|j: int| 0 <= j < (a + b).len() implies planned_from_way(
            kept,
            ways,
            #[trigger] (a + b)[j],
        ) by {
            if j < a.len() {
                assert((a + b)[j] == a[j]);
            } else {
                assert((a + b)[j] == b[j - a.len()]);
            }
        }
    }
}

proof fn lemma_planned_prefix_from_ways(kept: Seq<i64>, ways: Seq<OsmWay>, n: int)
    requires
        0 <= n <= ways.len(),
    ensures
        forall|j: int|
            0 <= j < planned_edges(kept, ways.take(n)).len() ==> planned_from_way(
                kept,
                ways,
                #[trigger] planned_edges(kept, ways.take(n))[j],
            ),
    decreases n,
{
    if n > 0 {
        lemma_planned_prefix_from_ways(kept, ways, n - 1);
        let pre = ways.take(n);
        assert(pre.drop_last() == ways.take(n - 1));
        assert(pre.last() == ways[n - 1]);
        let rest = planned_edges(kept, ways.take(n - 1));
        if spec_is_routable_way(ways[n - 1]) {
            let w = ways[n - 1];
            let more = way_edges(kept, w, n - 1, (w.nodes@.len() - 1) as nat);
            lemma_way_edges_from_way(kept, ways, n - 1, (w.nodes@.len() - 1) as nat);
            assert forall|j: int| 0 <= j < (rest + more).len() implies planned_from_way(
                kept,
                ways,
                #[trigger] (rest + more)[j],
            ) by {
                if j < rest.len() {
                    assert((rest + more)[j] == rest[j]);
                } else {
                    assert((rest + more)[j] == more[j - rest.len()]);
                }
            }
        }
    }
}

/// Every edge of a graph built from OpenStreetMap data comes from a routable
/// input way, carries that way's road class, toll and name, and joins two
/// graph nodes.
pub proof fn lemma_planned_edges_from_routable_ways(kept: Seq<i64>, ways: Seq<OsmWay>)
    ensures
        forall|j: int|
            0 <= j < planned_edges(kept, ways).len() ==> planned_from_way(
                kept,
                ways,
                #[trigger] planned_edges(kept, ways)[j],
            ),
{
    lemma_planned_prefix_from_ways(kept, ways, ways.len() as int);
    assert(ways.take(ways.len() as int) == ways);
}

/// Segment `k` of the way that planned edge `e` comes from has both ends in
/// the graph, and `e` runs along it: from its first node to its second, or
/// the other way round when `e` is reversed, which only a two-way way has.
pub open spec fn runs_along_segment(kept: Seq<i64>, ways: Seq<OsmWay>, e: PlannedEdge, k: int) -> bool {
    let nodes = ways[e.way].nodes@;
    let a = graph_index(kept, nodes[k]);
    let b = graph_index(kept, nodes[k + 1]);
    &&& 0 <= k < nodes.len() - 1
    &&& a is Some
    &&& b is Some
    &&& if e.reversed {
        e.from == b->0 && e.to == a->0 && !spec_is_oneway(
            ways[e.way].tags,
            spec_road_type(ways[e.way].tags),
        )
    } else {
        e.from == a->0 && e.to == b->0
    }
}

/// `e` runs along some segment of its way, as `runs_along_segment` says.
pub open spec fn on_way_segment(kept: Seq<i64>, ways: Seq<OsmWay>, e: PlannedEdge) -> bool {
    exists|k: int| runs_along_segment(kept, ways, e, k)
}

/// The edge in the way's direction along segment `k` of way `wi`.
pub open spec fn forward_along(kept: Seq<i64>, ways: Seq<OsmWay>, wi: int, k: int) -> PlannedEdge {
    let w = ways[wi];
    PlannedEdge {
        from: graph_index(kept, w.nodes@[k])->0,
        to: graph_index(kept, w.nodes@[k + 1])->0,
        road_type: spec_road_type(w.tags),
        has_toll: spec_has_toll(w.tags),
        name: spec_way_name(w),
        way: wi,
        reversed: false,
    }
}

proof fn lemma_way_edges_segments(kept: Seq<i64>, ways: Seq<OsmWay>, wi: int, k: nat)
    requires
        0 <= wi < ways.len(),
        k <= ways[wi].nodes@.len() - 1,
    ensures
        forall|j: int|
            0 <= j < way_edges(kept, ways[wi], wi, k).len() ==> on_way_segment(kept, ways, #[trigger] way_edges(kept, ways[wi], wi, k)[j]),
        forall|j: int| 0 <= j < way_edges(kept, ways[wi], wi, k).len() ==> (#[trigger] way_edges(kept, ways[wi], wi, k)[j]).way == wi,
        forall|s: int|
            0 <= s < k && graph_index(kept, ways[wi].nodes@[s]) is Some && graph_index(
                kept,
                ways[wi].nodes@[s + 1],
            ) is Some ==> way_edges(kept, ways[wi], wi, k).contains(
                #[trigger] forward_along(kept, ways, wi, s),
            ),
    decreases k,
{
    if k > 0 {
        let w = ways[wi];
        lemma_way_edges_segments(kept, ways, wi, (k - 1) as nat);
        let a = way_edges(kept, w, wi, (k - 1) as nat);
        let b = segment_edges(kept, w, wi, k - 1);
        let ab = a + b;
        assert(ab == way_edges(kept, w, wi, k));
        assert forall|j: int| 0 <= j < ab.len() implies on_way_segment(kept, ways, #[trigger] ab[j]) by {
            if j < a.len() {
                assert(ab[j] == a[j]);
            } else {
                assert(ab[j] == b[j - a.len()]);
                assert(runs_along_segment(kept, ways, ab[j], k - 1));
                assert(on_way_segment(kept, ways, ab[j]));
            }
        }
        assert forall|j: int| 0 <= j < ab.len() implies (#[trigger] ab[j]).way == wi by {
            if j < a.len() {
                assert(ab[j] == a[j]);
            } else {
                assert(ab[j] == b[j - a.len()]);
            }
        }
        assert forall|s: int|
            0 <= s < k && graph_index(kept, w.nodes@[s]) is Some && graph_index(
                kept,
                w.nodes@[s + 1],
            ) is Some implies ab.contains(#[trigger] forward_along(kept, ways, wi, s)) by {
            if s < k - 1 {
                let j = choose|j: int| 0 <= j < a.len() && a[j] == forward_along(kept, ways, wi, s);
                assert(ab[j] == a[j]);
            } else {
                assert(b[0] == forward_along(kept, ways, wi, s));
                assert(ab[a.len() as int] == b[0]);
            }
        }
    }
}

proof fn lemma_planned_prefix_segments(kept: Seq<i64>, ways: Seq<OsmWay>, n: int)
    requires
        0 <= n <= ways.len(),
    ensures
        forall|j: int|
            0 <= j < planned_edges(kept, ways.take(n)).len() ==> on_way_segment(kept, ways, #[trigger] planned_edges(kept, ways.take(n))[j]),
        forall|j: int|
            0 <= j < planned_edges(kept, ways.take(n)).len() ==> (#[trigger] planned_edges(kept, ways.take(n))[j]).way < n,
        forall|i: int, j: int|
            0 <= i < j < planned_edges(kept, ways.take(n)).len() ==> (#[trigger] planned_edges(kept, ways.take(n))[i]).way
                <= (#[trigger] planned_edges(kept, ways.take(n))[j]).way,
        forall|wi: int, s: int|
            0 <= wi < n && spec_is_routable_way(ways[wi]) && 0 <= s < ways[wi].nodes@.len() - 1
                && graph_index(kept, ways[wi].nodes@[s]) is Some && graph_index(
                kept,
                ways[wi].nodes@[s + 1],
            ) is Some ==> planned_edges(kept, ways.take(n)).contains(
                #[trigger] forward_along(kept, ways, wi, s),
            ),
    decreases n,
{
    if n > 0 {
        lemma_planned_prefix_segments(kept, ways, n - 1);
        lemma_planned_prefix_from_ways(kept, ways, n - 1);
        let pre = ways.take(n);
        assert(pre.drop_last() == ways.take(n - 1));
        assert(pre.last() == ways[n - 1]);
        let rest = planned_edges(kept, ways.take(n - 1));
        let w = ways[n - 1];
        if spec_is_routable_way(w) {
            let more = way_edges(kept, w, n - 1, (w.nodes@.len() - 1) as nat);
            lemma_way_edges_segments(kept, ways, n - 1, (w.nodes@.len() - 1) as nat);
            let all = rest + more;
            assert(all == planned_edges(kept, pre));
            assert forall|j: int| 0 <= j < all.len() implies on_way_segment(kept, ways, #[trigger] all[j]) by {
                if j < rest.len() {
                    assert(all[j] == rest[j]);
                } else {
                    assert(all[j] == more[j - rest.len()]);
                }
            }
            assert forall|j: int| 0 <= j < all.len() implies (#[trigger] all[j]).way < n by {
                if j < rest.len() {
                    assert(all[j] == rest[j]);
                } else {
                    assert(all[j] == more[j - rest.len()]);
                }
            }
            assert forall|i: int, j: int| 0 <= i < j < all.len() implies (#[trigger] all[i]).way
                <= (#[trigger] all[j]).way by {
                if j < rest.len() {
                    assert(all[i] == rest[i]);
                    assert(all[j] == rest[j]);
                } else if i < rest.len() {
                    assert(all[i] == rest[i]);
                    assert(all[j] == more[j - rest.len()]);
                } else {
                    assert(all[i] == more[i - rest.len()]);
                    assert(all[j] == more[j - rest.len()]);
                }
            }
            assert forall|wi: int, s: int|
                0 <= wi < n && spec_is_routable_way(ways[wi]) && 0 <= s < ways[wi].nodes@.len() - 1
                    && graph_index(kept, ways[wi].nodes@[s]) is Some && graph_index(
                    kept,
                    ways[wi].nodes@[s + 1],
                ) is Some implies all.contains(#[trigger] forward_along(kept, ways, wi, s)) by {
                if wi < n - 1 {
                    let j = choose|j: int| 0 <= j < rest.len() && rest[j] == forward_along(kept, ways, wi, s);
                    assert(all[j] == rest[j]);
                } else {
                    let j = choose|j: int| 0 <= j < more.len() && more[j] == forward_along(kept, ways, wi, s);
                    assert(all[rest.len() + j] == more[j]);
                }
            }
        } else {
            assert forall|wi: int, s: int|
                0 <= wi < n && spec_is_routable_way(ways[wi]) && 0 <= s < ways[wi].nodes@.len() - 1
                    && graph_index(kept, ways[wi].nodes@[s]) is Some && graph_index(
                    kept,
                    ways[wi].nodes@[s + 1],
                ) is Some implies rest.contains(#[trigger] forward_along(kept, ways, wi, s)) by {
                assert(wi < n - 1);
            }
        }
    }
}

/// The edges of a graph built from OpenStreetMap data are its ways'
/// segments, way after way in input order: each edge runs along a segment of its way whose two ends are
/// graph nodes, in the way's direction unless it is the reverse edge of a
/// two-way way; and every segment of a routable way whose two ends are graph
/// nodes has its edge in the way's direction.
pub proof fn lemma_edges_are_way_segments(kept: Seq<i64>, ways: Seq<OsmWay>)
    ensures
        forall|j: int|
            0 <= j < planned_edges(kept, ways).len() ==> on_way_segment(kept, ways, #[trigger] planned_edges(kept, ways)[j]),
        forall|wi: int, s: int|
            0 <= wi < ways.len() && spec_is_routable_way(ways[wi]) && 0 <= s < ways[wi].nodes@.len()
                - 1 && graph_index(kept, ways[wi].nodes@[s]) is Some && graph_index(
                kept,
                ways[wi].nodes@[s + 1],
            ) is Some ==> planned_edges(kept, ways).contains(
                #[trigger] forward_along(kept, ways, wi, s),
            ),
        forall|i: int, j: int|
            0 <= i < j < planned_edges(kept, ways).len() ==> (#[trigger] planned_edges(kept, ways)[i]).way
                <= (#[trigger] planned_edges(kept, ways)[j]).way,
{
    lemma_planned_prefix_segments(kept, ways, ways.len() as int);
    assert(ways.take(ways.len() as int) == ways);
}

/// `back` is the edge that undoes `forth`, on the same way.
pub open spec fn twin_edges(forth: PlannedEdge, back: PlannedEdge) -> bool {
    &&& !forth.reversed
    &&& back.reversed
    &&& back.from == forth.to
    &&& back.to == forth.from
    &&& back.way == forth.way
    &&& back.road_type == forth.road_type
    &&& back.has_toll == forth.has_toll
    &&& back.name == forth.name
}

/// Each backward edge directly follows its forward twin, and each forward
/// edge of a two-way way (as `two_way` tells) is directly followed by its
/// backward twin.
pub open spec fn edges_paired(s: Seq<PlannedEdge>, two_way: spec_fn(PlannedEdge) -> bool) -> bool {
    forall|j: int|
        #![trigger s[j]]
        0 <= j < s.len() ==> (s[j].reversed ==> j >= 1 && twin_edges(s[j - 1], s[j])) && (
        !s[j].reversed && two_way(s[j]) ==> j + 1 < s.len() && twin_edges(s[j], s[j + 1]))
}

proof fn lemma_paired_concat(a: Seq<PlannedEdge>, b: Seq<PlannedEdge>, two_way: spec_fn(PlannedEdge) -> bool)
    requires
        edges_paired(a, two_way),
        edges_paired(b, two_way),
    ensures
        edges_paired(a + b, two_way),
{
    let s = a + b;
    assert forall|j: int| 0 <= j < s.len() implies (s[j].reversed ==> j >= 1 && twin_edges(
        s[j - 1],
        s[j],
    )) && (!s[j].reversed && two_way(s[j]) ==> j + 1 < s.len() && twin_edges(s[j], s[j + 1])) by {
        if j < a.len() {
            assert(s[j] == a[j]);
            if a[j].reversed {
                assert(s[j - 1] == a[j - 1]);
            }
            if !a[j].reversed && two_way(a[j]) {
                assert(s[j + 1] == a[j + 1]);
            }
        } else {
            let i = j - a.len();
            assert(s[j] == b[i]);
            if b[i].reversed {
                assert(s[j - 1] == b[i - 1]);
            }
            if !b[i].reversed && two_way(b[i]) {
                assert(s[j + 1] == b[i + 1]);
            }
        }
    }
}

/// Whether the way that planned edge `e` comes from is two-way.
pub open spec fn from_two_way(ways: Seq<OsmWay>) -> spec_fn(PlannedEdge) -> bool {
    |e: PlannedEdge| !spec_is_oneway(ways[e.way].tags, e.road_type)
}

proof fn lemma_way_edges_paired(kept: Seq<i64>, ways: Seq<OsmWay>, wi: int, k: nat)
    requires
        0 <= wi < ways.len(),
    ensures
        edges_paired(way_edges(kept, ways[wi], wi, k), from_two_way(ways)),
    decreases k,
{
    if k > 0 {
        let w = ways[wi];
        lemma_way_edges_paired(kept, ways, wi, (k - 1) as nat);
        let seg = segment_edges(kept, w, wi, k - 1);
        assert(edges_paired(seg, from_two_way(ways)));
        lemma_paired_concat(way_edges(kept, w, wi, (k - 1) as nat), seg, from_two_way(ways));
    }
}

proof fn lemma_planned_prefix_paired(kept: Seq<i64>, ways: Seq<OsmWay>, n: int)
    requires
        0 <= n <= ways.len(),
    ensures
        edges_paired(planned_edges(kept, ways.take(n)), from_two_way(ways)),
    decreases n,
{
    if n > 0 {
        lemma_planned_prefix_paired(kept, ways, n - 1);
        let pre = ways.take(n);
        assert(pre.drop_last() == ways.take(n - 1));
        assert(pre.last() == ways[n - 1]);
        if spec_is_routable_way(ways[n - 1]) {
            let w = ways[n - 1];
            lemma_way_edges_paired(kept, ways, n - 1, (w.nodes@.len() - 1) as nat);
            lemma_paired_concat(
                planned_edges(kept, ways.take(n - 1)),
                way_edges(kept, w, n - 1, (w.nodes@.len() - 1) as nat),
                from_two_way(ways),
            );
        }
    }
}

/// A two-way road can be driven both ways: in a graph built from
/// OpenStreetMap data, every edge of a two-way way is directly followed by
/// the edge back along the same segment, and every backward edge directly
/// follows its forward edge.
pub proof fn lemma_two_way_roads_have_both_directions(kept: Seq<i64>, ways: Seq<OsmWay>)
    ensures
        edges_paired(planned_edges(kept, ways), from_two_way(ways)),
{
    lemma_planned_prefix_paired(kept, ways, ways.len() as int);
    assert(ways.take(ways.len() as int) == ways);
}

proof fn lemma_id_set_contains(ids: Seq<i64>, x: i64)
    ensures
        id_set(ids).contains(x) <==> ids.contains(x),
    decreases ids.len(),
{
    if ids.len() > 0 {
        lemma_id_set_contains(ids.drop_last(), x);
        if ids.drop_last().contains(x) {
            let k = choose|k: int| 0 <= k < ids.drop_last().len() && ids.drop_last()[k] == x;
            assert(ids[k] == x);
        }
        if ids.contains(x) && x != ids.last() {
            let k = choose|k: int| 0 <= k < ids.len() && ids[k] == x;
            assert(ids.drop_last()[k] == x);
        }
    }
}

/// A node id is used exactly when some routable way passes through it.
pub proof fn lemma_used_node_ids(ways: Seq<OsmWay>, x: i64)
    ensures
        used_node_ids(ways).contains(x) <==> exists|i: int|
            0 <= i < ways.len() && spec_is_routable_way(#[trigger] ways[i]) && ways[i].nodes@.contains(
                x,
            ),
    decreases ways.len(),
{
    if ways.len() > 0 {
        let rest = ways.drop_last();
        lemma_used_node_ids(rest, x);
        lemma_id_set_contains(ways.last().nodes@, x);
        if used_node_ids(ways).contains(x) {
            if used_node_ids(rest).contains(x) {
                let i = choose|i: int|
                    0 <= i < rest.len() && spec_is_routable_way(#[trigger] rest[i])
                        && rest[i].nodes@.contains(x);
                assert(ways[i] == rest[i]);
            } else {
                assert(spec_is_routable_way(ways[ways.len() - 1]));
            }
        }
        if exists|i: int|
            0 <= i < ways.len() && spec_is_routable_way(#[trigger] ways[i]) && ways[i].nodes@.contains(
                x,
            ) {
            let i = choose|i: int|
                0 <= i < ways.len() && spec_is_routable_way(#[trigger] ways[i]) && ways[i].nodes@.contains(
                    x,
                );
            if i < ways.len() - 1 {
                assert(rest[i] == ways[i]);
            }
        }
    }
}

/// The ids kept are those of `ids` that belong to `used`, in their order.
pub proof fn lemma_kept_ids(ids: Seq<i64>, used: Set<i64>, x: i64)
    ensures
        kept_ids(ids, used).contains(x) <==> ids.contains(x) && used.contains(x),
    decreases ids.len(),
{
    if ids.len() > 0 {
        let rest = ids.drop_last();
        lemma_kept_ids(rest, used, x);
        let kr = kept_ids(rest, used);
        let k = kept_ids(ids, used);
        if kr.contains(x) {
            let j = choose|j: int| 0 <= j < kr.len() && kr[j] == x;
            assert(k[j] == x);
        }
        if rest.contains(x) {
            let j = choose|j: int| 0 <= j < rest.len() && rest[j] == x;
            assert(ids[j] == x);
        }
        if k.contains(x) && !kr.contains(x) {
            assert(used.contains(ids.last()) && k.last() == ids.last());
            let j = choose|j: int| 0 <= j < k.len() && k[j] == x;
            if j < kr.len() {
                assert(kr[j] == x);
            }
            assert(ids[ids.len() - 1] == x);
        }
        if ids.contains(x) && !rest.contains(x) {
            let j = choose|j: int| 0 <= j < ids.len() && ids[j] == x;
            if j < rest.len() {
                assert(rest[j] == x);
            }
            if used.contains(x) {
                assert(k.last() == x);
            }
        }
    }
}

/// The graph built from OpenStreetMap data has a node for an OpenStreetMap
/// node exactly when that node is at hand and some routable way passes
/// through it.
pub proof fn lemma_graph_nodes_are_routable_nodes(node_ids: Seq<i64>, ways: Seq<OsmWay>, x: i64)
    ensures
        kept_ids(node_ids, used_node_ids(ways)).contains(x) <==> node_ids.contains(x) && exists|
            i: int,
        |
            0 <= i < ways.len() && spec_is_routable_way(#[trigger] ways[i]) && ways[i].nodes@.contains(
                x,
            ),
{
    lemma_kept_ids(node_ids, used_node_ids(ways), x);
    lemma_used_node_ids(ways, x);
}

} // verus!
