use vstd::prelude::*;

verus! {

/// Index of a node in a [`crate::graph::RoadGraph`].
pub type NodeId = usize;

/// Index of an edge in a [`crate::graph::RoadGraph`].
pub type EdgeId = usize;

/// Classification of a road, taken from its OpenStreetMap `highway` tag.
#[derive(Debug, Clone, Copy, PartialEq, Eq, Hash, Structural)]
pub enum RoadType {
    Motorway,
    Trunk,
    Primary,
    Secondary,
    Tertiary,
    Residential,
    Service,
    Unclassified,
}

/// What a route minimises.
#[derive(Debug, Clone, Copy, PartialEq, Eq, Structural)]
pub enum RouteMode {
    Fastest,
    Shortest,
}

impl RouteMode {
    /// The label shown for this mode.
    pub fn name(&self) -> (label: &'static str)
        ensures
            label@ == (match *self {
                RouteMode::Fastest => "Fastest"@,
                RouteMode::Shortest => "Shortest"@,
            }),
    {
        match self {
            RouteMode::Fastest => "Fastest",
            RouteMode::Shortest => "Shortest",
        }
    }
}

/// Which route endpoint a click on the map selects.
#[derive(Debug, Clone, Copy, PartialEq, Eq, Structural)]
pub enum ClickMode {
    SelectStart,
    SelectGoal,
}

impl ClickMode {
    /// The label shown for this click mode.
    pub fn name(&self) -> (label: &'static str)
        ensures
            label@ == (match *self {
                ClickMode::SelectStart => "Select Start"@,
                ClickMode::SelectGoal => "Select Goal"@,
            }),
    {
        match self {
            ClickMode::SelectStart => "Select Start",
            ClickMode::SelectGoal => "Select Goal",
        }
    }
}

/// The user's routing preferences.
#[derive(Debug, Clone, Copy, PartialEq, Eq, Structural)]
pub struct RoutingOptions {
    pub mode: RouteMode,
    pub avoid_tolls: bool,
    pub avoid_motorways: bool,
    pub traffic_enabled: bool,
}

impl RoutingOptions {
    /// The preferences a session starts with.
    pub open spec fn initial() -> RoutingOptions {
        RoutingOptions {
            mode: RouteMode::Fastest,
            avoid_tolls: false,
            avoid_motorways: false,
            traffic_enabled: true,
        }
    }
}

impl Default for RoutingOptions {
    /// Fastest routes, tolls and motorways allowed, traffic taken into account.
    fn default() -> (options: Self)
        ensures
            options == RoutingOptions::initial(),
            options.mode == RouteMode::Fastest,
            !options.avoid_tolls,
            !options.avoid_motorways,
            options.traffic_enabled,
    {
        RoutingOptions {
            mode: RouteMode::Fastest,
            avoid_tolls: false,
            avoid_motorways: false,
            traffic_enabled: true,
        }
    }
}

} // verus!
