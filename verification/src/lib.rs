//! Road-network navigation: a road graph built from OpenStreetMap data,
//! the rules that decide which roads take part in a route, and the state
//! of the interactive controls.
pub mod controls;
pub mod types;
pub mod graph;
pub mod osm;
pub mod router;
pub mod text;
