//! Map-data library: a record store for raw map extracts (nodes, ways,
//! relations with tags), recursive geometry resolution of relations, and a
//! routable road graph with nearest-node and shortest-path queries.
//!
//! Coordinates are carried as fixed-point decimicro-degrees (10^-7 degrees),
//! exactly as the raw extract encodes them; distances are whole millimeters
//! of geodesic (curved-earth) distance.

pub mod configuration;
pub mod distance;
pub mod model;
pub mod osm_data;
pub mod utils;
