//! Geometry and graph-construction core for a river-centerline dataset.
//!
//! The library turns tiled river-centerline geometry and tiled elevation
//! rasters into a graph-ready dataset: nodes (points with a canonical
//! identity and an elevation), line edges, a Delaunay-based proximity edge
//! set, and a multi-resolution tile-membership index.  Positions are held in
//! fixed point (nanodegrees), elevations in centimeters, so that every rule
//! of the pipeline is stated and proved over plain integers.

pub mod coords;
pub mod ident;
pub mod errors;
pub mod tiles;
pub mod dedup;
pub mod dem;
pub mod flags;
pub mod collect;
