//! Keyframed motion-graphics attributes and the map data model behind an
//! OpenStreetMap renderer: style tables, OSM import bookkeeping and the
//! ordering of a relation's outer ways into drawable outlines.

pub mod geo;
pub mod motion_graphics;
