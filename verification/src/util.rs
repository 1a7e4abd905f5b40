//! Small utilities around the engine: color values with hex encoding, and a
//! flat tile grid.

pub mod color;
pub mod tilemap;
