//! Decoder for the binary vehicle-model format (hull, steerable wheels and
//! debris fragments, each stored as one or more quantized meshes called
//! solids), and the loader of level descriptions.

pub mod dedup;
pub mod geometry;
pub mod level;
pub mod model;
pub mod reader;
