//! Helper data structures.

pub mod slot_map;
