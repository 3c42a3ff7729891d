//! Lattice types and dataflow scheduling logic with machine-checked contracts.

pub mod lattice;
pub mod union_find;
pub mod union_find_order;
pub mod order;
pub mod checks;
pub mod cartesian;
pub mod set_union;
pub mod map_union;
pub mod pair;
pub mod functions;
pub mod scheduled;
pub mod scheduled_alt;
pub mod collections;
pub mod text;
pub mod util;
pub mod one_to_many;
pub mod lattice_checks;
pub mod surface;
pub mod codegen;
pub mod root_path;
