//! Dataflow handoffs, the contexts through which subgraphs use them, and scheduling.

pub mod ctx;
pub mod handoff;
pub mod graph;
pub mod graphviz;
pub mod type_list;
