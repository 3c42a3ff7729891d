//! Handoffs that own their buffer, and the contexts that wrap them.

pub mod ctx;
pub mod handoff;
