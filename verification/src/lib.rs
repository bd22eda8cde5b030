//! Verified core of the Exocore entity store and transport layers.

pub mod node_map;
mod sequences;
pub mod store;
pub mod transport;
