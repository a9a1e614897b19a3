//! What a displayed array tree says of its nodes.

pub mod profile;
pub mod throughput;
