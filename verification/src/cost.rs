//! Cost models that select among the instruction sequences of an e-graph.

pub mod json;
pub mod smoothe;
