pub mod dtype;
pub mod egraph;
pub mod buffer;
pub mod pii;
pub mod metadata;
pub mod snapshot;
