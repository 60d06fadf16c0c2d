//! Rewrite rules of instruction selection: the rules files, side conditions
//! and metadata of the rules, and alpha injectivity.

pub mod alpha;
pub mod ir2isa_rewrites;
pub mod rules;
