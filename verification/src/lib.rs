//! Instruction selection and extraction logic of the QKV accelerator backend:
//! the tensor IR, its buffer rules, rewrite side-conditions, and the extraction
//! algorithms that turn a saturated e-graph into PII graphs.

pub mod ir;
pub mod text;
pub mod isel;
pub mod cost;
pub mod pipeline;
