use vstd::prelude::*;

use crate::ir::dtype::Dtype;

verus! {

/// Placement of one kernel argument or result in HBM.
#[derive(Debug)]
pub struct MetaDataInfo {
    pub addr: i32,
    pub shape: Vec<i32>,
    pub dtype: Dtype,
}

/// Interface of a compiled kernel: its name and the HBM placement of its
/// inputs and outputs.
#[derive(Debug)]
pub struct MetaData {
    pub module_name: String,
    pub input: Vec<MetaDataInfo>,
    pub output: Vec<MetaDataInfo>,
}

impl Default for MetaData {
    fn default() -> (r: Self)
        ensures
            r.module_name@ == "xla_computation_unknown"@,
            r.input@.len() == 0,
            r.output@.len() == 0,
    {
        MetaData {
            module_name: String::from_str("xla_computation_unknown"),
            input: Vec::new(),
            output: Vec::new(),
        }
    }
}

} // verus!
