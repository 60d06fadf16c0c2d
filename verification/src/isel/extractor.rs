pub mod alpha;
pub mod utils;
pub mod fast;
pub mod slow;

use vstd::prelude::*;

use std::collections::HashSet;

use crate::ir::pii::PiiGraph;
use crate::isel::extractor::fast::{extract_fast, fast_result};
use crate::isel::extractor::slow::{extract_slow, piis_view, slow_result};
use crate::ir::snapshot::EGraphSnapshot;
use crate::isel::extractor::utils::offsets_in_range;

verus! {

/// Extraction with both extractors: the fast one on `fast_graph`, then, while
/// `limit` is within `slow_limit_cutoff`, the slow one (trees of at most
/// `limit` e-nodes) on `slow_graph`; the fast PII graphs come first. Each
/// graph is a snapshot taken after its own round of constant annotation.
/// `None` when an extractor cannot lay out what it selected.
pub fn extract(
    fast_graph: &EGraphSnapshot,
    slow_graph: &EGraphSnapshot,
    root: usize,
    inputs: &HashSet<usize>,
    hbm_offsets: &Vec<(Option<usize>, i32)>,
    limit: usize,
    slow_limit_cutoff: usize,
) -> (r: Option<Vec<PiiGraph>>)
    requires
        fast_graph.wf(),
        slow_graph.wf(),
        root < fast_graph@.len(),
        root < slow_graph@.len(),
        offsets_in_range(fast_graph@, hbm_offsets@),
        offsets_in_range(slow_graph@, hbm_offsets@),
    ensures
        match fast_result(fast_graph@, inputs@, root as int, hbm_offsets@) {
            None => r is None,
            Some(f) => if limit <= slow_limit_cutoff {
                match slow_result(slow_graph@, inputs@, root as int, hbm_offsets@, limit as nat) {
                    None => r is None,
                    Some(s) => r matches Some(v) && piis_view(v) == f + s,
                }
            } else {
                r matches Some(v) && piis_view(v) == f
            },
        },
{
    let mut piis = match extract_fast(fast_graph, root, inputs, hbm_offsets) {
        Some(v) => v,
        None => return None,
    };
    if limit <= slow_limit_cutoff {
        let mut slow = match extract_slow(slow_graph, root, inputs, hbm_offsets, limit) {
            Some(v) => v,
            None => return None,
        };
        let ghost f = piis_view(piis);
        let ghost s = piis_view(slow);
        piis.append(&mut slow);
        assert(piis_view(piis) == f + s);
    }
    Some(piis)
}

} // verus!
