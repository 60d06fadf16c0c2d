use std::collections::HashSet;

use backend::ir::dtype::Dtype;
use backend::ir::egraph::{TensorInfo, TensorOp};
use backend::ir::snapshot::{EClass, EGraphSnapshot};
use backend::isel::extractor::alpha::{alpha_root, unit_cost};
use backend::isel::extractor::extract;
use backend::isel::extractor::fast::extract_fast;
use backend::isel::extractor::slow::{extract_slow, extraction_to_piigraph, get_edges, get_extractions, Extraction};
use backend::isel::extractor::utils::{constant_reprs, detect_constants, get_hbm_offset, recexpr_to_pii};

fn meta(shape: Vec<i32>, dtype: Dtype) -> TensorInfo {
    TensorInfo { shape, dtype, is_const: false }
}

fn class_of(id: usize, nodes: Vec<TensorOp>, data: TensorInfo, parents: Vec<usize>) -> EClass {
    EClass { id, nodes, data, parents }
}

/// x (input, HBM) -> load_rm -> store_rm (root), optionally wrapped by alpha_hbm.
fn load_store_graph(with_alpha: bool) -> EGraphSnapshot {
    let mut classes = vec![
        class_of(0, vec![TensorOp::Var("x".to_string())], meta(vec![512], Dtype::U8), vec![1]),
        class_of(1, vec![TensorOp::LoadRm("4".to_string(), [0])], meta(vec![4, 64], Dtype::BF16), vec![2]),
        class_of(2, vec![TensorOp::StoreRm("4".to_string(), [1])], meta(vec![512], Dtype::U8), vec![]),
    ];
    let mut leaders = vec![0, 1, 2];
    if with_alpha {
        classes[2].parents.push(3);
        classes.push(class_of(3, vec![TensorOp::AlphaHBM(2)], meta(vec![512], Dtype::U8), vec![]));
        leaders.push(3);
    }
    EGraphSnapshot { leaders, classes }
}

const LOAD_STORE_TEXT: &str = "t0: HBM[0] = u8[512] Var['x']()\nt1: D1[-1] = bf16[4,64] load_rm[rows='4'](t0)\nt2: HBM[512] = u8[512] store_rm[rows='4'](t1)\n";

fn load_store_offsets() -> Vec<(Option<usize>, i32)> {
    vec![(None, 7), (Some(0), 0), (Some(2), 512)]
}

/// constant -> exponential (constant), y (input), add(exp, y) (not constant).
fn constant_graph() -> EGraphSnapshot {
    EGraphSnapshot {
        leaders: vec![0, 1, 2, 3],
        classes: vec![
            class_of(0, vec![TensorOp::OpConstant("1".to_string())], meta(vec![], Dtype::BF16), vec![1]),
            class_of(1, vec![TensorOp::OpExp([0])], meta(vec![], Dtype::BF16), vec![3]),
            class_of(2, vec![TensorOp::Var("y".to_string())], meta(vec![], Dtype::BF16), vec![3]),
            class_of(3, vec![TensorOp::OpAdd([1, 2])], meta(vec![], Dtype::BF16), vec![]),
        ],
    }
}

#[test]
fn hbm_offsets_follow_classes_and_alpha_wrappers() {
    let g = load_store_graph(true);
    let offs = load_store_offsets();
    assert_eq!(get_hbm_offset(&g, &offs, 0), Some(0));
    assert_eq!(get_hbm_offset(&g, &offs, 2), Some(512));
    assert_eq!(get_hbm_offset(&g, &offs, 1), None);
    let alpha_offs = vec![(Some(3), 64)];
    assert_eq!(get_hbm_offset(&g, &alpha_offs, 2), Some(64));
    assert_eq!(get_hbm_offset(&g, &alpha_offs, 3), Some(64));
    assert_eq!(get_hbm_offset(&g, &alpha_offs, 1), None);
}

#[test]
fn constants_are_found_bottom_up() {
    let g = constant_graph();
    let inputs: HashSet<usize> = [2].into_iter().collect();
    let mut cs = detect_constants(&g, &inputs);
    cs.sort();
    assert_eq!(cs, vec![0, 1]);
    let none: HashSet<usize> = HashSet::new();
    let mut all = detect_constants(&g, &none);
    all.sort();
    assert_eq!(all, vec![0, 1, 2, 3]);
}

#[test]
fn constants_get_operator_only_representatives() {
    let g = constant_graph();
    let reprs = constant_reprs(&g, &vec![0, 1, 3]);
    assert_eq!(reprs[0], Some("constant[value='1']()".to_string()));
    assert_eq!(reprs[1], Some("exponential(constant[value='1']())".to_string()));
    assert_eq!(reprs[2], None);
}

#[test]
fn fast_extraction_selects_one_program() {
    let g = load_store_graph(false);
    let inputs: HashSet<usize> = [0].into_iter().collect();
    let piis = extract_fast(&g, 2, &inputs, &load_store_offsets()).unwrap();
    assert_eq!(piis.len(), 1);
    assert_eq!(piis[0].to_text(), LOAD_STORE_TEXT);
    let c = constant_graph();
    let none: HashSet<usize> = HashSet::new();
    assert_eq!(extract_fast(&c, 3, &none, &vec![]).unwrap().len(), 0);
}

#[test]
fn slow_extraction_respects_the_size_limit() {
    let g = load_store_graph(false);
    let inputs: HashSet<usize> = [0].into_iter().collect();
    let piis = extract_slow(&g, 2, &inputs, &load_store_offsets(), 3).unwrap();
    assert_eq!(piis.len(), 1);
    assert_eq!(piis[0].to_text(), LOAD_STORE_TEXT);
    assert_eq!(extract_slow(&g, 2, &inputs, &load_store_offsets(), 2).unwrap().len(), 0);
    assert_eq!(extract_slow(&g, 2, &inputs, &load_store_offsets(), 0).unwrap().len(), 0);
}

#[test]
fn extracted_expressions_become_pii_graphs() {
    let g = load_store_graph(false);
    let expr = vec![
        TensorOp::Var("x".to_string()),
        TensorOp::LoadRm("4".to_string(), [0]),
        TensorOp::StoreRm("4".to_string(), [1]),
    ];
    let pii = recexpr_to_pii(&g, &expr, &load_store_offsets()).unwrap();
    assert_eq!(pii.to_text(), LOAD_STORE_TEXT);
    let forward = vec![TensorOp::LoadRm("4".to_string(), [1]), TensorOp::Var("x".to_string())];
    assert!(recexpr_to_pii(&g, &forward, &load_store_offsets()).is_none());
    let unknown = vec![TensorOp::Var("z".to_string())];
    assert!(recexpr_to_pii(&g, &unknown, &load_store_offsets()).is_none());
    assert_eq!(recexpr_to_pii(&g, &vec![], &load_store_offsets()).unwrap().nodes.len(), 0);
}

#[test]
fn alpha_root_is_the_wrapped_class() {
    let g = load_store_graph(true);
    assert_eq!(alpha_root(&g, 3), Ok(Some(2)));
    assert_eq!(alpha_root(&g, 2), Ok(None));
    let mut twice = load_store_graph(true);
    twice.classes[3].nodes.push(TensorOp::AlphaHBM(1));
    assert_eq!(alpha_root(&twice, 3), Err(2));
}

#[test]
fn unit_cost_counts_nodes() {
    assert_eq!(unit_cost(&vec![]), Some(1));
    assert_eq!(unit_cost(&vec![2, 3]), Some(6));
    assert_eq!(unit_cost(&vec![usize::MAX]), None);
    assert_eq!(unit_cost(&vec![usize::MAX - 1]), Some(usize::MAX));
}

#[test]
fn slow_extraction_enumerates_alternatives() {
    let mut g = load_store_graph(false);
    g.classes[1].nodes.push(TensorOp::LoadCm("4".to_string(), [0]));
    let inputs: HashSet<usize> = [0].into_iter().collect();
    let piis = extract_slow(&g, 2, &inputs, &load_store_offsets(), 3).unwrap();
    assert_eq!(piis.len(), 2);
    assert_eq!(piis[0].to_text(), LOAD_STORE_TEXT);
    assert_eq!(
        piis[1].to_text(),
        "t0: HBM[0] = u8[512] Var['x']()\nt1: D1[-1] = bf16[4,64] load_cm[rows='4'](t0)\nt2: HBM[512] = u8[512] store_rm[rows='4'](t1)\n"
    );
}

#[test]
fn preorder_trees_recover_their_edges() {
    let tree = vec![
        TensorOp::Gemm([1, 2]),
        TensorOp::LoadRm("4".to_string(), [0]),
        TensorOp::Var("x".to_string()),
        TensorOp::Var("y".to_string()),
    ];
    let (children, parent) = get_edges(&tree);
    assert_eq!(children, vec![vec![1, 3], vec![2], vec![], vec![]]);
    assert_eq!(parent, vec![None, Some(0), Some(1), Some(0)]);
}

#[test]
fn equal_subtrees_are_collapsed_one_at_a_time() {
    let tree = vec![
        TensorOp::Gemm([1, 1]),
        TensorOp::LoadRm("4".to_string(), [0]),
        TensorOp::Var("x".to_string()),
        TensorOp::LoadRm("4".to_string(), [0]),
        TensorOp::Var("x".to_string()),
    ];
    let (mut children, mut parent) = get_edges(&tree);
    assert_eq!(children, vec![vec![1, 3], vec![2], vec![], vec![4], vec![]]);
    let ex = get_extractions(&tree, &mut children, &mut parent).unwrap();
    assert_eq!(ex.len(), 2);
    assert_eq!(ex[0].children, vec![vec![1, 3], vec![2], vec![], vec![2], vec![]]);
    assert_eq!(ex[0].parent, vec![None, Some(0), Some(1), Some(0), None]);
    assert_eq!(ex[1].children, vec![vec![1, 1], vec![2], vec![], vec![2], vec![]]);
    assert_eq!(ex[1].parent, vec![None, Some(0), Some(1), None, None]);
    assert_eq!(children, ex[1].children);
    assert_eq!(parent, ex[1].parent);
}

#[test]
fn extractions_lay_out_in_post_order() {
    let g = load_store_graph(false);
    let ex = Extraction {
        tree: vec![
            TensorOp::StoreRm("4".to_string(), [1]),
            TensorOp::LoadRm("4".to_string(), [0]),
            TensorOp::Var("x".to_string()),
        ],
        children: vec![vec![1], vec![2], vec![]],
        parent: vec![None, Some(0), Some(1)],
    };
    let pii = extraction_to_piigraph(&ex, &load_store_offsets(), &g).unwrap();
    assert_eq!(pii.to_text(), LOAD_STORE_TEXT);
    let unknown = Extraction { tree: vec![TensorOp::Var("z".to_string())], children: vec![vec![]], parent: vec![None] };
    assert!(extraction_to_piigraph(&unknown, &load_store_offsets(), &g).is_none());
}

#[test]
fn copies_have_operator_only_representatives() {
    let g = EGraphSnapshot {
        leaders: vec![0, 1],
        classes: vec![
            class_of(0, vec![TensorOp::OpConstant("1".to_string())], meta(vec![], Dtype::BF16), vec![1]),
            class_of(1, vec![TensorOp::OpCopy([0])], meta(vec![], Dtype::BF16), vec![]),
        ],
    };
    let reprs = constant_reprs(&g, &vec![1]);
    assert_eq!(reprs[0], Some("copy(constant[value='1']())".to_string()));
}

#[test]
fn both_extractors_fast_first_within_the_cutoff() {
    let mut g = load_store_graph(false);
    g.classes[1].nodes.push(TensorOp::LoadCm("4".to_string(), [0]));
    let inputs: HashSet<usize> = [0].into_iter().collect();
    let both = extract(&g, &g, 2, &inputs, &load_store_offsets(), 3, 4).unwrap();
    assert_eq!(both.len(), 3);
    assert_eq!(both[0].to_text(), LOAD_STORE_TEXT);
    assert_eq!(both[1].to_text(), LOAD_STORE_TEXT);
    let fast_only = extract(&g, &g, 2, &inputs, &load_store_offsets(), 5, 4).unwrap();
    assert_eq!(fast_only.len(), 1);
}

#[test]
fn value_numbering_succeeds_and_keeps_the_tree() {
    let x = || TensorOp::Var("x".to_string());
    let load = || TensorOp::LoadRm("4".to_string(), [0]);
    let trees = vec![
        vec![x()],
        vec![TensorOp::Gemm([1, 1]), x(), x()],
        vec![TensorOp::Gemm([1, 1]), load(), x(), load(), x()],
        vec![TensorOp::Gemm([1, 2]), TensorOp::Gemm([3, 3]), load(), x(), TensorOp::Gemm([3, 3]), load(), x()],
    ];
    for tree in trees {
        let (mut children, mut parent) = get_edges(&tree);
        let ex = get_extractions(&tree, &mut children, &mut parent).unwrap();
        assert!(!ex.is_empty());
        for e in &ex {
            assert_eq!(e.tree, tree);
        }
    }
}
