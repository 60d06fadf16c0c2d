use backend::cost::smoothe::{
    get_instruction_cost, parse_selected_node_id, selected_enodes_to_pii, serialized_nodes, solution_to_pii,
};
use backend::cost::json::{parse_json, JsonItem};
use backend::cost::smoothe::solution_ids_of;
use backend::ir::dtype::Dtype;
use backend::ir::egraph::{TensorInfo, TensorOp};
use backend::ir::snapshot::{EClass, EGraphSnapshot};

fn sm_meta(shape: Vec<i32>, dtype: Dtype) -> TensorInfo {
    TensorInfo { shape, dtype, is_const: false }
}

/// x -> load_rm -> store_rm, where class 3 was merged into class 1 (its
/// leader) and class 1 also holds a mov alternative.
fn sm_graph() -> EGraphSnapshot {
    EGraphSnapshot {
        leaders: vec![0, 1, 2, 1],
        classes: vec![
            EClass { id: 0, nodes: vec![TensorOp::Var("x".to_string())], data: sm_meta(vec![512], Dtype::U8), parents: vec![1] },
            EClass {
                id: 1,
                nodes: vec![TensorOp::LoadRm("4".to_string(), [0]), TensorOp::Mov("4".to_string(), [3])],
                data: sm_meta(vec![4, 64], Dtype::BF16),
                parents: vec![2, 3],
            },
            EClass { id: 2, nodes: vec![TensorOp::StoreRm("4".to_string(), [3])], data: sm_meta(vec![512], Dtype::U8), parents: vec![] },
            EClass { id: 3, nodes: vec![], data: TensorInfo::default(), parents: vec![] },
        ],
    }
}

fn sm_ids(ids: &[&str]) -> Vec<String> {
    ids.iter().map(|s| s.to_string()).collect()
}

#[test]
fn instruction_costs() {
    assert_eq!(get_instruction_cost(&TensorOp::LoadRm("4".to_string(), [0])), 10);
    assert_eq!(get_instruction_cost(&TensorOp::StoreCm("4".to_string(), [0])), 10);
    assert_eq!(get_instruction_cost(&TensorOp::Mov("4".to_string(), [0])), 5);
    assert_eq!(get_instruction_cost(&TensorOp::Gemm([0, 1])), 100);
    assert_eq!(get_instruction_cost(&TensorOp::Softmax("4".to_string(), [0])), 50);
    assert_eq!(get_instruction_cost(&TensorOp::OpAdd([0, 1])), 1);
    assert_eq!(get_instruction_cost(&TensorOp::Var("x".to_string())), 1);
}

#[test]
fn node_ids_name_class_and_index() {
    let g = sm_graph();
    assert_eq!(parse_selected_node_id(&g, "2.0"), Some((2, 0)));
    assert_eq!(parse_selected_node_id(&g, "1.1"), Some((1, 1)));
    assert_eq!(parse_selected_node_id(&g, "3.1"), Some((1, 1)));
    assert_eq!(parse_selected_node_id(&g, "+1.0"), Some((1, 0)));
    assert_eq!(parse_selected_node_id(&g, "1.2"), None);
    assert_eq!(parse_selected_node_id(&g, "4.0"), None);
    assert_eq!(parse_selected_node_id(&g, "1"), None);
    assert_eq!(parse_selected_node_id(&g, "a.0"), None);
    assert_eq!(parse_selected_node_id(&g, "1.x"), None);
    assert_eq!(parse_selected_node_id(&g, "1.0.0"), None);
}

#[test]
fn serialized_egraph_lists_canonical_classes() {
    let g = sm_graph();
    let nodes = serialized_nodes(&g);
    let ids: Vec<&str> = nodes.iter().map(|n| n.id.as_str()).collect();
    assert_eq!(ids, vec!["0.0", "1.0", "1.1", "2.0"]);
    assert_eq!(nodes[1].op, "load_rm[rows='4']");
    assert_eq!(nodes[1].children, vec!["0.0".to_string()]);
    assert_eq!(nodes[1].eclass, "1");
    assert_eq!(nodes[1].cost, 10);
    assert_eq!(nodes[2].children, vec!["1.0".to_string()]);
    assert_eq!(nodes[2].cost, 5);
    assert_eq!(nodes[3].children, vec!["1.0".to_string()]);
    assert_eq!(nodes[0].op, "Var['x']");
    assert!(nodes[0].children.is_empty());
    for n in nodes.iter() {
        let (c, k) = parse_selected_node_id(&g, &n.id).unwrap();
        assert_eq!(format!("{}.{}", c, k), n.id);
    }
}

#[test]
fn selected_enodes_build_a_pii_graph() {
    let g = sm_graph();
    let offs = vec![(Some(0), 0), (Some(2), 512)];
    let pii = selected_enodes_to_pii(&g, 2, &sm_ids(&["0.0", "1.1", "1.0", "2.0"]), &offs).unwrap();
    assert_eq!(
        pii.to_text(),
        "t0: HBM[0] = u8[512] Var['x']()\nt1: D1[-1] = bf16[4,64] load_rm[rows='4'](t0)\nt2: HBM[512] = u8[512] store_rm[rows='4'](t1)\n"
    );
    assert!(selected_enodes_to_pii(&g, 2, &sm_ids(&["1.0", "2.0"]), &offs).is_none());
    assert!(selected_enodes_to_pii(&g, 2, &sm_ids(&["0.0", "1.0", "2.0", "bad"]), &offs).is_none());
    assert!(selected_enodes_to_pii(&g, 2, &sm_ids(&["0.0", "1.1", "2.0"]), &offs).is_none());
    let leaf = selected_enodes_to_pii(&g, 0, &sm_ids(&["0.0"]), &offs).unwrap();
    assert_eq!(leaf.nodes.len(), 1);
}

#[test]
fn solution_files_are_read_and_laid_out() {
    let g = sm_graph();
    let offs = vec![(Some(0), 0), (Some(2), 512)];
    let text = "{\"solution\": [\"0.0\", \"1.0\", \"2.0\"], \"cost\": 21}";
    let pii = solution_to_pii(&g, 2, text, &offs).unwrap();
    assert_eq!(
        pii.to_text(),
        "t0: HBM[0] = u8[512] Var['x']()\nt1: D1[-1] = bf16[4,64] load_rm[rows='4'](t0)\nt2: HBM[512] = u8[512] store_rm[rows='4'](t1)\n"
    );
    assert!(solution_to_pii(&g, 2, "not json", &offs).is_none());
    assert!(solution_to_pii(&g, 2, "{\"solution\": \"0.0\"}", &offs).is_none());
    assert!(solution_to_pii(&g, 2, "{\"solution\": [\"0.0\", 1]}", &offs).is_none());
    assert!(solution_to_pii(&g, 2, "{\"other\": []}", &offs).is_none());
    assert!(solution_to_pii(&g, 2, "{\"solution\": [\"0.0\", \"2.0\"]}", &offs).is_none());
}

#[test]
fn json_text_is_read_into_items() {
    assert_eq!(
        parse_json("[1, \"a\", null, {\"k\": [\"b\"]}]"),
        Some(JsonItem::Array(vec![
            JsonItem::Other,
            JsonItem::Str("a".to_string()),
            JsonItem::Other,
            JsonItem::Object(vec![("k".to_string(), JsonItem::Array(vec![JsonItem::Str("b".to_string())]))]),
        ]))
    );
    assert_eq!(parse_json("\"x\""), Some(JsonItem::Str("x".to_string())));
    assert_eq!(parse_json("{\"a\": 1"), None);
    assert_eq!(parse_json(""), None);
}

#[test]
fn solution_ids_come_from_the_solution_key() {
    let obj = |entries: Vec<(&str, JsonItem)>| {
        JsonItem::Object(entries.into_iter().map(|(k, v)| (k.to_string(), v)).collect())
    };
    let strs = |xs: &[&str]| JsonItem::Array(xs.iter().map(|x| JsonItem::Str(x.to_string())).collect());
    let v = obj(vec![("cost", JsonItem::Other), ("solution", strs(&["0.0", "2.1"]))]);
    assert_eq!(solution_ids_of(&v), Some(sm_ids(&["0.0", "2.1"])));
    assert_eq!(solution_ids_of(&obj(vec![("solution", strs(&[]))])), Some(vec![]));
    assert_eq!(solution_ids_of(&obj(vec![("other", strs(&["0.0"]))])), None);
    assert_eq!(solution_ids_of(&obj(vec![("solution", JsonItem::Str("0.0".to_string()))])), None);
    assert_eq!(
        solution_ids_of(&obj(vec![("solution", JsonItem::Array(vec![JsonItem::Str("0.0".to_string()), JsonItem::Other]))])),
        None
    );
    assert_eq!(solution_ids_of(&strs(&["0.0"])), None);
    assert_eq!(solution_ids_of(&JsonItem::Other), None);
}

#[test]
fn snapshot_well_formedness_is_checked() {
    assert!(sm_graph().check_wf());
    let mut bad_leader = sm_graph();
    bad_leader.leaders[3] = 7;
    assert!(!bad_leader.check_wf());
    let mut not_idempotent = sm_graph();
    not_idempotent.leaders[1] = 3;
    assert!(!not_idempotent.check_wf());
    let mut bad_child = sm_graph();
    bad_child.classes[2].nodes = vec![TensorOp::StoreRm("4".to_string(), [9])];
    assert!(!bad_child.check_wf());
    let mut bad_parent = sm_graph();
    bad_parent.classes[0].parents = vec![4];
    assert!(!bad_parent.check_wf());
    let mut bad_id = sm_graph();
    bad_id.classes[0].id = 2;
    assert!(!bad_id.check_wf());
    let mut short = sm_graph();
    short.classes.pop();
    assert!(!short.check_wf());
}
