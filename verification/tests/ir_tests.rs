use backend::ir::buffer::{buffer_assignment, Buffer};
use backend::ir::dtype::Dtype;
use backend::ir::egraph::{OpKind, TensorInfo, TensorOp};
use backend::ir::metadata::MetaData;
use backend::ir::pii::{PiiGraph, PiiNode};

fn info_of(shape: Vec<i32>, dtype: Dtype) -> TensorInfo {
    TensorInfo { shape, dtype, is_const: false }
}

#[test]
fn dtype_names_sizes_and_parsing() {
    assert_eq!(Dtype::BF16.name(), "bf16");
    assert_eq!(Dtype::I8.name(), "s8");
    assert_eq!(Dtype::BF16.jnp_name(), "jnp.bfloat16");
    assert_eq!(Dtype::U8.jnp_name(), "jnp.uint8");
    assert_eq!(Dtype::BF16.size_in_bytes(), 2);
    assert_eq!(Dtype::FP64.size_in_bytes(), 8);
    assert_eq!(Dtype::U8.size_in_bytes(), 1);
    assert_eq!(Dtype::from_name("bf16"), Dtype::BF16);
    assert_eq!(Dtype::from_name("s32"), Dtype::I32);
    assert_eq!(Dtype::lookup_name("s32"), Some(Dtype::I32));
    assert_eq!(Dtype::lookup_name("i32"), None);
    assert_eq!(Dtype::lookup_name("i8"), None);
    for d in [
        Dtype::U8, Dtype::I8, Dtype::U16, Dtype::I16, Dtype::U32, Dtype::I32, Dtype::U64, Dtype::I64, Dtype::FP16,
        Dtype::FP32, Dtype::FP64, Dtype::BF16,
    ] {
        assert_eq!(Dtype::from_name(d.name()), d);
        assert_eq!(Dtype::lookup_name(d.name()), Some(d));
    }
}

#[test]
fn buffers_of_instructions() {
    assert_eq!(Buffer::HBM.name(), "HBM");
    assert_eq!(Buffer::D2.name(), "D2");
    let load = TensorOp::LoadRm("4".to_string(), [0]);
    assert_eq!(buffer_assignment(&load), Some(vec![Buffer::D1, Buffer::HBM]));
    let gemm = TensorOp::Gemm([1, 2]);
    assert_eq!(buffer_assignment(&gemm), Some(vec![Buffer::D2, Buffer::D1, Buffer::D1]));
    let slice = TensorOp::OpSlice("s".to_string(), [0]);
    assert_eq!(buffer_assignment(&slice), Some(vec![Buffer::ANY, Buffer::ANY]));
    assert_eq!(buffer_assignment(&TensorOp::OpAdd([0, 1])), None);
}

#[test]
fn enodes_parse_from_operator_strings() {
    assert_eq!(TensorOp::from_op("load-rm_4", vec![3]), Some(TensorOp::LoadRm("4".to_string(), [3])));
    assert_eq!(TensorOp::from_op("gemm", vec![1, 2]), Some(TensorOp::Gemm([1, 2])));
    assert_eq!(TensorOp::from_op("?x", vec![]), Some(TensorOp::Var("?x".to_string())));
    assert_eq!(TensorOp::from_op("reshape_a_b", vec![5]), Some(TensorOp::OpReshape("b".to_string(), [5])));
    assert_eq!(TensorOp::from_op("load-rm_4", vec![1, 2]), None);
    assert_eq!(TensorOp::from_op("bogus", vec![]), None);
    assert_eq!(TensorOp::from_op("gemm", vec![1]), None);
}

#[test]
fn enodes_print_and_expose_children() {
    let load = TensorOp::LoadRm("4".to_string(), [7]);
    assert_eq!(load.to_text(), "load_rm[rows='4']");
    assert_eq!(TensorOp::Gemm([1, 2]).to_text(), "gemm");
    assert_eq!(TensorOp::Var("x".to_string()).to_text(), "Var['x']");
    assert_eq!(TensorOp::DetectedConst("c".to_string()).to_text(), "DCC[c]");
    assert_eq!(TensorOp::AlphaHBM(3).to_text(), "alpha_hbm");
    assert_eq!(load.children(), vec![7]);
    assert_eq!(TensorOp::Gemm([1, 2]).children(), vec![1, 2]);
    assert_eq!(TensorOp::AlphaHBM(3).children(), vec![3]);
    assert_eq!(load.num_children(), 1);
    assert!(TensorOp::OpConstant("1".to_string()).is_leaf());
    assert!(!load.is_leaf());
    assert_eq!(load.kind(), OpKind::LoadRm);
    assert!(load.matches(&TensorOp::LoadRm("8".to_string(), [0])));
    assert!(!load.matches(&TensorOp::LoadCm("4".to_string(), [7])));
    assert!(TensorOp::DetectedConst("c".to_string()).is_detected_const());
    assert!(!load.is_detected_const());
    assert_eq!(load.with_children(&vec![9]), TensorOp::LoadRm("4".to_string(), [9]));
    assert!(load.same(&TensorOp::LoadRm("4".to_string(), [7])));
    assert!(!load.same(&TensorOp::LoadRm("4".to_string(), [8])));
    assert!(!load.same(&TensorOp::LoadRm("5".to_string(), [7])));
}

#[test]
fn metadata_goes_into_instruction_payloads() {
    let mut load = TensorOp::LoadRm(String::new(), [0]);
    load.set_metadata(Some("16".to_string()));
    assert_eq!(load, TensorOp::LoadRm("16".to_string(), [0]));
    let mut gemm = TensorOp::Gemm([0, 1]);
    gemm.set_metadata(None);
    assert_eq!(gemm, TensorOp::Gemm([0, 1]));
    let mut var = TensorOp::Var("x".to_string());
    var.set_metadata(Some("y".to_string()));
    assert_eq!(var, TensorOp::Var("x".to_string()));
}

#[test]
fn tensor_info_equality_make_and_merge() {
    let a = info_of(vec![4, 64], Dtype::BF16);
    let mut b = info_of(vec![4, 64], Dtype::BF16);
    b.is_const = true;
    assert!(a.eq(&b));
    assert!(!a.eq(&info_of(vec![4, 65], Dtype::BF16)));
    assert!(!a.eq(&info_of(vec![4, 64], Dtype::U8)));
    let made = TensorInfo::make(&TensorOp::DetectedConst("c".to_string()));
    assert!(made.is_const);
    assert!(made.shape.is_empty());
    assert_eq!(made.dtype, Dtype::U8);
    assert!(!TensorInfo::make(&TensorOp::Gemm([0, 1])).is_const);
    let d = TensorInfo::default();
    assert!(d.shape.is_empty() && d.dtype == Dtype::U8 && !d.is_const);

    let mut x = info_of(vec![1], Dtype::U8);
    assert_eq!(TensorInfo::merge(&mut x, b.clone()), (true, false));
    assert!(x.is_const);
    assert_eq!(x.shape, vec![1]);
    assert_eq!(TensorInfo::merge(&mut x, a.clone()), (false, false));
    assert!(x.is_const);
}

#[test]
fn pii_graph_places_and_prints_nodes() {
    let mut g = PiiGraph::default();
    let t0 = g.add_node(TensorOp::Var("x".to_string()), info_of(vec![512], Dtype::U8), vec![], Some(0));
    let t1 = g.add_node(TensorOp::LoadRm("4".to_string(), [0]), info_of(vec![4, 64], Dtype::BF16), vec![t0], None);
    let t2 = g.try_add_node(TensorOp::OpSlice("s".to_string(), [1]), info_of(vec![2, 64], Dtype::BF16), vec![t1], None);
    assert_eq!((t0, t1, t2), (0, 1, Some(2)));
    assert_eq!(g.nodes[2].buffer, Buffer::D1);
    assert_eq!(g.try_add_node(TensorOp::OpAdd([0, 1]), TensorInfo::default(), vec![0, 1], None), None);
    assert_eq!(g.try_add_node(TensorOp::OpSlice("s".to_string(), [0]), TensorInfo::default(), vec![9], None), None);
    assert_eq!(g.try_add_node(TensorOp::OpSlice("s".to_string(), [0]), TensorInfo::default(), vec![], None), None);
    assert_eq!(g.nodes.len(), 3);
    assert_eq!(PiiGraph::shape_to_string(&vec![4, -1, 64]), "[4,-1,64]");
    assert_eq!(PiiGraph::shape_to_string(&vec![]), "[]");
    let line = PiiGraph::node_line(&PiiNode {
        id: 5,
        op: TensorOp::Gemm([1, 2]),
        info: info_of(vec![64, 64], Dtype::BF16),
        buffer: Buffer::D2,
        hbm_offset: None,
        children: vec![1, 2],
    });
    assert_eq!(line, "t5: D2[-1] = bf16[64,64] gemm(t1, t2)\n");
    assert_eq!(
        g.to_text(),
        "t0: HBM[0] = u8[512] Var['x']()\nt1: D1[-1] = bf16[4,64] load_rm[rows='4'](t0)\nt2: D1[-1] = bf16[2,64] slice[slice='s'](t1)\n"
    );
}

#[test]
fn fixed_buffer_instructions_do_not_look_at_operands() {
    let mut g = PiiGraph::default();
    let t0 = g.add_node(TensorOp::Mov("4".to_string(), [0]), info_of(vec![4, 64], Dtype::BF16), vec![9], None);
    assert_eq!(t0, 0);
    assert_eq!(g.nodes[0].buffer, Buffer::D1);
    assert_eq!(g.nodes[0].children, vec![9]);
}

#[test]
fn default_metadata_is_unnamed_and_empty() {
    let m = MetaData::default();
    assert_eq!(m.module_name, "xla_computation_unknown");
    assert!(m.input.is_empty() && m.output.is_empty());
}
