use backend::ir::dtype::Dtype;
use backend::ir::egraph::TensorInfo;
use backend::isel::rewrites::alpha::add_child_unions;
use backend::isel::rewrites::ir2isa_rewrites::{
    metadata_gemm, metadata_load_cm, metadata_load_rm, metadata_mov, metadata_softmax, metadata_store_cm,
    metadata_store_rm, precond_gemm, precond_load_cm, precond_load_rm, precond_mov, precond_softmax,
    precond_store_cm, precond_store_rm, set_shapes_gemm, set_shapes_load_cm, set_shapes_load_rm, set_shapes_mov,
    set_shapes_softmax, set_shapes_store_cm, set_shapes_store_rm,
};
use backend::isel::rewrites::rules::rule_lines;

fn ti(shape: Vec<i32>, dtype: Dtype) -> TensorInfo {
    TensorInfo { shape, dtype, is_const: false }
}

fn same_meta(a: &TensorInfo, shape: Vec<i32>, dtype: Dtype) -> bool {
    a.shape == shape && a.dtype == dtype && !a.is_const
}

#[test]
fn load_rules_check_shapes() {
    let rm = vec![ti(vec![512], Dtype::U8), ti(vec![4, 64, 2], Dtype::U8), ti(vec![4, 64], Dtype::BF16)];
    assert!(precond_load_rm(&rm));
    assert_eq!(metadata_load_rm(&rm), vec![None, Some("4".to_string())]);
    assert!(same_meta(&set_shapes_load_rm(&rm), vec![4, 64], Dtype::BF16));
    let mut wrong = rm.clone();
    wrong[0] = ti(vec![511], Dtype::U8);
    assert!(!precond_load_rm(&wrong));
    let mut wrong_type = rm.clone();
    wrong_type[2] = ti(vec![4, 64], Dtype::FP16);
    assert!(!precond_load_rm(&wrong_type));

    let cm = vec![
        ti(vec![1024], Dtype::U8),
        ti(vec![8, 64, 2], Dtype::U8),
        ti(vec![8, 64], Dtype::BF16),
        ti(vec![8], Dtype::BF16),
    ];
    assert!(!precond_load_cm(&cm));
    let mut cm_ok = cm.clone();
    cm_ok[3] = ti(vec![8, 64], Dtype::BF16);
    assert!(!precond_load_cm(&cm_ok));
    let good = vec![
        ti(vec![8192], Dtype::U8),
        ti(vec![64, 64, 2], Dtype::U8),
        ti(vec![64, 64], Dtype::BF16),
        ti(vec![64, 64], Dtype::BF16),
    ];
    assert!(precond_load_cm(&good));
    assert_eq!(metadata_load_cm(&good), vec![None, Some("64".to_string())]);
    assert!(same_meta(&set_shapes_load_cm(&good), vec![64, 64], Dtype::BF16));
}

#[test]
fn store_rules_divide_toward_zero() {
    let rm = vec![ti(vec![4, 64], Dtype::BF16), ti(vec![4, 64, 2], Dtype::U8), ti(vec![512], Dtype::U8)];
    assert!(precond_store_rm(&rm));
    assert_eq!(metadata_store_rm(&rm), vec![None, Some("4".to_string())]);
    assert!(same_meta(&set_shapes_store_rm(&rm), vec![512], Dtype::U8));
    let odd = vec![ti(vec![4, 64], Dtype::BF16), ti(vec![4, 64, 2], Dtype::U8), ti(vec![600], Dtype::U8)];
    assert!(!precond_store_rm(&odd));
    assert!(same_meta(&set_shapes_store_rm(&odd), vec![512], Dtype::U8));
    let negative = vec![ti(vec![-1, 64], Dtype::BF16), ti(vec![-1, 64, 2], Dtype::U8), ti(vec![-200], Dtype::U8)];
    assert_eq!(metadata_store_rm(&negative), vec![None, Some("-1".to_string())]);
    assert!(!precond_store_rm(&negative));

    let cm = vec![
        ti(vec![2, 64], Dtype::BF16),
        ti(vec![64, 2], Dtype::BF16),
        ti(vec![64, 2, 2], Dtype::U8),
        ti(vec![256], Dtype::U8),
    ];
    assert!(precond_store_cm(&cm));
    assert_eq!(metadata_store_cm(&cm), vec![None, Some("2".to_string())]);
    assert!(same_meta(&set_shapes_store_cm(&cm), vec![256], Dtype::U8));
}

#[test]
fn compute_rules_check_shapes() {
    let mov = vec![ti(vec![3, 64], Dtype::BF16), ti(vec![3, 64], Dtype::BF16)];
    assert!(precond_mov(&mov));
    assert_eq!(metadata_mov(&mov), vec![None, Some("3".to_string())]);
    assert!(same_meta(&set_shapes_mov(&mov), vec![3, 64], Dtype::BF16));
    assert!(!precond_mov(&vec![ti(vec![2, 64], Dtype::BF16), ti(vec![3, 64], Dtype::BF16)]));

    let tile = ti(vec![64, 64], Dtype::BF16);
    let gemm = vec![tile.clone(), tile.clone(), tile.clone()];
    assert!(precond_gemm(&gemm));
    assert_eq!(metadata_gemm(&gemm), vec![None, None, None]);
    assert!(same_meta(&set_shapes_gemm(&gemm), vec![64, 64], Dtype::BF16));
    assert!(!precond_gemm(&vec![tile.clone(), ti(vec![64, 32], Dtype::BF16), tile.clone()]));

    let row = ti(vec![2, 64], Dtype::BF16);
    let mut softmax = vec![row.clone(), row.clone(), row.clone(), row.clone(), ti(vec![2], Dtype::BF16), row.clone(), row.clone()];
    assert!(precond_softmax(&softmax));
    assert_eq!(metadata_softmax(&softmax), vec![None, Some("2".to_string())]);
    assert!(same_meta(&set_shapes_softmax(&softmax), vec![2, 64], Dtype::BF16));
    softmax[4] = ti(vec![2, 64], Dtype::BF16);
    assert!(!precond_softmax(&softmax));
}

#[test]
fn constant_flag_is_ignored_by_side_conditions() {
    let mut m = ti(vec![3, 64], Dtype::BF16);
    m.is_const = true;
    assert!(precond_mov(&vec![m.clone(), ti(vec![3, 64], Dtype::BF16)]));
}

#[test]
fn alpha_children_are_united_with_the_first() {
    let mut unions: Vec<(usize, usize)> = vec![(9, 9)];
    add_child_unions(&mut unions, &[1, 2, 1, 3]);
    assert_eq!(unions, vec![(9, 9), (1, 2), (1, 3)]);
    add_child_unions(&mut unions, &[5]);
    add_child_unions(&mut unions, &[]);
    assert_eq!(unions.len(), 3);
}

#[test]
fn rule_files_keep_non_empty_lines() {
    assert_eq!(rule_lines("a => b\n\nc => d\n"), vec!["a => b".to_string(), "c => d".to_string()]);
    assert_eq!(rule_lines(""), Vec::<String>::new());
    assert_eq!(rule_lines("\n\n"), Vec::<String>::new());
    assert_eq!(rule_lines("x"), vec!["x".to_string()]);
    assert_eq!(rule_lines("é\nü"), vec!["é".to_string(), "ü".to_string()]);
}
