use vstd::prelude::*;

use crate::ir::dtype::Dtype;
use crate::ir::egraph::{InfoView, TensorInfo};
use crate::text::{int_text, int_to_string};

verus! {

/// Integer division rounding toward zero, as `/` on machine integers does.
pub open spec fn div_toward_zero(a: int, b: int) -> int {
    if a >= 0 {
        a / b
    } else {
        -((-a) / b)
    }
}

/// Whether metadata `m` has exactly the dimensions `dims` and the element type
/// `dtype` (the constant flag is not compared, as metadata equality ignores it).
pub open spec fn has_meta(m: InfoView, dims: Seq<int>, dtype: Dtype) -> bool {
    &&& m.dtype == dtype
    &&& m.shape.len() == dims.len()
    &&& forall|i: int| 0 <= i < dims.len() ==> m.shape[i] as int == dims[i]
}

/// Non-constant metadata with the given dimensions and element type.
pub open spec fn meta_of(dims: Seq<int>, dtype: Dtype) -> InfoView {
    InfoView { shape: dims.map_values(|d: int| d as i32), dtype, is_const: false }
}

/// First dimension of the metadata.
pub open spec fn lead(m: InfoView) -> int {
    m.shape[0] as int
}

/// Whether `n * 128` fits in an `i32`.
pub open spec fn bytes_fit(n: int) -> bool {
    i32::MIN <= n * 128 <= i32::MAX
}

/// Rule metadata: no payload for the pattern's first node, the row count `n`
/// printed as the payload of the instruction.
pub open spec fn rows_payload(n: int) -> Seq<Option<Seq<char>>> {
    seq![None, Some(int_text(n))]
}

/// The payloads of a produced rule right-hand side.
pub open spec fn payload_views(v: Seq<Option<String>>) -> Seq<Option<Seq<char>>> {
    v.map_values(|o: Option<String>| match o {
        Some(s) => Some(s@),
        None => None,
    })
}

fn has_meta1(m: &TensorInfo, a: i32, dtype: Dtype) -> (r: bool)
    ensures
        r == has_meta(m@, seq![a as int], dtype),
{
    let r = m.dtype == dtype && m.shape.len() == 1 && m.shape[0] == a;
    assert(seq![a as int][0] == a as int);
    r
}

fn has_meta2(m: &TensorInfo, a: i32, b: i32, dtype: Dtype) -> (r: bool)
    ensures
        r == has_meta(m@, seq![a as int, b as int], dtype),
{
    assert(seq![a as int, b as int][0] == a as int && seq![a as int, b as int][1] == b as int);
    m.dtype == dtype && m.shape.len() == 2 && m.shape[0] == a && m.shape[1] == b
}

fn has_meta3(m: &TensorInfo, a: i32, b: i32, c: i32, dtype: Dtype) -> (r: bool)
    ensures
        r == has_meta(m@, seq![a as int, b as int, c as int], dtype),
{
    let ghost d = seq![a as int, b as int, c as int];
    assert(d[0] == a as int && d[1] == b as int && d[2] == c as int);
    m.dtype == dtype && m.shape.len() == 3 && m.shape[0] == a && m.shape[1] == b && m.shape[2] == c
}

fn meta1(a: i32, dtype: Dtype) -> (r: TensorInfo)
    ensures
        r@ == meta_of(seq![a as int], dtype),
{
    let mut shape: Vec<i32> = Vec::new();
    shape.push(a);
    let r = TensorInfo { shape, dtype, is_const: false };
    assert(r@.shape == seq![a as int].map_values(|d: int| d as i32));
    r
}

fn meta2(a: i32, b: i32, dtype: Dtype) -> (r: TensorInfo)
    ensures
        r@ == meta_of(seq![a as int, b as int], dtype),
{
    let mut shape: Vec<i32> = Vec::new();
    shape.push(a);
    shape.push(b);
    let r = TensorInfo { shape, dtype, is_const: false };
    assert(r@.shape == seq![a as int, b as int].map_values(|d: int| d as i32));
    r
}

fn rows_metadata(n: i32) -> (r: Vec<Option<String>>)
    ensures
        payload_views(r@) == rows_payload(n as int),
{
    let mut r: Vec<Option<String>> = Vec::new();
    r.push(None);
    r.push(Some(int_to_string(n as i64)));
    assert(payload_views(r@) == rows_payload(n as int));
    r
}

/// Side condition of the row-major load of `n` rows of 64 `bf16` values from an HBM buffer of
/// `n*128` bytes: the metadata of the matched classes.
pub open spec fn load_rm_applies(md: Seq<InfoView>) -> bool {
    let n = lead(md[2]);
    &&& has_meta(md[0], seq![n * 128], Dtype::U8)
    &&& has_meta(md[1], seq![n, 64, 2], Dtype::U8)
    &&& has_meta(md[2], seq![n, 64], Dtype::BF16)
}

/// Whether the row-major load of `n` rows of 64 `bf16` values from an HBM buffer of `n*128` bytes
/// applies to the classes with metadata `lhs_metadata`.
pub fn precond_load_rm(lhs_metadata: &Vec<TensorInfo>) -> (r: bool)
    requires
        lhs_metadata.len() == 3,
        lhs_metadata@[2].shape.len() > 0,
        bytes_fit(lead(lhs_metadata@[2]@)),
    ensures
        r == load_rm_applies(lhs_metadata@.map_values(|m: TensorInfo| m@)),
{
    let n = lhs_metadata[2].shape[0];
    let ghost md = lhs_metadata@.map_values(|m: TensorInfo| m@);
    assert(forall|i: int| 0 <= i < 3 ==> md[i] == lhs_metadata@[i]@);
    if !has_meta1(&lhs_metadata[0], n * 128, Dtype::U8) {
        return false;
    }
    if !has_meta3(&lhs_metadata[1], n, 64, 2, Dtype::U8) {
        return false;
    }
    if !has_meta2(&lhs_metadata[2], n, 64, Dtype::BF16) {
        return false;
    }
    true
}

/// Payloads of the instructions of this rule, by the matched classes' metadata.
pub open spec fn load_rm_payload(md: Seq<InfoView>) -> Seq<Option<Seq<char>>> {
    rows_payload(lead(md[2]))
}

/// Payloads of the instructions that the row-major load of `n` rows of 64 `bf16` values from an HBM
/// buffer of `n*128` bytes produces.
pub fn metadata_load_rm(lhs_metadata: &Vec<TensorInfo>) -> (r: Vec<Option<String>>)
    requires
        lhs_metadata.len() == 3,
        lhs_metadata@[2].shape.len() > 0,
    ensures
        payload_views(r@) == load_rm_payload(lhs_metadata@.map_values(|m: TensorInfo| m@)),
{
    let ghost md = lhs_metadata@.map_values(|m: TensorInfo| m@);
    assert(md[2] == lhs_metadata@[2]@);
    let n = lhs_metadata[2].shape[0];
    rows_metadata(n)
}

/// Metadata that the row-major load of `n` rows of 64 `bf16` values from an HBM buffer of `n*128`
/// bytes gives the class of the instruction.
pub open spec fn load_rm_output(md: Seq<InfoView>) -> InfoView {
    let n = lead(md[2]);
    meta_of(seq![n, 64], Dtype::BF16)
}

/// Metadata of the class that the row-major load of `n` rows of 64 `bf16` values from an HBM buffer
/// of `n*128` bytes produces.
pub fn set_shapes_load_rm(lhs_metadata: &Vec<TensorInfo>) -> (r: TensorInfo)
    requires
        lhs_metadata.len() == 3,
        lhs_metadata@[2].shape.len() > 0,
    ensures
        r@ == load_rm_output(lhs_metadata@.map_values(|m: TensorInfo| m@)),
{
    let n = lhs_metadata[2].shape[0];
    let ghost md = lhs_metadata@.map_values(|m: TensorInfo| m@);
    assert(md[2] == lhs_metadata@[2]@);
    meta2(n, 64, Dtype::BF16)
}

/// Where the row-major load of `n` rows of 64 `bf16` values from an HBM buffer of `n*128` bytes
/// applies, the metadata it gives the instruction's class is the shape and type that the rewritten
/// class already has.
pub proof fn lemma_load_rm_output_agrees(md: Seq<InfoView>)
    requires
        md.len() == 3,
        load_rm_applies(md),
    ensures
        load_rm_output(md).shape == md[2].shape,
        load_rm_output(md).dtype == md[2].dtype,
{
    assert(load_rm_output(md).shape =~= md[2].shape);
}

/// Side condition of the column-major load of an HBM buffer of `n*128` bytes into a `64 x n` tile:
/// the metadata of the matched classes.
pub open spec fn load_cm_applies(md: Seq<InfoView>) -> bool {
    let n = lead(md[3]);
    &&& has_meta(md[0], seq![n * 128], Dtype::U8)
    &&& has_meta(md[1], seq![n, 64, 2], Dtype::U8)
    &&& has_meta(md[2], seq![n, 64], Dtype::BF16)
    &&& has_meta(md[3], seq![64, n], Dtype::BF16)
}

/// Whether the column-major load of an HBM buffer of `n*128` bytes into a `64 x n` tile applies to
/// the classes with metadata `lhs_metadata`.
pub fn precond_load_cm(lhs_metadata: &Vec<TensorInfo>) -> (r: bool)
    requires
        lhs_metadata.len() == 4,
        lhs_metadata@[3].shape.len() > 0,
        bytes_fit(lead(lhs_metadata@[3]@)),
    ensures
        r == load_cm_applies(lhs_metadata@.map_values(|m: TensorInfo| m@)),
{
    let n = lhs_metadata[3].shape[0];
    let ghost md = lhs_metadata@.map_values(|m: TensorInfo| m@);
    assert(forall|i: int| 0 <= i < 4 ==> md[i] == lhs_metadata@[i]@);
    if !has_meta1(&lhs_metadata[0], n * 128, Dtype::U8) {
        return false;
    }
    if !has_meta3(&lhs_metadata[1], n, 64, 2, Dtype::U8) {
        return false;
    }
    if !has_meta2(&lhs_metadata[2], n, 64, Dtype::BF16) {
        return false;
    }
    if !has_meta2(&lhs_metadata[3], 64, n, Dtype::BF16) {
        return false;
    }
    true
}

/// Payloads of the instructions of this rule, by the matched classes' metadata.
pub open spec fn load_cm_payload(md: Seq<InfoView>) -> Seq<Option<Seq<char>>> {
    rows_payload(lead(md[3]))
}

/// Payloads of the instructions that the column-major load of an HBM buffer of `n*128` bytes into a
/// `64 x n` tile produces.
pub fn metadata_load_cm(lhs_metadata: &Vec<TensorInfo>) -> (r: Vec<Option<String>>)
    requires
        lhs_metadata.len() == 4,
        lhs_metadata@[3].shape.len() > 0,
    ensures
        payload_views(r@) == load_cm_payload(lhs_metadata@.map_values(|m: TensorInfo| m@)),
{
    let ghost md = lhs_metadata@.map_values(|m: TensorInfo| m@);
    assert(md[3] == lhs_metadata@[3]@);
    let n = lhs_metadata[3].shape[0];
    rows_metadata(n)
}

/// Metadata that the column-major load of an HBM buffer of `n*128` bytes into a `64 x n` tile gives
/// the class of the instruction.
pub open spec fn load_cm_output(md: Seq<InfoView>) -> InfoView {
    let n = lead(md[3]);
    meta_of(seq![64, n], Dtype::BF16)
}

/// Metadata of the class that the column-major load of an HBM buffer of `n*128` bytes into a `64 x
/// n` tile produces.
pub fn set_shapes_load_cm(lhs_metadata: &Vec<TensorInfo>) -> (r: TensorInfo)
    requires
        lhs_metadata.len() == 4,
        lhs_metadata@[3].shape.len() > 0,
    ensures
        r@ == load_cm_output(lhs_metadata@.map_values(|m: TensorInfo| m@)),
{
    let n = lhs_metadata[3].shape[0];
    let ghost md = lhs_metadata@.map_values(|m: TensorInfo| m@);
    assert(md[3] == lhs_metadata@[3]@);
    meta2(64, n, Dtype::BF16)
}

/// Where the column-major load of an HBM buffer of `n*128` bytes into a `64 x n` tile applies, the
/// metadata it gives the instruction's class is the shape and type that the rewritten class already
/// has.
pub proof fn lemma_load_cm_output_agrees(md: Seq<InfoView>)
    requires
        md.len() == 4,
        load_cm_applies(md),
    ensures
        load_cm_output(md).shape == md[3].shape,
        load_cm_output(md).dtype == md[3].dtype,
{
    assert(load_cm_output(md).shape =~= md[3].shape);
}

/// Side condition of the row-major store of `n` rows of 64 `bf16` values into an HBM buffer of
/// `n*128` bytes: the metadata of the matched classes.
pub open spec fn store_rm_applies(md: Seq<InfoView>) -> bool {
    let n = div_toward_zero(lead(md[2]), 128);
    &&& has_meta(md[0], seq![n, 64], Dtype::BF16)
    &&& has_meta(md[1], seq![n, 64, 2], Dtype::U8)
    &&& has_meta(md[2], seq![n * 128], Dtype::U8)
}

/// Whether the row-major store of `n` rows of 64 `bf16` values into an HBM buffer of `n*128` bytes
/// applies to the classes with metadata `lhs_metadata`.
pub fn precond_store_rm(lhs_metadata: &Vec<TensorInfo>) -> (r: bool)
    requires
        lhs_metadata.len() == 3,
        lhs_metadata@[2].shape.len() > 0,
    ensures
        r == store_rm_applies(lhs_metadata@.map_values(|m: TensorInfo| m@)),
{
    let n = lhs_metadata[2].shape[0] / 128;
    let ghost md = lhs_metadata@.map_values(|m: TensorInfo| m@);
    assert(forall|i: int| 0 <= i < 3 ==> md[i] == lhs_metadata@[i]@);
    if !has_meta2(&lhs_metadata[0], n, 64, Dtype::BF16) {
        return false;
    }
    if !has_meta3(&lhs_metadata[1], n, 64, 2, Dtype::U8) {
        return false;
    }
    if !has_meta1(&lhs_metadata[2], n * 128, Dtype::U8) {
        return false;
    }
    true
}

/// Payloads of the instructions of this rule, by the matched classes' metadata.
pub open spec fn store_rm_payload(md: Seq<InfoView>) -> Seq<Option<Seq<char>>> {
    rows_payload(div_toward_zero(lead(md[2]), 128))
}

/// Payloads of the instructions that the row-major store of `n` rows of 64 `bf16` values into an
/// HBM buffer of `n*128` bytes produces.
pub fn metadata_store_rm(lhs_metadata: &Vec<TensorInfo>) -> (r: Vec<Option<String>>)
    requires
        lhs_metadata.len() == 3,
        lhs_metadata@[2].shape.len() > 0,
    ensures
        payload_views(r@) == store_rm_payload(lhs_metadata@.map_values(|m: TensorInfo| m@)),
{
    let ghost md = lhs_metadata@.map_values(|m: TensorInfo| m@);
    assert(md[2] == lhs_metadata@[2]@);
    let n = lhs_metadata[2].shape[0] / 128;
    rows_metadata(n)
}

/// Metadata that the row-major store of `n` rows of 64 `bf16` values into an HBM buffer of `n*128`
/// bytes gives the class of the instruction.
pub open spec fn store_rm_output(md: Seq<InfoView>) -> InfoView {
    let n = div_toward_zero(lead(md[2]), 128);
    meta_of(seq![n * 128], Dtype::U8)
}

/// Metadata of the class that the row-major store of `n` rows of 64 `bf16` values into an HBM
/// buffer of `n*128` bytes produces.
pub fn set_shapes_store_rm(lhs_metadata: &Vec<TensorInfo>) -> (r: TensorInfo)
    requires
        lhs_metadata.len() == 3,
        lhs_metadata@[2].shape.len() > 0,
    ensures
        r@ == store_rm_output(lhs_metadata@.map_values(|m: TensorInfo| m@)),
{
    let n = lhs_metadata[2].shape[0] / 128;
    let ghost md = lhs_metadata@.map_values(|m: TensorInfo| m@);
    assert(md[2] == lhs_metadata@[2]@);
    meta1(n * 128, Dtype::U8)
}

/// Where the row-major store of `n` rows of 64 `bf16` values into an HBM buffer of `n*128` bytes
/// applies, the metadata it gives the instruction's class is the shape and type that the rewritten
/// class already has.
pub proof fn lemma_store_rm_output_agrees(md: Seq<InfoView>)
    requires
        md.len() == 3,
        store_rm_applies(md),
    ensures
        store_rm_output(md).shape == md[2].shape,
        store_rm_output(md).dtype == md[2].dtype,
{
    assert(store_rm_output(md).shape =~= md[2].shape);
}

/// Side condition of the column-major store of a `64 x n` tile into an HBM buffer of `n*128` bytes:
/// the metadata of the matched classes.
pub open spec fn store_cm_applies(md: Seq<InfoView>) -> bool {
    let n = div_toward_zero(lead(md[3]), 128);
    &&& has_meta(md[0], seq![n, 64], Dtype::BF16)
    &&& has_meta(md[1], seq![64, n], Dtype::BF16)
    &&& has_meta(md[2], seq![64, n, 2], Dtype::U8)
    &&& has_meta(md[3], seq![n * 128], Dtype::U8)
}

/// Whether the column-major store of a `64 x n` tile into an HBM buffer of `n*128` bytes applies to
/// the classes with metadata `lhs_metadata`.
pub fn precond_store_cm(lhs_metadata: &Vec<TensorInfo>) -> (r: bool)
    requires
        lhs_metadata.len() == 4,
        lhs_metadata@[3].shape.len() > 0,
    ensures
        r == store_cm_applies(lhs_metadata@.map_values(|m: TensorInfo| m@)),
{
    let n = lhs_metadata[3].shape[0] / 128;
    let ghost md = lhs_metadata@.map_values(|m: TensorInfo| m@);
    assert(forall|i: int| 0 <= i < 4 ==> md[i] == lhs_metadata@[i]@);
    if !has_meta2(&lhs_metadata[0], n, 64, Dtype::BF16) {
        return false;
    }
    if !has_meta2(&lhs_metadata[1], 64, n, Dtype::BF16) {
        return false;
    }
    if !has_meta3(&lhs_metadata[2], 64, n, 2, Dtype::U8) {
        return false;
    }
    if !has_meta1(&lhs_metadata[3], n * 128, Dtype::U8) {
        return false;
    }
    true
}

/// Payloads of the instructions of this rule, by the matched classes' metadata.
pub open spec fn store_cm_payload(md: Seq<InfoView>) -> Seq<Option<Seq<char>>> {
    rows_payload(div_toward_zero(lead(md[3]), 128))
}

/// Payloads of the instructions that the column-major store of a `64 x n` tile into an HBM buffer
/// of `n*128` bytes produces.
pub fn metadata_store_cm(lhs_metadata: &Vec<TensorInfo>) -> (r: Vec<Option<String>>)
    requires
        lhs_metadata.len() == 4,
        lhs_metadata@[3].shape.len() > 0,
    ensures
        payload_views(r@) == store_cm_payload(lhs_metadata@.map_values(|m: TensorInfo| m@)),
{
    let ghost md = lhs_metadata@.map_values(|m: TensorInfo| m@);
    assert(md[3] == lhs_metadata@[3]@);
    let n = lhs_metadata[3].shape[0] / 128;
    rows_metadata(n)
}

/// Metadata that the column-major store of a `64 x n` tile into an HBM buffer of `n*128` bytes
/// gives the class of the instruction.
pub open spec fn store_cm_output(md: Seq<InfoView>) -> InfoView {
    let n = div_toward_zero(lead(md[3]), 128);
    meta_of(seq![n * 128], Dtype::U8)
}

/// Metadata of the class that the column-major store of a `64 x n` tile into an HBM buffer of
/// `n*128` bytes produces.
pub fn set_shapes_store_cm(lhs_metadata: &Vec<TensorInfo>) -> (r: TensorInfo)
    requires
        lhs_metadata.len() == 4,
        lhs_metadata@[3].shape.len() > 0,
    ensures
        r@ == store_cm_output(lhs_metadata@.map_values(|m: TensorInfo| m@)),
{
    let n = lhs_metadata[3].shape[0] / 128;
    let ghost md = lhs_metadata@.map_values(|m: TensorInfo| m@);
    assert(md[3] == lhs_metadata@[3]@);
    meta1(n * 128, Dtype::U8)
}

/// Where the column-major store of a `64 x n` tile into an HBM buffer of `n*128` bytes applies, the
/// metadata it gives the instruction's class is the shape and type that the rewritten class already
/// has.
pub proof fn lemma_store_cm_output_agrees(md: Seq<InfoView>)
    requires
        md.len() == 4,
        store_cm_applies(md),
    ensures
        store_cm_output(md).shape == md[3].shape,
        store_cm_output(md).dtype == md[3].dtype,
{
    assert(store_cm_output(md).shape =~= md[3].shape);
}

/// Side condition of the move of `n` rows of 64 `bf16` values between on-chip buffers: the metadata
/// of the matched classes.
pub open spec fn mov_applies(md: Seq<InfoView>) -> bool {
    let n = lead(md[1]);
    &&& has_meta(md[0], seq![n, 64], Dtype::BF16)
    &&& has_meta(md[1], seq![n, 64], Dtype::BF16)
}

/// Whether the move of `n` rows of 64 `bf16` values between on-chip buffers applies to the classes
/// with metadata `lhs_metadata`.
pub fn precond_mov(lhs_metadata: &Vec<TensorInfo>) -> (r: bool)
    requires
        lhs_metadata.len() == 2,
        lhs_metadata@[1].shape.len() > 0,
    ensures
        r == mov_applies(lhs_metadata@.map_values(|m: TensorInfo| m@)),
{
    let n = lhs_metadata[1].shape[0];
    let ghost md = lhs_metadata@.map_values(|m: TensorInfo| m@);
    assert(forall|i: int| 0 <= i < 2 ==> md[i] == lhs_metadata@[i]@);
    if !has_meta2(&lhs_metadata[0], n, 64, Dtype::BF16) {
        return false;
    }
    if !has_meta2(&lhs_metadata[1], n, 64, Dtype::BF16) {
        return false;
    }
    true
}

/// Payloads of the instructions of this rule, by the matched classes' metadata.
pub open spec fn mov_payload(md: Seq<InfoView>) -> Seq<Option<Seq<char>>> {
    rows_payload(lead(md[1]))
}

/// Payloads of the instructions that the move of `n` rows of 64 `bf16` values between on-chip
/// buffers produces.
pub fn metadata_mov(lhs_metadata: &Vec<TensorInfo>) -> (r: Vec<Option<String>>)
    requires
        lhs_metadata.len() == 2,
        lhs_metadata@[1].shape.len() > 0,
    ensures
        payload_views(r@) == mov_payload(lhs_metadata@.map_values(|m: TensorInfo| m@)),
{
    let ghost md = lhs_metadata@.map_values(|m: TensorInfo| m@);
    assert(md[1] == lhs_metadata@[1]@);
    let n = lhs_metadata[1].shape[0];
    rows_metadata(n)
}

/// Metadata that the move of `n` rows of 64 `bf16` values between on-chip buffers gives the class
/// of the instruction.
pub open spec fn mov_output(md: Seq<InfoView>) -> InfoView {
    let n = lead(md[1]);
    meta_of(seq![n, 64], Dtype::BF16)
}

/// Metadata of the class that the move of `n` rows of 64 `bf16` values between on-chip buffers
/// produces.
pub fn set_shapes_mov(lhs_metadata: &Vec<TensorInfo>) -> (r: TensorInfo)
    requires
        lhs_metadata.len() == 2,
        lhs_metadata@[1].shape.len() > 0,
    ensures
        r@ == mov_output(lhs_metadata@.map_values(|m: TensorInfo| m@)),
{
    let n = lhs_metadata[1].shape[0];
    let ghost md = lhs_metadata@.map_values(|m: TensorInfo| m@);
    assert(md[1] == lhs_metadata@[1]@);
    meta2(n, 64, Dtype::BF16)
}

/// Where the move of `n` rows of 64 `bf16` values between on-chip buffers applies, the metadata it
/// gives the instruction's class is the shape and type that the rewritten class already has.
pub proof fn lemma_mov_output_agrees(md: Seq<InfoView>)
    requires
        md.len() == 2,
        mov_applies(md),
    ensures
        mov_output(md).shape == md[1].shape,
        mov_output(md).dtype == md[1].dtype,
{
    assert(mov_output(md).shape =~= md[1].shape);
}

/// Side condition of the multiplication of two `64 x 64` `bf16` tiles: the metadata of the matched
/// classes.
pub open spec fn gemm_applies(md: Seq<InfoView>) -> bool {
    &&& has_meta(md[0], seq![64, 64], Dtype::BF16)
    &&& has_meta(md[1], seq![64, 64], Dtype::BF16)
    &&& has_meta(md[2], seq![64, 64], Dtype::BF16)
}

/// Whether the multiplication of two `64 x 64` `bf16` tiles applies to the classes with metadata
/// `lhs_metadata`.
pub fn precond_gemm(lhs_metadata: &Vec<TensorInfo>) -> (r: bool)
    requires
        lhs_metadata.len() == 3,
    ensures
        r == gemm_applies(lhs_metadata@.map_values(|m: TensorInfo| m@)),
{
    let ghost md = lhs_metadata@.map_values(|m: TensorInfo| m@);
    assert(forall|i: int| 0 <= i < 3 ==> md[i] == lhs_metadata@[i]@);
    if !has_meta2(&lhs_metadata[0], 64, 64, Dtype::BF16) {
        return false;
    }
    if !has_meta2(&lhs_metadata[1], 64, 64, Dtype::BF16) {
        return false;
    }
    if !has_meta2(&lhs_metadata[2], 64, 64, Dtype::BF16) {
        return false;
    }
    true
}

/// Payloads of the instructions of the matrix multiplication: none.
pub open spec fn gemm_payload(md: Seq<InfoView>) -> Seq<Option<Seq<char>>> {
    seq![None::<Seq<char>>, None, None]
}

/// Payloads of the instructions that the multiplication of two `64 x 64` `bf16` tiles produces.
pub fn metadata_gemm(lhs_metadata: &Vec<TensorInfo>) -> (r: Vec<Option<String>>)
    requires
        lhs_metadata.len() == 3,
    ensures
        payload_views(r@) == gemm_payload(lhs_metadata@.map_values(|m: TensorInfo| m@)),
{
    let mut r: Vec<Option<String>> = Vec::new();
    r.push(None);
    r.push(None);
    r.push(None);
    assert(payload_views(r@) == seq![None::<Seq<char>>, None, None]);
    r
}

/// Metadata that the multiplication of two `64 x 64` `bf16` tiles gives the class of the
/// instruction.
pub open spec fn gemm_output(md: Seq<InfoView>) -> InfoView {
    meta_of(seq![64, 64], Dtype::BF16)
}

/// Metadata of the class that the multiplication of two `64 x 64` `bf16` tiles produces.
pub fn set_shapes_gemm(lhs_metadata: &Vec<TensorInfo>) -> (r: TensorInfo)
    requires
        lhs_metadata.len() == 3,
    ensures
        r@ == gemm_output(lhs_metadata@.map_values(|m: TensorInfo| m@)),
{
    meta2(64, 64, Dtype::BF16)
}

/// Where the multiplication of two `64 x 64` `bf16` tiles applies, the metadata it gives the
/// instruction's class is the shape and type that the rewritten class already has.
pub proof fn lemma_gemm_output_agrees(md: Seq<InfoView>)
    requires
        md.len() == 3,
        gemm_applies(md),
    ensures
        gemm_output(md).shape == md[2].shape,
        gemm_output(md).dtype == md[2].dtype,
{
    assert(gemm_output(md).shape =~= md[2].shape);
}

/// Side condition of the softmax over `n` rows of 64 `bf16` values: the metadata of the matched
/// classes.
pub open spec fn softmax_applies(md: Seq<InfoView>) -> bool {
    let n = lead(md[6]);
    &&& has_meta(md[0], seq![n, 64], Dtype::BF16)
    &&& has_meta(md[1], seq![n, 64], Dtype::BF16)
    &&& has_meta(md[2], seq![n, 64], Dtype::BF16)
    &&& has_meta(md[3], seq![n, 64], Dtype::BF16)
    &&& has_meta(md[4], seq![n], Dtype::BF16)
    &&& has_meta(md[5], seq![n, 64], Dtype::BF16)
    &&& has_meta(md[6], seq![n, 64], Dtype::BF16)
}

/// Whether the softmax over `n` rows of 64 `bf16` values applies to the classes with metadata
/// `lhs_metadata`.
pub fn precond_softmax(lhs_metadata: &Vec<TensorInfo>) -> (r: bool)
    requires
        lhs_metadata.len() == 7,
        lhs_metadata@[6].shape.len() > 0,
    ensures
        r == softmax_applies(lhs_metadata@.map_values(|m: TensorInfo| m@)),
{
    let n = lhs_metadata[6].shape[0];
    let ghost md = lhs_metadata@.map_values(|m: TensorInfo| m@);
    assert(forall|i: int| 0 <= i < 7 ==> md[i] == lhs_metadata@[i]@);
    if !has_meta2(&lhs_metadata[0], n, 64, Dtype::BF16) {
        return false;
    }
    if !has_meta2(&lhs_metadata[1], n, 64, Dtype::BF16) {
        return false;
    }
    if !has_meta2(&lhs_metadata[2], n, 64, Dtype::BF16) {
        return false;
    }
    if !has_meta2(&lhs_metadata[3], n, 64, Dtype::BF16) {
        return false;
    }
    if !has_meta1(&lhs_metadata[4], n, Dtype::BF16) {
        return false;
    }
    if !has_meta2(&lhs_metadata[5], n, 64, Dtype::BF16) {
        return false;
    }
    if !has_meta2(&lhs_metadata[6], n, 64, Dtype::BF16) {
        return false;
    }
    true
}

/// Payloads of the instructions of this rule, by the matched classes' metadata.
pub open spec fn softmax_payload(md: Seq<InfoView>) -> Seq<Option<Seq<char>>> {
    rows_payload(lead(md[6]))
}

/// Payloads of the instructions that the softmax over `n` rows of 64 `bf16` values produces.
pub fn metadata_softmax(lhs_metadata: &Vec<TensorInfo>) -> (r: Vec<Option<String>>)
    requires
        lhs_metadata.len() == 7,
        lhs_metadata@[6].shape.len() > 0,
    ensures
        payload_views(r@) == softmax_payload(lhs_metadata@.map_values(|m: TensorInfo| m@)),
{
    let ghost md = lhs_metadata@.map_values(|m: TensorInfo| m@);
    assert(md[6] == lhs_metadata@[6]@);
    let n = lhs_metadata[6].shape[0];
    rows_metadata(n)
}

/// Metadata that the softmax over `n` rows of 64 `bf16` values gives the class of the instruction.
pub open spec fn softmax_output(md: Seq<InfoView>) -> InfoView {
    let n = lead(md[6]);
    meta_of(seq![n, 64], Dtype::BF16)
}

/// Metadata of the class that the softmax over `n` rows of 64 `bf16` values produces.
pub fn set_shapes_softmax(lhs_metadata: &Vec<TensorInfo>) -> (r: TensorInfo)
    requires
        lhs_metadata.len() == 7,
        lhs_metadata@[6].shape.len() > 0,
    ensures
        r@ == softmax_output(lhs_metadata@.map_values(|m: TensorInfo| m@)),
{
    let n = lhs_metadata[6].shape[0];
    let ghost md = lhs_metadata@.map_values(|m: TensorInfo| m@);
    assert(md[6] == lhs_metadata@[6]@);
    meta2(n, 64, Dtype::BF16)
}

/// Where the softmax over `n` rows of 64 `bf16` values applies, the metadata it gives the
/// instruction's class is the shape and type that the rewritten class already has.
pub proof fn lemma_softmax_output_agrees(md: Seq<InfoView>)
    requires
        md.len() == 7,
        softmax_applies(md),
    ensures
        softmax_output(md).shape == md[6].shape,
        softmax_output(md).dtype == md[6].dtype,
{
    assert(softmax_output(md).shape =~= md[6].shape);
}


/// Metadata `m` is `dtype[a]`.
pub open spec fn shaped1(m: InfoView, a: int, dtype: Dtype) -> bool {
    has_meta(m, seq![a], dtype)
}

/// Metadata `m` is `dtype[a,b]`.
pub open spec fn shaped2(m: InfoView, a: int, b: int, dtype: Dtype) -> bool {
    has_meta(m, seq![a, b], dtype)
}

/// Metadata `m` is `dtype[a,b,c]`.
pub open spec fn shaped3(m: InfoView, a: int, b: int, c: int, dtype: Dtype) -> bool {
    has_meta(m, seq![a, b, c], dtype)
}

proof fn lemma_rows_of_bytes(n: int)
    ensures
        div_toward_zero(n * 128, 128) == n,
{
    if n >= 0 {
        assert((n * 128) / 128 == n) by (nonlinear_arith);
    } else {
        assert(-(n * 128) == (-n) * 128) by (nonlinear_arith);
        assert(((-n) * 128) / 128 == -n) by (nonlinear_arith)
            requires
                -n > 0,
        ;
    }
}

/// The row-major load applies exactly to an HBM buffer `u8[n*128]`, its byte view
/// `u8[n,64,2]` and the loaded tile `bf16[n,64]`, for one row count `n`.
pub proof fn lemma_load_rm_shapes(md: Seq<InfoView>)
    requires
        md.len() == 3,
        md[2].shape.len() > 0,
    ensures
        load_rm_applies(md) <==> exists|n: int|
            #![trigger shaped2(md[2], n, 64, Dtype::BF16)]
            shaped1(md[0], n * 128, Dtype::U8) && shaped3(md[1], n, 64, 2, Dtype::U8)
                && shaped2(md[2], n, 64, Dtype::BF16),
{
    let n = lead(md[2]);
    if load_rm_applies(md) {
        assert(shaped2(md[2], n, 64, Dtype::BF16));
    }
    if exists|n: int|
        #![trigger shaped2(md[2], n, 64, Dtype::BF16)]
        shaped1(md[0], n * 128, Dtype::U8) && shaped3(md[1], n, 64, 2, Dtype::U8)
            && shaped2(md[2], n, 64, Dtype::BF16) {
        let m = choose|m: int|
            #![trigger shaped2(md[2], m, 64, Dtype::BF16)]
            shaped1(md[0], m * 128, Dtype::U8) && shaped3(md[1], m, 64, 2, Dtype::U8)
                && shaped2(md[2], m, 64, Dtype::BF16);
        assert(seq![m, 64][0] == m);
        assert(m == n);
    }
}

/// The column-major load reads its row count `n` from the first dimension of the `64 x n` tile,
/// which must itself be 64: it applies exactly to an HBM buffer `u8[8192]`, its byte view
/// `u8[64,64,2]`, the row-major tile `bf16[64,64]` and the loaded tile `bf16[64,64]`.
pub proof fn lemma_load_cm_shapes(md: Seq<InfoView>)
    requires
        md.len() == 4,
        md[3].shape.len() > 0,
    ensures
        load_cm_applies(md) <==> shaped1(md[0], 8192, Dtype::U8) && shaped3(md[1], 64, 64, 2, Dtype::U8)
            && shaped2(md[2], 64, 64, Dtype::BF16) && shaped2(md[3], 64, 64, Dtype::BF16),
{
    assert(seq![64int, lead(md[3])][0] == 64);
}

/// The row-major store applies exactly to a tile `bf16[n,64]`, its byte view `u8[n,64,2]` and the
/// HBM buffer `u8[n*128]`, for one row count `n`.
pub proof fn lemma_store_rm_shapes(md: Seq<InfoView>)
    requires
        md.len() == 3,
        md[2].shape.len() > 0,
    ensures
        store_rm_applies(md) <==> exists|n: int|
            #![trigger shaped2(md[0], n, 64, Dtype::BF16)]
            shaped2(md[0], n, 64, Dtype::BF16) && shaped3(md[1], n, 64, 2, Dtype::U8)
                && shaped1(md[2], n * 128, Dtype::U8),
{
    let n = div_toward_zero(lead(md[2]), 128);
    if store_rm_applies(md) {
        assert(shaped2(md[0], n, 64, Dtype::BF16));
    }
    if exists|n: int|
        #![trigger shaped2(md[0], n, 64, Dtype::BF16)]
        shaped2(md[0], n, 64, Dtype::BF16) && shaped3(md[1], n, 64, 2, Dtype::U8)
            && shaped1(md[2], n * 128, Dtype::U8) {
        let m = choose|m: int|
            #![trigger shaped2(md[0], m, 64, Dtype::BF16)]
            shaped2(md[0], m, 64, Dtype::BF16) && shaped3(md[1], m, 64, 2, Dtype::U8)
                && shaped1(md[2], m * 128, Dtype::U8);
        assert(seq![m * 128][0] == m * 128);
        assert(lead(md[2]) == m * 128);
        lemma_rows_of_bytes(m);
        assert(n == m);
    }
}

/// The column-major store applies exactly to a tile `bf16[n,64]`, its transpose `bf16[64,n]`, the
/// byte view `u8[64,n,2]` and the HBM buffer `u8[n*128]`, for one `n`: it fails whenever one of
/// the four classes has another shape or type.
pub proof fn lemma_store_cm_shapes(md: Seq<InfoView>)
    requires
        md.len() == 4,
        md[3].shape.len() > 0,
    ensures
        store_cm_applies(md) <==> exists|n: int|
            #![trigger shaped2(md[0], n, 64, Dtype::BF16)]
            shaped2(md[0], n, 64, Dtype::BF16) && shaped2(md[1], 64, n, Dtype::BF16)
                && shaped3(md[2], 64, n, 2, Dtype::U8) && shaped1(md[3], n * 128, Dtype::U8),
{
    let n = div_toward_zero(lead(md[3]), 128);
    if store_cm_applies(md) {
        assert(shaped2(md[0], n, 64, Dtype::BF16));
    }
    if exists|n: int|
        #![trigger shaped2(md[0], n, 64, Dtype::BF16)]
        shaped2(md[0], n, 64, Dtype::BF16) && shaped2(md[1], 64, n, Dtype::BF16)
            && shaped3(md[2], 64, n, 2, Dtype::U8) && shaped1(md[3], n * 128, Dtype::U8) {
        let m = choose|m: int|
            #![trigger shaped2(md[0], m, 64, Dtype::BF16)]
            shaped2(md[0], m, 64, Dtype::BF16) && shaped2(md[1], 64, m, Dtype::BF16)
                && shaped3(md[2], 64, m, 2, Dtype::U8) && shaped1(md[3], m * 128, Dtype::U8);
        assert(seq![m * 128][0] == m * 128);
        assert(lead(md[3]) == m * 128);
        lemma_rows_of_bytes(m);
        assert(n == m);
    }
}

/// The move applies exactly to a source and a destination that are both `bf16[n,64]`, for one `n`.
pub proof fn lemma_mov_shapes(md: Seq<InfoView>)
    requires
        md.len() == 2,
        md[1].shape.len() > 0,
    ensures
        mov_applies(md) <==> exists|n: int|
            #![trigger shaped2(md[1], n, 64, Dtype::BF16)]
            shaped2(md[0], n, 64, Dtype::BF16) && shaped2(md[1], n, 64, Dtype::BF16),
{
    let n = lead(md[1]);
    if mov_applies(md) {
        assert(shaped2(md[1], n, 64, Dtype::BF16));
    }
    if exists|n: int|
        #![trigger shaped2(md[1], n, 64, Dtype::BF16)]
        shaped2(md[0], n, 64, Dtype::BF16) && shaped2(md[1], n, 64, Dtype::BF16) {
        let m = choose|m: int|
            #![trigger shaped2(md[1], m, 64, Dtype::BF16)]
            shaped2(md[0], m, 64, Dtype::BF16) && shaped2(md[1], m, 64, Dtype::BF16);
        assert(seq![m, 64][0] == m);
        assert(m == n);
    }
}

/// The matrix multiplication applies exactly when its result and both operands are `bf16[64,64]`
/// tiles.
pub proof fn lemma_gemm_shapes(md: Seq<InfoView>)
    requires
        md.len() == 3,
    ensures
        gemm_applies(md) <==> forall|i: int|
            0 <= i < 3 ==> (#[trigger] md[i]).dtype == Dtype::BF16 && md[i].shape.len() == 2 && md[i].shape[0] == 64
                && md[i].shape[1] == 64,
{
    let d = seq![64int, 64int];
    assert(d[0] == 64 && d[1] == 64);
    if forall|i: int|
        0 <= i < 3 ==> (#[trigger] md[i]).dtype == Dtype::BF16 && md[i].shape.len() == 2 && md[i].shape[0] == 64
            && md[i].shape[1] == 64 {
        assert(md[0].dtype == Dtype::BF16 && md[1].dtype == Dtype::BF16 && md[2].dtype == Dtype::BF16);
    }
}

/// The softmax applies exactly to six `bf16[n,64]` classes and one row vector `bf16[n]` (the fifth),
/// for one row count `n`.
pub proof fn lemma_softmax_shapes(md: Seq<InfoView>)
    requires
        md.len() == 7,
        md[6].shape.len() > 0,
    ensures
        softmax_applies(md) <==> exists|n: int|
            #![trigger shaped2(md[6], n, 64, Dtype::BF16)]
            shaped1(md[4], n, Dtype::BF16) && forall|i: int|
                0 <= i < 7 && i != 4 ==> shaped2(#[trigger] md[i], n, 64, Dtype::BF16),
{
    let n = lead(md[6]);
    if softmax_applies(md) {
        assert(shaped2(md[6], n, 64, Dtype::BF16));
        assert forall|i: int| 0 <= i < 7 && i != 4 implies shaped2(#[trigger] md[i], n, 64, Dtype::BF16) by {
            if i == 0 {
            } else if i == 1 {
            } else if i == 2 {
            } else if i == 3 {
            } else if i == 5 {
            } else {
            }
        }
    }
    if exists|n: int|
        #![trigger shaped2(md[6], n, 64, Dtype::BF16)]
        shaped1(md[4], n, Dtype::BF16) && forall|i: int|
            0 <= i < 7 && i != 4 ==> shaped2(#[trigger] md[i], n, 64, Dtype::BF16) {
        let m = choose|m: int|
            #![trigger shaped2(md[6], m, 64, Dtype::BF16)]
            shaped1(md[4], m, Dtype::BF16) && forall|i: int|
                0 <= i < 7 && i != 4 ==> shaped2(#[trigger] md[i], m, 64, Dtype::BF16);
        assert(shaped2(md[6], m, 64, Dtype::BF16));
        assert(seq![m, 64][0] == m);
        assert(m == n);
        assert(shaped2(md[0], m, 64, Dtype::BF16));
        assert(shaped2(md[1], m, 64, Dtype::BF16));
        assert(shaped2(md[2], m, 64, Dtype::BF16));
        assert(shaped2(md[3], m, 64, Dtype::BF16));
        assert(shaped2(md[5], m, 64, Dtype::BF16));
    }
}


/// Where a rule applies, the payload of its instruction is the row count of the tile it moves or
/// computes, printed in decimal (read from the tile itself, whichever class the rule reads it
/// from); the matrix multiplication, on fixed `64 x 64` tiles, carries none.
pub proof fn lemma_rule_payloads(md: Seq<InfoView>)
    ensures
        md.len() == 3 && md[2].shape.len() > 0 && load_rm_applies(md) ==> load_rm_payload(md) == seq![
            None,
            Some(int_text(md[1].shape[0] as int)),
        ],
        md.len() == 4 && md[3].shape.len() > 0 && load_cm_applies(md) ==> load_cm_payload(md) == seq![
            None,
            Some(int_text(md[2].shape[0] as int)),
        ],
        md.len() == 3 && md[2].shape.len() > 0 && store_rm_applies(md) ==> store_rm_payload(md) == seq![
            None,
            Some(int_text(md[0].shape[0] as int)),
        ],
        md.len() == 4 && md[3].shape.len() > 0 && store_cm_applies(md) ==> store_cm_payload(md) == seq![
            None,
            Some(int_text(md[0].shape[0] as int)),
        ],
        md.len() == 2 && md[1].shape.len() > 0 && mov_applies(md) ==> mov_payload(md) == seq![
            None,
            Some(int_text(md[0].shape[0] as int)),
        ],
        md.len() == 7 && md[6].shape.len() > 0 && softmax_applies(md) ==> softmax_payload(md) == seq![
            None,
            Some(int_text(md[4].shape[0] as int)),
        ],
        gemm_payload(md) == seq![None::<Seq<char>>, None, None],
{
    if md.len() == 3 && md[2].shape.len() > 0 && load_rm_applies(md) {
        assert(seq![lead(md[2]), 64, 2][0] == lead(md[2]));
    }
    if md.len() == 4 && md[3].shape.len() > 0 && load_cm_applies(md) {
        assert(seq![lead(md[3]), 64][0] == lead(md[3]));
        assert(seq![64, lead(md[3])][1] == lead(md[3]));
        assert(seq![64int, lead(md[3])][0] == 64);
    }
    if md.len() == 3 && md[2].shape.len() > 0 && store_rm_applies(md) {
        let n = div_toward_zero(lead(md[2]), 128);
        assert(seq![n, 64][0] == n);
    }
    if md.len() == 4 && md[3].shape.len() > 0 && store_cm_applies(md) {
        let n = div_toward_zero(lead(md[3]), 128);
        assert(seq![n, 64][0] == n);
    }
    if md.len() == 2 && md[1].shape.len() > 0 && mov_applies(md) {
        assert(seq![lead(md[1]), 64][0] == lead(md[1]));
    }
    if md.len() == 7 && md[6].shape.len() > 0 && softmax_applies(md) {
        assert(seq![lead(md[6])][0] == lead(md[6]));
    }
}

} // verus!
