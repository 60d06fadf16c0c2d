use vstd::prelude::*;

use crate::ir::egraph::{arity, OpKind, TensorOp};

verus! {

/// Memories of the accelerator: off-chip HBM, the two on-chip buffers, and
/// `ANY` for operations that work in whatever buffer their operands live in.
#[derive(Debug, PartialEq, Eq, Clone, Copy, Structural)]
pub enum Buffer {
    HBM,
    D1,
    D2,
    ANY,
}

/// Printed name of a concrete buffer.
pub open spec fn buffer_name(b: Buffer) -> Seq<char> {
    match b {
        Buffer::HBM => "HBM"@,
        Buffer::D1 => "D1"@,
        Buffer::D2 => "D2"@,
        Buffer::ANY => Seq::empty(),
    }
}

/// Buffers of an instruction e-node: its output buffer, then the buffer of each
/// input; `None` for operators that are not executable instructions.
pub open spec fn buffers_of(k: OpKind) -> Option<Seq<Buffer>> {
    match k {
        OpKind::LoadRm => Some(seq![Buffer::D1, Buffer::HBM]),
        OpKind::LoadCm => Some(seq![Buffer::D1, Buffer::HBM]),
        OpKind::StoreRm => Some(seq![Buffer::HBM, Buffer::D1]),
        OpKind::StoreCm => Some(seq![Buffer::HBM, Buffer::D1]),
        OpKind::Mov => Some(seq![Buffer::D1, Buffer::D2]),
        OpKind::Gemm => Some(seq![Buffer::D2, Buffer::D1, Buffer::D1]),
        OpKind::Softmax => Some(seq![Buffer::D2, Buffer::D2]),
        OpKind::OpSlice => Some(seq![Buffer::ANY, Buffer::ANY]),
        OpKind::OpConcat => Some(seq![Buffer::ANY, Buffer::ANY, Buffer::ANY]),
        OpKind::DetectedConst => Some(seq![Buffer::HBM]),
        OpKind::Var => Some(seq![Buffer::HBM]),
        _ => None,
    }
}

impl Buffer {
    /// Printed name of the buffer; `ANY` has none.
    pub fn name(&self) -> (r: &'static str)
        requires
            *self != Buffer::ANY,
        ensures
            r@ == buffer_name(*self),
    {
        match self {
            Buffer::HBM => "HBM",
            Buffer::D1 => "D1",
            Buffer::D2 => "D2",
            Buffer::ANY => "",
        }
    }
}

/// Buffer assignment of an instruction e-node: `Some([out_buf, in_buf1, ...])`,
/// or `None` when the e-node is not an instruction.
pub fn buffer_assignment(en: &TensorOp) -> (r: Option<Vec<Buffer>>)
    ensures
        r is Some <==> buffers_of(en@.kind) is Some,
        r matches Some(v) ==> v@ == buffers_of(en@.kind)->0,
{
    match en {
        TensorOp::LoadRm(_, _) => Some(vec![Buffer::D1, Buffer::HBM]),
        TensorOp::LoadCm(_, _) => Some(vec![Buffer::D1, Buffer::HBM]),
        TensorOp::StoreRm(_, _) => Some(vec![Buffer::HBM, Buffer::D1]),
        TensorOp::StoreCm(_, _) => Some(vec![Buffer::HBM, Buffer::D1]),
        TensorOp::Mov(_, _) => Some(vec![Buffer::D1, Buffer::D2]),
        TensorOp::Gemm(_) => Some(vec![Buffer::D2, Buffer::D1, Buffer::D1]),
        TensorOp::Softmax(_, _) => Some(vec![Buffer::D2, Buffer::D2]),
        TensorOp::OpSlice(_, _) => Some(vec![Buffer::ANY, Buffer::ANY]),
        TensorOp::OpConcat(_, _) => Some(vec![Buffer::ANY, Buffer::ANY, Buffer::ANY]),
        TensorOp::DetectedConst(_) => Some(vec![Buffer::HBM]),
        TensorOp::Var(_) => Some(vec![Buffer::HBM]),
        _ => None,
    }
}

/// Every instruction names a buffer for its output and one for each child.
pub proof fn lemma_buffers_cover_children(k: OpKind)
    requires
        buffers_of(k) is Some,
    ensures
        buffers_of(k)->0.len() == arity(k) + 1,
{
}


/// The accelerator's buffer table. Loads bring a tile from HBM into D1; stores
/// write a D1 tile to HBM; gemm multiplies two D1 tiles into D2; softmax reads
/// and writes D2; mov brings a D2 tile back to D1; slice and concat work in
/// whatever buffer their operands live in; constants and inputs live in HBM.
/// No other operator is an instruction.
pub proof fn lemma_accelerator_buffers()
    ensures
        buffers_of(OpKind::LoadRm) == Some(seq![Buffer::D1, Buffer::HBM]),
        buffers_of(OpKind::LoadCm) == Some(seq![Buffer::D1, Buffer::HBM]),
        buffers_of(OpKind::StoreRm) == Some(seq![Buffer::HBM, Buffer::D1]),
        buffers_of(OpKind::StoreCm) == Some(seq![Buffer::HBM, Buffer::D1]),
        buffers_of(OpKind::Mov) == Some(seq![Buffer::D1, Buffer::D2]),
        buffers_of(OpKind::Gemm) == Some(seq![Buffer::D2, Buffer::D1, Buffer::D1]),
        buffers_of(OpKind::Softmax) == Some(seq![Buffer::D2, Buffer::D2]),
        buffers_of(OpKind::OpSlice) == Some(seq![Buffer::ANY, Buffer::ANY]),
        buffers_of(OpKind::OpConcat) == Some(seq![Buffer::ANY, Buffer::ANY, Buffer::ANY]),
        buffers_of(OpKind::DetectedConst) == Some(seq![Buffer::HBM]),
        buffers_of(OpKind::Var) == Some(seq![Buffer::HBM]),
        forall|k: OpKind|
            #![trigger buffers_of(k)]
            buffers_of(k) is None <==> !(k == OpKind::LoadRm || k == OpKind::LoadCm || k == OpKind::StoreRm || k
                == OpKind::StoreCm || k == OpKind::Mov || k == OpKind::Gemm || k == OpKind::Softmax || k
                == OpKind::OpSlice || k == OpKind::OpConcat || k == OpKind::DetectedConst || k == OpKind::Var),
{
}


/// The buffers print under their own names, all distinct.
pub proof fn lemma_buffer_names()
    ensures
        buffer_name(Buffer::HBM) == "HBM"@,
        buffer_name(Buffer::D1) == "D1"@,
        buffer_name(Buffer::D2) == "D2"@,
        forall|a: Buffer, b: Buffer|
            a != Buffer::ANY && b != Buffer::ANY && #[trigger] buffer_name(a) == #[trigger] buffer_name(b) ==> a == b,
{
    reveal_strlit("HBM");
    reveal_strlit("D1");
    reveal_strlit("D2");
    assert forall|a: Buffer, b: Buffer|
        a != Buffer::ANY && b != Buffer::ANY && #[trigger] buffer_name(a) == #[trigger] buffer_name(b) implies a == b by {
        assert(buffer_name(a).len() == buffer_name(b).len());
        assert(buffer_name(a)[0] == buffer_name(b)[0]);
        if buffer_name(a).len() > 1 {
            assert(buffer_name(a)[1] == buffer_name(b)[1]);
        }
    }
}

} // verus!
