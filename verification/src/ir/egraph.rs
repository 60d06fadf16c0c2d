use vstd::prelude::*;

use crate::ir::dtype::Dtype;
use crate::text::{str_eq, first_segment, last_segment, seg_first, seg_last};

verus! {

/// The operator of a tensor e-node, without its payload or children.
#[derive(Debug, Clone, Copy, PartialEq, Eq, Structural)]
pub enum OpKind {
    LoadRm,
    LoadCm,
    StoreRm,
    StoreCm,
    Mov,
    Gemm,
    Softmax,
    OpAdd,
    OpBitcvt,
    OpBroadcast,
    OpConcat,
    OpConstant,
    OpConvert,
    OpCopy,
    OpDivide,
    OpDot,
    OpExp,
    OpEye,
    OpOr,
    OpReduceSum,
    OpReshape,
    OpShiftLeft,
    OpShiftRightLogical,
    OpSlice,
    OpXor,
    OpTranspose,
    AlphaHBM,
    DetectedConst,
    Var,
}

/// Mathematical model of an e-node: its operator, its textual payload (empty for
/// operators without one) and its child e-class ids.
#[verifier::ext_equal]
pub struct OpView {
    pub kind: OpKind,
    pub data: Seq<char>,
    pub children: Seq<usize>,
}

/// E-nodes of the tensor language: accelerator instructions, IR operators,
/// the alpha wrapper of a kernel output, detected constants and pattern variables.
#[derive(Debug, PartialEq, Eq, PartialOrd, Ord, Hash)]
pub enum TensorOp {
    // ISA instructions
    LoadRm(String, [usize; 1]),
    LoadCm(String, [usize; 1]),
    StoreRm(String, [usize; 1]),
    StoreCm(String, [usize; 1]),
    Mov(String, [usize; 1]),
    Gemm([usize; 2]),
    Softmax(String, [usize; 1]),
    // IR operators
    OpAdd([usize; 2]),
    OpBitcvt([usize; 1]),
    OpBroadcast(String, [usize; 1]),
    OpConcat(String, [usize; 2]),
    OpConstant(String),
    OpConvert(String, [usize; 1]),
    OpCopy([usize; 1]),
    OpDivide([usize; 2]),
    OpDot([usize; 2]),
    OpExp([usize; 1]),
    OpEye(String),
    OpOr([usize; 2]),
    OpReduceSum(String, [usize; 1]),
    OpReshape(String, [usize; 1]),
    OpShiftLeft([usize; 2]),
    OpShiftRightLogical([usize; 2]),
    OpSlice(String, [usize; 1]),
    OpXor([usize; 2]),
    OpTranspose(String, [usize; 1]),
    // other
    AlphaHBM(usize),
    DetectedConst(String),
    Var(String),
}

impl View for TensorOp {
    type V = OpView;

    open spec fn view(&self) -> OpView {
        match self {
            TensorOp::LoadRm(d, c) => OpView { kind: OpKind::LoadRm, data: d@, children: c@ },
            TensorOp::LoadCm(d, c) => OpView { kind: OpKind::LoadCm, data: d@, children: c@ },
            TensorOp::StoreRm(d, c) => OpView { kind: OpKind::StoreRm, data: d@, children: c@ },
            TensorOp::StoreCm(d, c) => OpView { kind: OpKind::StoreCm, data: d@, children: c@ },
            TensorOp::Mov(d, c) => OpView { kind: OpKind::Mov, data: d@, children: c@ },
            TensorOp::Gemm(c) => OpView { kind: OpKind::Gemm, data: Seq::empty(), children: c@ },
            TensorOp::Softmax(d, c) => OpView { kind: OpKind::Softmax, data: d@, children: c@ },
            TensorOp::OpAdd(c) => OpView { kind: OpKind::OpAdd, data: Seq::empty(), children: c@ },
            TensorOp::OpBitcvt(c) => OpView { kind: OpKind::OpBitcvt, data: Seq::empty(), children: c@ },
            TensorOp::OpBroadcast(d, c) => OpView { kind: OpKind::OpBroadcast, data: d@, children: c@ },
            TensorOp::OpConcat(d, c) => OpView { kind: OpKind::OpConcat, data: d@, children: c@ },
            TensorOp::OpConstant(d) => OpView { kind: OpKind::OpConstant, data: d@, children: Seq::empty() },
            TensorOp::OpConvert(d, c) => OpView { kind: OpKind::OpConvert, data: d@, children: c@ },
            TensorOp::OpCopy(c) => OpView { kind: OpKind::OpCopy, data: Seq::empty(), children: c@ },
            TensorOp::OpDivide(c) => OpView { kind: OpKind::OpDivide, data: Seq::empty(), children: c@ },
            TensorOp::OpDot(c) => OpView { kind: OpKind::OpDot, data: Seq::empty(), children: c@ },
            TensorOp::OpExp(c) => OpView { kind: OpKind::OpExp, data: Seq::empty(), children: c@ },
            TensorOp::OpEye(d) => OpView { kind: OpKind::OpEye, data: d@, children: Seq::empty() },
            TensorOp::OpOr(c) => OpView { kind: OpKind::OpOr, data: Seq::empty(), children: c@ },
            TensorOp::OpReduceSum(d, c) => OpView { kind: OpKind::OpReduceSum, data: d@, children: c@ },
            TensorOp::OpReshape(d, c) => OpView { kind: OpKind::OpReshape, data: d@, children: c@ },
            TensorOp::OpShiftLeft(c) => OpView { kind: OpKind::OpShiftLeft, data: Seq::empty(), children: c@ },
            TensorOp::OpShiftRightLogical(c) => OpView { kind: OpKind::OpShiftRightLogical, data: Seq::empty(), children: c@ },
            TensorOp::OpSlice(d, c) => OpView { kind: OpKind::OpSlice, data: d@, children: c@ },
            TensorOp::OpXor(c) => OpView { kind: OpKind::OpXor, data: Seq::empty(), children: c@ },
            TensorOp::OpTranspose(d, c) => OpView { kind: OpKind::OpTranspose, data: d@, children: c@ },
            TensorOp::AlphaHBM(c) => OpView { kind: OpKind::AlphaHBM, data: Seq::empty(), children: seq![*c] },
            TensorOp::DetectedConst(d) => OpView { kind: OpKind::DetectedConst, data: d@, children: Seq::empty() },
            TensorOp::Var(d) => OpView { kind: OpKind::Var, data: d@, children: Seq::empty() },
        }
    }
}

/// Number of children that e-nodes of the given operator have.
pub open spec fn arity(k: OpKind) -> nat {
    match k {
        OpKind::LoadRm => 1,
        OpKind::LoadCm => 1,
        OpKind::StoreRm => 1,
        OpKind::StoreCm => 1,
        OpKind::Mov => 1,
        OpKind::Gemm => 2,
        OpKind::Softmax => 1,
        OpKind::OpAdd => 2,
        OpKind::OpBitcvt => 1,
        OpKind::OpBroadcast => 1,
        OpKind::OpConcat => 2,
        OpKind::OpConstant => 0,
        OpKind::OpConvert => 1,
        OpKind::OpCopy => 1,
        OpKind::OpDivide => 2,
        OpKind::OpDot => 2,
        OpKind::OpExp => 1,
        OpKind::OpEye => 0,
        OpKind::OpOr => 2,
        OpKind::OpReduceSum => 1,
        OpKind::OpReshape => 1,
        OpKind::OpShiftLeft => 2,
        OpKind::OpShiftRightLogical => 2,
        OpKind::OpSlice => 1,
        OpKind::OpXor => 2,
        OpKind::OpTranspose => 1,
        OpKind::AlphaHBM => 1,
        OpKind::DetectedConst => 0,
        OpKind::Var => 0,
    }
}

/// Whether the operator carries a textual payload.
pub open spec fn has_data(k: OpKind) -> bool {
    match k {
        OpKind::LoadRm => true,
        OpKind::LoadCm => true,
        OpKind::StoreRm => true,
        OpKind::StoreCm => true,
        OpKind::Mov => true,
        OpKind::Gemm => false,
        OpKind::Softmax => true,
        OpKind::OpAdd => false,
        OpKind::OpBitcvt => false,
        OpKind::OpBroadcast => true,
        OpKind::OpConcat => true,
        OpKind::OpConstant => true,
        OpKind::OpConvert => true,
        OpKind::OpCopy => false,
        OpKind::OpDivide => false,
        OpKind::OpDot => false,
        OpKind::OpExp => false,
        OpKind::OpEye => true,
        OpKind::OpOr => false,
        OpKind::OpReduceSum => true,
        OpKind::OpReshape => true,
        OpKind::OpShiftLeft => false,
        OpKind::OpShiftRightLogical => false,
        OpKind::OpSlice => true,
        OpKind::OpXor => false,
        OpKind::OpTranspose => true,
        OpKind::AlphaHBM => false,
        OpKind::DetectedConst => true,
        OpKind::Var => true,
    }
}

/// Operators whose payload `set_metadata` fills in (all payload-carrying operators
/// but detected constants and pattern variables).
pub open spec fn takes_metadata(k: OpKind) -> bool {
    has_data(k) && k != OpKind::DetectedConst && k != OpKind::Var
}

/// Whether the view is the model of some e-node: its children count is its arity
/// and operators without payload carry none.
pub open spec fn well_shaped(v: OpView) -> bool {
    &&& v.children.len() == arity(v.kind)
    &&& !has_data(v.kind) ==> v.data.len() == 0
}

/// Printed form of an e-node.
pub open spec fn op_text(v: OpView) -> Seq<char> {
    match v.kind {
        OpKind::LoadRm => "load_rm[rows='"@ + v.data + "']"@,
        OpKind::LoadCm => "load_cm[rows='"@ + v.data + "']"@,
        OpKind::StoreRm => "store_rm[rows='"@ + v.data + "']"@,
        OpKind::StoreCm => "store_cm[rows='"@ + v.data + "']"@,
        OpKind::Mov => "mov[rows='"@ + v.data + "']"@,
        OpKind::Gemm => "gemm"@,
        OpKind::Softmax => "softmax[rows='"@ + v.data + "']"@,
        OpKind::OpAdd => "add"@,
        OpKind::OpBitcvt => "bitcvt"@,
        OpKind::OpBroadcast => "broadcast[dims='"@ + v.data + "']"@,
        OpKind::OpConcat => "concat[axis='"@ + v.data + "']"@,
        OpKind::OpConstant => "constant[value='"@ + v.data + "']"@,
        OpKind::OpConvert => "convert[dtype='"@ + v.data + "']"@,
        OpKind::OpCopy => "copy"@,
        OpKind::OpDivide => "divide"@,
        OpKind::OpDot => "dot"@,
        OpKind::OpExp => "exponential"@,
        OpKind::OpEye => "eye[ttype='"@ + v.data + "']"@,
        OpKind::OpOr => "or"@,
        OpKind::OpReduceSum => "reduce[dims='"@ + v.data + "']"@,
        OpKind::OpReshape => "reshape[shape='"@ + v.data + "']"@,
        OpKind::OpShiftLeft => "shift_left"@,
        OpKind::OpShiftRightLogical => "shift_right_logical"@,
        OpKind::OpSlice => "slice[slice='"@ + v.data + "']"@,
        OpKind::OpXor => "xor"@,
        OpKind::OpTranspose => "transpose[perm='"@ + v.data + "']"@,
        OpKind::AlphaHBM => "alpha_hbm"@,
        OpKind::DetectedConst => "DCC["@ + v.data + "]"@,
        OpKind::Var => "Var['"@ + v.data + "']"@,
    }
}

/// Operators 0 to 6 of the parse order (see `parse_op`).
pub open spec fn parse_op_part0(op: Seq<char>, ch: Seq<usize>) -> Option<OpView> {
    if seg_first(op) == "load-rm"@ && ch.len() == 1 {
        Some(OpView { kind: OpKind::LoadRm, data: seg_last(op), children: ch })
    } else if seg_first(op) == "load-cm"@ && ch.len() == 1 {
        Some(OpView { kind: OpKind::LoadCm, data: seg_last(op), children: ch })
    } else if seg_first(op) == "store-rm"@ && ch.len() == 1 {
        Some(OpView { kind: OpKind::StoreRm, data: seg_last(op), children: ch })
    } else if seg_first(op) == "store-cm"@ && ch.len() == 1 {
        Some(OpView { kind: OpKind::StoreCm, data: seg_last(op), children: ch })
    } else if seg_first(op) == "mov"@ && ch.len() == 1 {
        Some(OpView { kind: OpKind::Mov, data: seg_last(op), children: ch })
    } else if op == "gemm"@ && ch.len() == 2 {
        Some(OpView { kind: OpKind::Gemm, data: Seq::empty(), children: ch })
    } else if seg_first(op) == "softmax"@ && ch.len() == 1 {
        Some(OpView { kind: OpKind::Softmax, data: seg_last(op), children: ch })
    } else {
        None
    }
}

/// Operators 7 to 13 of the parse order (see `parse_op`).
pub open spec fn parse_op_part1(op: Seq<char>, ch: Seq<usize>) -> Option<OpView> {
    if op == "add"@ && ch.len() == 2 {
        Some(OpView { kind: OpKind::OpAdd, data: Seq::empty(), children: ch })
    } else if op == "bitcvt"@ && ch.len() == 1 {
        Some(OpView { kind: OpKind::OpBitcvt, data: Seq::empty(), children: ch })
    } else if seg_first(op) == "broadcast"@ && ch.len() == 1 {
        Some(OpView { kind: OpKind::OpBroadcast, data: seg_last(op), children: ch })
    } else if seg_first(op) == "concat"@ && ch.len() == 2 {
        Some(OpView { kind: OpKind::OpConcat, data: seg_last(op), children: ch })
    } else if seg_first(op) == "constant"@ && ch.len() == 0 {
        Some(OpView { kind: OpKind::OpConstant, data: seg_last(op), children: ch })
    } else if seg_first(op) == "convert"@ && ch.len() == 1 {
        Some(OpView { kind: OpKind::OpConvert, data: seg_last(op), children: ch })
    } else if op == "copy"@ && ch.len() == 1 {
        Some(OpView { kind: OpKind::OpCopy, data: Seq::empty(), children: ch })
    } else {
        None
    }
}

/// Operators 14 to 20 of the parse order (see `parse_op`).
pub open spec fn parse_op_part2(op: Seq<char>, ch: Seq<usize>) -> Option<OpView> {
    if op == "divide"@ && ch.len() == 2 {
        Some(OpView { kind: OpKind::OpDivide, data: Seq::empty(), children: ch })
    } else if op == "dot"@ && ch.len() == 2 {
        Some(OpView { kind: OpKind::OpDot, data: Seq::empty(), children: ch })
    } else if op == "exponential"@ && ch.len() == 1 {
        Some(OpView { kind: OpKind::OpExp, data: Seq::empty(), children: ch })
    } else if seg_first(op) == "eye"@ && ch.len() == 0 {
        Some(OpView { kind: OpKind::OpEye, data: seg_last(op), children: ch })
    } else if op == "or"@ && ch.len() == 2 {
        Some(OpView { kind: OpKind::OpOr, data: Seq::empty(), children: ch })
    } else if seg_first(op) == "reduce"@ && ch.len() == 1 {
        Some(OpView { kind: OpKind::OpReduceSum, data: seg_last(op), children: ch })
    } else if seg_first(op) == "reshape"@ && ch.len() == 1 {
        Some(OpView { kind: OpKind::OpReshape, data: seg_last(op), children: ch })
    } else {
        None
    }
}

/// Operators 21 to 26 of the parse order (see `parse_op`).
pub open spec fn parse_op_part3(op: Seq<char>, ch: Seq<usize>) -> Option<OpView> {
    if op == "shift-left"@ && ch.len() == 2 {
        Some(OpView { kind: OpKind::OpShiftLeft, data: Seq::empty(), children: ch })
    } else if op == "shift-right-logical"@ && ch.len() == 2 {
        Some(OpView { kind: OpKind::OpShiftRightLogical, data: Seq::empty(), children: ch })
    } else if seg_first(op) == "slice"@ && ch.len() == 1 {
        Some(OpView { kind: OpKind::OpSlice, data: seg_last(op), children: ch })
    } else if op == "xor"@ && ch.len() == 2 {
        Some(OpView { kind: OpKind::OpXor, data: Seq::empty(), children: ch })
    } else if seg_first(op) == "transpose"@ && ch.len() == 1 {
        Some(OpView { kind: OpKind::OpTranspose, data: seg_last(op), children: ch })
    } else if op.len() > 0 && op[0] == '?' && ch.len() == 0 {
        Some(OpView { kind: OpKind::Var, data: op, children: ch })
    } else {
        None
    }
}

/// The e-node that an operator string and child ids denote, tried against the
/// operators in order: operators with a payload match on the text before the
/// first `_` and take the text after the last `_` as payload; the others match
/// the whole string; a string starting with `?` and no children is a pattern variable.
pub open spec fn parse_op(op: Seq<char>, ch: Seq<usize>) -> Option<OpView> {
    match parse_op_part0(op, ch) {
        Some(v) => Some(v),
        None => match parse_op_part1(op, ch) {
            Some(v) => Some(v),
            None => match parse_op_part2(op, ch) {
                Some(v) => Some(v),
                None => parse_op_part3(op, ch),
            },
        },
    }
}

impl Clone for TensorOp {
    fn clone(&self) -> (r: Self)
        ensures
            r == *self,
    {
        match self {
            TensorOp::LoadRm(d, c) => TensorOp::LoadRm(d.clone(), *c),
            TensorOp::LoadCm(d, c) => TensorOp::LoadCm(d.clone(), *c),
            TensorOp::StoreRm(d, c) => TensorOp::StoreRm(d.clone(), *c),
            TensorOp::StoreCm(d, c) => TensorOp::StoreCm(d.clone(), *c),
            TensorOp::Mov(d, c) => TensorOp::Mov(d.clone(), *c),
            TensorOp::Gemm(c) => TensorOp::Gemm(*c),
            TensorOp::Softmax(d, c) => TensorOp::Softmax(d.clone(), *c),
            TensorOp::OpAdd(c) => TensorOp::OpAdd(*c),
            TensorOp::OpBitcvt(c) => TensorOp::OpBitcvt(*c),
            TensorOp::OpBroadcast(d, c) => TensorOp::OpBroadcast(d.clone(), *c),
            TensorOp::OpConcat(d, c) => TensorOp::OpConcat(d.clone(), *c),
            TensorOp::OpConstant(d) => TensorOp::OpConstant(d.clone()),
            TensorOp::OpConvert(d, c) => TensorOp::OpConvert(d.clone(), *c),
            TensorOp::OpCopy(c) => TensorOp::OpCopy(*c),
            TensorOp::OpDivide(c) => TensorOp::OpDivide(*c),
            TensorOp::OpDot(c) => TensorOp::OpDot(*c),
            TensorOp::OpExp(c) => TensorOp::OpExp(*c),
            TensorOp::OpEye(d) => TensorOp::OpEye(d.clone()),
            TensorOp::OpOr(c) => TensorOp::OpOr(*c),
            TensorOp::OpReduceSum(d, c) => TensorOp::OpReduceSum(d.clone(), *c),
            TensorOp::OpReshape(d, c) => TensorOp::OpReshape(d.clone(), *c),
            TensorOp::OpShiftLeft(c) => TensorOp::OpShiftLeft(*c),
            TensorOp::OpShiftRightLogical(c) => TensorOp::OpShiftRightLogical(*c),
            TensorOp::OpSlice(d, c) => TensorOp::OpSlice(d.clone(), *c),
            TensorOp::OpXor(c) => TensorOp::OpXor(*c),
            TensorOp::OpTranspose(d, c) => TensorOp::OpTranspose(d.clone(), *c),
            TensorOp::AlphaHBM(c) => TensorOp::AlphaHBM(*c),
            TensorOp::DetectedConst(d) => TensorOp::DetectedConst(d.clone()),
            TensorOp::Var(d) => TensorOp::Var(d.clone()),
        }
    }
}

impl TensorOp {
    /// The operator of this e-node.
    pub fn kind(&self) -> (k: OpKind)
        ensures
            k == self@.kind,
    {
        match self {
            TensorOp::LoadRm(..) => OpKind::LoadRm,
            TensorOp::LoadCm(..) => OpKind::LoadCm,
            TensorOp::StoreRm(..) => OpKind::StoreRm,
            TensorOp::StoreCm(..) => OpKind::StoreCm,
            TensorOp::Mov(..) => OpKind::Mov,
            TensorOp::Gemm(..) => OpKind::Gemm,
            TensorOp::Softmax(..) => OpKind::Softmax,
            TensorOp::OpAdd(..) => OpKind::OpAdd,
            TensorOp::OpBitcvt(..) => OpKind::OpBitcvt,
            TensorOp::OpBroadcast(..) => OpKind::OpBroadcast,
            TensorOp::OpConcat(..) => OpKind::OpConcat,
            TensorOp::OpConstant(..) => OpKind::OpConstant,
            TensorOp::OpConvert(..) => OpKind::OpConvert,
            TensorOp::OpCopy(..) => OpKind::OpCopy,
            TensorOp::OpDivide(..) => OpKind::OpDivide,
            TensorOp::OpDot(..) => OpKind::OpDot,
            TensorOp::OpExp(..) => OpKind::OpExp,
            TensorOp::OpEye(..) => OpKind::OpEye,
            TensorOp::OpOr(..) => OpKind::OpOr,
            TensorOp::OpReduceSum(..) => OpKind::OpReduceSum,
            TensorOp::OpReshape(..) => OpKind::OpReshape,
            TensorOp::OpShiftLeft(..) => OpKind::OpShiftLeft,
            TensorOp::OpShiftRightLogical(..) => OpKind::OpShiftRightLogical,
            TensorOp::OpSlice(..) => OpKind::OpSlice,
            TensorOp::OpXor(..) => OpKind::OpXor,
            TensorOp::OpTranspose(..) => OpKind::OpTranspose,
            TensorOp::AlphaHBM(..) => OpKind::AlphaHBM,
            TensorOp::DetectedConst(..) => OpKind::DetectedConst,
            TensorOp::Var(..) => OpKind::Var,
        }
    }

    /// Every e-node's model is well shaped.
    pub proof fn lemma_well_shaped(&self)
        ensures
            well_shaped(self@),
    {
    }

    pub fn num_children(&self) -> (r: usize)
        ensures
            r == arity(self@.kind),
            r == self@.children.len(),
    {
        match self {
            TensorOp::LoadRm(..) => 1,
            TensorOp::LoadCm(..) => 1,
            TensorOp::StoreRm(..) => 1,
            TensorOp::StoreCm(..) => 1,
            TensorOp::Mov(..) => 1,
            TensorOp::Gemm(..) => 2,
            TensorOp::Softmax(..) => 1,
            TensorOp::OpAdd(..) => 2,
            TensorOp::OpBitcvt(..) => 1,
            TensorOp::OpBroadcast(..) => 1,
            TensorOp::OpConcat(..) => 2,
            TensorOp::OpConstant(..) => 0,
            TensorOp::OpConvert(..) => 1,
            TensorOp::OpCopy(..) => 1,
            TensorOp::OpDivide(..) => 2,
            TensorOp::OpDot(..) => 2,
            TensorOp::OpExp(..) => 1,
            TensorOp::OpEye(..) => 0,
            TensorOp::OpOr(..) => 2,
            TensorOp::OpReduceSum(..) => 1,
            TensorOp::OpReshape(..) => 1,
            TensorOp::OpShiftLeft(..) => 2,
            TensorOp::OpShiftRightLogical(..) => 2,
            TensorOp::OpSlice(..) => 1,
            TensorOp::OpXor(..) => 2,
            TensorOp::OpTranspose(..) => 1,
            TensorOp::AlphaHBM(..) => 1,
            TensorOp::DetectedConst(..) => 0,
            TensorOp::Var(..) => 0,
        }
    }

    pub fn is_detected_const(&self) -> (r: bool)
        ensures
            r == (self@.kind == OpKind::DetectedConst),
    {
        match self {
            TensorOp::DetectedConst(_) => true,
            _ => false,
        }
    }

    /// Whether the e-node has no children.
    pub fn is_leaf(&self) -> (r: bool)
        ensures
            r == (self@.children.len() == 0),
    {
        self.num_children() == 0
    }

    /// Whether the two e-nodes have the same operator (children and payload aside).
    pub fn matches(&self, other: &TensorOp) -> (r: bool)
        ensures
            r == (self@.kind == other@.kind),
    {
        self.kind() == other.kind()
    }

    /// The child e-class ids, in order.
    pub fn children(&self) -> (r: Vec<usize>)
        ensures
            r@ == self@.children,
    {
        match self {
            TensorOp::LoadRm(_, c) => vec![c[0]],
            TensorOp::LoadCm(_, c) => vec![c[0]],
            TensorOp::StoreRm(_, c) => vec![c[0]],
            TensorOp::StoreCm(_, c) => vec![c[0]],
            TensorOp::Mov(_, c) => vec![c[0]],
            TensorOp::Gemm(c) => vec![c[0], c[1]],
            TensorOp::Softmax(_, c) => vec![c[0]],
            TensorOp::OpAdd(c) => vec![c[0], c[1]],
            TensorOp::OpBitcvt(c) => vec![c[0]],
            TensorOp::OpBroadcast(_, c) => vec![c[0]],
            TensorOp::OpConcat(_, c) => vec![c[0], c[1]],
            TensorOp::OpConstant(_) => Vec::new(),
            TensorOp::OpConvert(_, c) => vec![c[0]],
            TensorOp::OpCopy(c) => vec![c[0]],
            TensorOp::OpDivide(c) => vec![c[0], c[1]],
            TensorOp::OpDot(c) => vec![c[0], c[1]],
            TensorOp::OpExp(c) => vec![c[0]],
            TensorOp::OpEye(_) => Vec::new(),
            TensorOp::OpOr(c) => vec![c[0], c[1]],
            TensorOp::OpReduceSum(_, c) => vec![c[0]],
            TensorOp::OpReshape(_, c) => vec![c[0]],
            TensorOp::OpShiftLeft(c) => vec![c[0], c[1]],
            TensorOp::OpShiftRightLogical(c) => vec![c[0], c[1]],
            TensorOp::OpSlice(_, c) => vec![c[0]],
            TensorOp::OpXor(c) => vec![c[0], c[1]],
            TensorOp::OpTranspose(_, c) => vec![c[0]],
            TensorOp::AlphaHBM(c) => vec![*c],
            TensorOp::DetectedConst(_) => Vec::new(),
            TensorOp::Var(_) => Vec::new(),
        }
    }

    /// The same e-node with its children replaced by `ch`.
    pub fn with_children(&self, ch: &Vec<usize>) -> (r: TensorOp)
        requires
            ch.len() == self@.children.len(),
        ensures
            r@ == (OpView { children: ch@, ..self@ }),
    {
        match self {
            TensorOp::LoadRm(d, _) => { assert(ch@ == seq![ch[0]]); TensorOp::LoadRm(d.clone(), [ch[0]]) },
            TensorOp::LoadCm(d, _) => { assert(ch@ == seq![ch[0]]); TensorOp::LoadCm(d.clone(), [ch[0]]) },
            TensorOp::StoreRm(d, _) => { assert(ch@ == seq![ch[0]]); TensorOp::StoreRm(d.clone(), [ch[0]]) },
            TensorOp::StoreCm(d, _) => { assert(ch@ == seq![ch[0]]); TensorOp::StoreCm(d.clone(), [ch[0]]) },
            TensorOp::Mov(d, _) => { assert(ch@ == seq![ch[0]]); TensorOp::Mov(d.clone(), [ch[0]]) },
            TensorOp::Gemm(_) => { assert(ch@ == seq![ch[0], ch[1]]); TensorOp::Gemm([ch[0], ch[1]]) },
            TensorOp::Softmax(d, _) => { assert(ch@ == seq![ch[0]]); TensorOp::Softmax(d.clone(), [ch[0]]) },
            TensorOp::OpAdd(_) => { assert(ch@ == seq![ch[0], ch[1]]); TensorOp::OpAdd([ch[0], ch[1]]) },
            TensorOp::OpBitcvt(_) => { assert(ch@ == seq![ch[0]]); TensorOp::OpBitcvt([ch[0]]) },
            TensorOp::OpBroadcast(d, _) => { assert(ch@ == seq![ch[0]]); TensorOp::OpBroadcast(d.clone(), [ch[0]]) },
            TensorOp::OpConcat(d, _) => { assert(ch@ == seq![ch[0], ch[1]]); TensorOp::OpConcat(d.clone(), [ch[0], ch[1]]) },
            TensorOp::OpConstant(d) => TensorOp::OpConstant(d.clone()),
            TensorOp::OpConvert(d, _) => { assert(ch@ == seq![ch[0]]); TensorOp::OpConvert(d.clone(), [ch[0]]) },
            TensorOp::OpCopy(_) => { assert(ch@ == seq![ch[0]]); TensorOp::OpCopy([ch[0]]) },
            TensorOp::OpDivide(_) => { assert(ch@ == seq![ch[0], ch[1]]); TensorOp::OpDivide([ch[0], ch[1]]) },
            TensorOp::OpDot(_) => { assert(ch@ == seq![ch[0], ch[1]]); TensorOp::OpDot([ch[0], ch[1]]) },
            TensorOp::OpExp(_) => { assert(ch@ == seq![ch[0]]); TensorOp::OpExp([ch[0]]) },
            TensorOp::OpEye(d) => TensorOp::OpEye(d.clone()),
            TensorOp::OpOr(_) => { assert(ch@ == seq![ch[0], ch[1]]); TensorOp::OpOr([ch[0], ch[1]]) },
            TensorOp::OpReduceSum(d, _) => { assert(ch@ == seq![ch[0]]); TensorOp::OpReduceSum(d.clone(), [ch[0]]) },
            TensorOp::OpReshape(d, _) => { assert(ch@ == seq![ch[0]]); TensorOp::OpReshape(d.clone(), [ch[0]]) },
            TensorOp::OpShiftLeft(_) => { assert(ch@ == seq![ch[0], ch[1]]); TensorOp::OpShiftLeft([ch[0], ch[1]]) },
            TensorOp::OpShiftRightLogical(_) => { assert(ch@ == seq![ch[0], ch[1]]); TensorOp::OpShiftRightLogical([ch[0], ch[1]]) },
            TensorOp::OpSlice(d, _) => { assert(ch@ == seq![ch[0]]); TensorOp::OpSlice(d.clone(), [ch[0]]) },
            TensorOp::OpXor(_) => { assert(ch@ == seq![ch[0], ch[1]]); TensorOp::OpXor([ch[0], ch[1]]) },
            TensorOp::OpTranspose(d, _) => { assert(ch@ == seq![ch[0]]); TensorOp::OpTranspose(d.clone(), [ch[0]]) },
            TensorOp::AlphaHBM(_) => TensorOp::AlphaHBM(ch[0]),
            TensorOp::DetectedConst(d) => TensorOp::DetectedConst(d.clone()),
            TensorOp::Var(d) => TensorOp::Var(d.clone()),
        }
    }

    /// The same e-node with its payload replaced by `d` (operators with a payload only).
    fn with_data(&self, d: String) -> (r: TensorOp)
        requires
            has_data(self@.kind),
        ensures
            r@ == (OpView { data: d@, ..self@ }),
    {
        match self {
            TensorOp::LoadRm(_, c) => TensorOp::LoadRm(d, *c),
            TensorOp::LoadCm(_, c) => TensorOp::LoadCm(d, *c),
            TensorOp::StoreRm(_, c) => TensorOp::StoreRm(d, *c),
            TensorOp::StoreCm(_, c) => TensorOp::StoreCm(d, *c),
            TensorOp::Mov(_, c) => TensorOp::Mov(d, *c),
            TensorOp::Softmax(_, c) => TensorOp::Softmax(d, *c),
            TensorOp::OpBroadcast(_, c) => TensorOp::OpBroadcast(d, *c),
            TensorOp::OpConcat(_, c) => TensorOp::OpConcat(d, *c),
            TensorOp::OpConstant(_) => TensorOp::OpConstant(d),
            TensorOp::OpConvert(_, c) => TensorOp::OpConvert(d, *c),
            TensorOp::OpEye(_) => TensorOp::OpEye(d),
            TensorOp::OpReduceSum(_, c) => TensorOp::OpReduceSum(d, *c),
            TensorOp::OpReshape(_, c) => TensorOp::OpReshape(d, *c),
            TensorOp::OpSlice(_, c) => TensorOp::OpSlice(d, *c),
            TensorOp::OpTranspose(_, c) => TensorOp::OpTranspose(d, *c),
            TensorOp::DetectedConst(_) => TensorOp::DetectedConst(d),
            TensorOp::Var(_) => TensorOp::Var(d),
            _ => self.clone(),
        }
    }

    /// Stores `metadata` as the payload of an operator that takes metadata;
    /// leaves other e-nodes unchanged.
    pub fn set_metadata(&mut self, metadata: Option<String>)
        requires
            takes_metadata(old(self)@.kind) ==> metadata is Some,
        ensures
            final(self)@ == (if takes_metadata(old(self)@.kind) {
                OpView { data: metadata->0@, ..old(self)@ }
            } else {
                old(self)@
            }),
    {
        let k = self.kind();
        if k != OpKind::DetectedConst && k != OpKind::Var && self.has_payload() {
            let m = metadata.unwrap();
            let updated = self.with_data(m);
            *self = updated;
        }
    }

    /// Whether the operator carries a textual payload.
    pub fn has_payload(&self) -> (r: bool)
        ensures
            r == has_data(self@.kind),
    {
        match self {
            TensorOp::LoadRm(..) => true,
            TensorOp::LoadCm(..) => true,
            TensorOp::StoreRm(..) => true,
            TensorOp::StoreCm(..) => true,
            TensorOp::Mov(..) => true,
            TensorOp::Gemm(..) => false,
            TensorOp::Softmax(..) => true,
            TensorOp::OpAdd(..) => false,
            TensorOp::OpBitcvt(..) => false,
            TensorOp::OpBroadcast(..) => true,
            TensorOp::OpConcat(..) => true,
            TensorOp::OpConstant(..) => true,
            TensorOp::OpConvert(..) => true,
            TensorOp::OpCopy(..) => false,
            TensorOp::OpDivide(..) => false,
            TensorOp::OpDot(..) => false,
            TensorOp::OpExp(..) => false,
            TensorOp::OpEye(..) => true,
            TensorOp::OpOr(..) => false,
            TensorOp::OpReduceSum(..) => true,
            TensorOp::OpReshape(..) => true,
            TensorOp::OpShiftLeft(..) => false,
            TensorOp::OpShiftRightLogical(..) => false,
            TensorOp::OpSlice(..) => true,
            TensorOp::OpXor(..) => false,
            TensorOp::OpTranspose(..) => true,
            TensorOp::AlphaHBM(..) => false,
            TensorOp::DetectedConst(..) => true,
            TensorOp::Var(..) => true,
        }
    }

    /// Whether the two e-nodes are the same: operator, payload and children.
    pub fn same(&self, other: &TensorOp) -> (r: bool)
        ensures
            r == (self@ == other@),
    {
        if self.kind() != other.kind() {
            return false;
        }
        let c1 = self.children();
        let c2 = other.children();
        let mut i: usize = 0;
        while i < c1.len()
            invariant
                c1@ == self@.children,
                c2@ == other@.children,
                c1.len() == c2.len(),
                i <= c1.len(),
                c1@.take(i as int) == c2@.take(i as int),
            decreases c1.len() - i,
        {
            if c1[i] != c2[i] {
                return false;
            }
            assert(c1@.take(i + 1) == c1@.take(i as int).push(c1@[i as int]));
            assert(c2@.take(i + 1) == c2@.take(i as int).push(c2@[i as int]));
            i = i + 1;
        }
        assert(c1@ == c1@.take(c1.len() as int));
        assert(c2@ == c2@.take(c2.len() as int));
        let r = match (self, other) {
            (TensorOp::LoadRm(a, ..), TensorOp::LoadRm(b, ..)) => *a == *b,
            (TensorOp::LoadCm(a, ..), TensorOp::LoadCm(b, ..)) => *a == *b,
            (TensorOp::StoreRm(a, ..), TensorOp::StoreRm(b, ..)) => *a == *b,
            (TensorOp::StoreCm(a, ..), TensorOp::StoreCm(b, ..)) => *a == *b,
            (TensorOp::Mov(a, ..), TensorOp::Mov(b, ..)) => *a == *b,
            (TensorOp::Softmax(a, ..), TensorOp::Softmax(b, ..)) => *a == *b,
            (TensorOp::OpBroadcast(a, ..), TensorOp::OpBroadcast(b, ..)) => *a == *b,
            (TensorOp::OpConcat(a, ..), TensorOp::OpConcat(b, ..)) => *a == *b,
            (TensorOp::OpConstant(a, ..), TensorOp::OpConstant(b, ..)) => *a == *b,
            (TensorOp::OpConvert(a, ..), TensorOp::OpConvert(b, ..)) => *a == *b,
            (TensorOp::OpEye(a, ..), TensorOp::OpEye(b, ..)) => *a == *b,
            (TensorOp::OpReduceSum(a, ..), TensorOp::OpReduceSum(b, ..)) => *a == *b,
            (TensorOp::OpReshape(a, ..), TensorOp::OpReshape(b, ..)) => *a == *b,
            (TensorOp::OpSlice(a, ..), TensorOp::OpSlice(b, ..)) => *a == *b,
            (TensorOp::OpTranspose(a, ..), TensorOp::OpTranspose(b, ..)) => *a == *b,
            (TensorOp::DetectedConst(a, ..), TensorOp::DetectedConst(b, ..)) => *a == *b,
            (TensorOp::Var(a, ..), TensorOp::Var(b, ..)) => *a == *b,
            _ => true,
        };
        r
    }

    /// Builds the e-node named by an operator string and its children; `None`
    /// when no operator of the language has that name and arity.
    pub fn from_op(op: &str, children: Vec<usize>) -> (r: Option<TensorOp>)
        ensures
            r matches Some(t) ==> Some(t@) == parse_op(op@, children@),
            r is None <==> parse_op(op@, children@) is None,
    {
        let first = first_segment(op);
        let last = last_segment(op);
        let n = children.len();
        if str_eq(first, "load-rm") && n == 1 {
            assert(children@ == seq![children[0]]);
            return Some(TensorOp::LoadRm(String::from_str(last), [children[0]]));
        }
        if str_eq(first, "load-cm") && n == 1 {
            assert(children@ == seq![children[0]]);
            return Some(TensorOp::LoadCm(String::from_str(last), [children[0]]));
        }
        if str_eq(first, "store-rm") && n == 1 {
            assert(children@ == seq![children[0]]);
            return Some(TensorOp::StoreRm(String::from_str(last), [children[0]]));
        }
        if str_eq(first, "store-cm") && n == 1 {
            assert(children@ == seq![children[0]]);
            return Some(TensorOp::StoreCm(String::from_str(last), [children[0]]));
        }
        if str_eq(first, "mov") && n == 1 {
            assert(children@ == seq![children[0]]);
            return Some(TensorOp::Mov(String::from_str(last), [children[0]]));
        }
        if str_eq(op, "gemm") && n == 2 {
            assert(children@ == seq![children[0], children[1]]);
            return Some(TensorOp::Gemm([children[0], children[1]]));
        }
        if str_eq(first, "softmax") && n == 1 {
            assert(children@ == seq![children[0]]);
            return Some(TensorOp::Softmax(String::from_str(last), [children[0]]));
        }
        if str_eq(op, "add") && n == 2 {
            assert(children@ == seq![children[0], children[1]]);
            return Some(TensorOp::OpAdd([children[0], children[1]]));
        }
        if str_eq(op, "bitcvt") && n == 1 {
            assert(children@ == seq![children[0]]);
            return Some(TensorOp::OpBitcvt([children[0]]));
        }
        if str_eq(first, "broadcast") && n == 1 {
            assert(children@ == seq![children[0]]);
            return Some(TensorOp::OpBroadcast(String::from_str(last), [children[0]]));
        }
        if str_eq(first, "concat") && n == 2 {
            assert(children@ == seq![children[0], children[1]]);
            return Some(TensorOp::OpConcat(String::from_str(last), [children[0], children[1]]));
        }
        if str_eq(first, "constant") && n == 0 {
            assert(children@ == Seq::<usize>::empty());
            return Some(TensorOp::OpConstant(String::from_str(last)));
        }
        if str_eq(first, "convert") && n == 1 {
            assert(children@ == seq![children[0]]);
            return Some(TensorOp::OpConvert(String::from_str(last), [children[0]]));
        }
        if str_eq(op, "copy") && n == 1 {
            assert(children@ == seq![children[0]]);
            return Some(TensorOp::OpCopy([children[0]]));
        }
        if str_eq(op, "divide") && n == 2 {
            assert(children@ == seq![children[0], children[1]]);
            return Some(TensorOp::OpDivide([children[0], children[1]]));
        }
        if str_eq(op, "dot") && n == 2 {
            assert(children@ == seq![children[0], children[1]]);
            return Some(TensorOp::OpDot([children[0], children[1]]));
        }
        if str_eq(op, "exponential") && n == 1 {
            assert(children@ == seq![children[0]]);
            return Some(TensorOp::OpExp([children[0]]));
        }
        if str_eq(first, "eye") && n == 0 {
            assert(children@ == Seq::<usize>::empty());
            return Some(TensorOp::OpEye(String::from_str(last)));
        }
        if str_eq(op, "or") && n == 2 {
            assert(children@ == seq![children[0], children[1]]);
            return Some(TensorOp::OpOr([children[0], children[1]]));
        }
        if str_eq(first, "reduce") && n == 1 {
            assert(children@ == seq![children[0]]);
            return Some(TensorOp::OpReduceSum(String::from_str(last), [children[0]]));
        }
        if str_eq(first, "reshape") && n == 1 {
            assert(children@ == seq![children[0]]);
            return Some(TensorOp::OpReshape(String::from_str(last), [children[0]]));
        }
        if str_eq(op, "shift-left") && n == 2 {
            assert(children@ == seq![children[0], children[1]]);
            return Some(TensorOp::OpShiftLeft([children[0], children[1]]));
        }
        if str_eq(op, "shift-right-logical") && n == 2 {
            assert(children@ == seq![children[0], children[1]]);
            return Some(TensorOp::OpShiftRightLogical([children[0], children[1]]));
        }
        if str_eq(first, "slice") && n == 1 {
            assert(children@ == seq![children[0]]);
            return Some(TensorOp::OpSlice(String::from_str(last), [children[0]]));
        }
        if str_eq(op, "xor") && n == 2 {
            assert(children@ == seq![children[0], children[1]]);
            return Some(TensorOp::OpXor([children[0], children[1]]));
        }
        if str_eq(first, "transpose") && n == 1 {
            assert(children@ == seq![children[0]]);
            return Some(TensorOp::OpTranspose(String::from_str(last), [children[0]]));
        }
        if op.unicode_len() > 0 && op.get_char(0) == '?' && n == 0 {
            return Some(TensorOp::Var(String::from_str(op)));
        }
        None
    }

    /// Printed form of the e-node.
    pub fn to_text(&self) -> (r: String)
        ensures
            r@ == op_text(self@),
    {
        match self {
            TensorOp::LoadRm(d, _) => {
                let mut s = String::from_str("load_rm[rows='");
                s.append(d.as_str());
                s.append("']");
                s
            },
            TensorOp::LoadCm(d, _) => {
                let mut s = String::from_str("load_cm[rows='");
                s.append(d.as_str());
                s.append("']");
                s
            },
            TensorOp::StoreRm(d, _) => {
                let mut s = String::from_str("store_rm[rows='");
                s.append(d.as_str());
                s.append("']");
                s
            },
            TensorOp::StoreCm(d, _) => {
                let mut s = String::from_str("store_cm[rows='");
                s.append(d.as_str());
                s.append("']");
                s
            },
            TensorOp::Mov(d, _) => {
                let mut s = String::from_str("mov[rows='");
                s.append(d.as_str());
                s.append("']");
                s
            },
            TensorOp::Gemm(..) => String::from_str("gemm"),
            TensorOp::Softmax(d, _) => {
                let mut s = String::from_str("softmax[rows='");
                s.append(d.as_str());
                s.append("']");
                s
            },
            TensorOp::OpAdd(..) => String::from_str("add"),
            TensorOp::OpBitcvt(..) => String::from_str("bitcvt"),
            TensorOp::OpBroadcast(d, _) => {
                let mut s = String::from_str("broadcast[dims='");
                s.append(d.as_str());
                s.append("']");
                s
            },
            TensorOp::OpConcat(d, _) => {
                let mut s = String::from_str("concat[axis='");
                s.append(d.as_str());
                s.append("']");
                s
            },
            TensorOp::OpConstant(d) => {
                let mut s = String::from_str("constant[value='");
                s.append(d.as_str());
                s.append("']");
                s
            },
            TensorOp::OpConvert(d, _) => {
                let mut s = String::from_str("convert[dtype='");
                s.append(d.as_str());
                s.append("']");
                s
            },
            TensorOp::OpCopy(..) => String::from_str("copy"),
            TensorOp::OpDivide(..) => String::from_str("divide"),
            TensorOp::OpDot(..) => String::from_str("dot"),
            TensorOp::OpExp(..) => String::from_str("exponential"),
            TensorOp::OpEye(d) => {
                let mut s = String::from_str("eye[ttype='");
                s.append(d.as_str());
                s.append("']");
                s
            },
            TensorOp::OpOr(..) => String::from_str("or"),
            TensorOp::OpReduceSum(d, _) => {
                let mut s = String::from_str("reduce[dims='");
                s.append(d.as_str());
                s.append("']");
                s
            },
            TensorOp::OpReshape(d, _) => {
                let mut s = String::from_str("reshape[shape='");
                s.append(d.as_str());
                s.append("']");
                s
            },
            TensorOp::OpShiftLeft(..) => String::from_str("shift_left"),
            TensorOp::OpShiftRightLogical(..) => String::from_str("shift_right_logical"),
            TensorOp::OpSlice(d, _) => {
                let mut s = String::from_str("slice[slice='");
                s.append(d.as_str());
                s.append("']");
                s
            },
            TensorOp::OpXor(..) => String::from_str("xor"),
            TensorOp::OpTranspose(d, _) => {
                let mut s = String::from_str("transpose[perm='");
                s.append(d.as_str());
                s.append("']");
                s
            },
            TensorOp::AlphaHBM(..) => String::from_str("alpha_hbm"),
            TensorOp::DetectedConst(d) => {
                let mut s = String::from_str("DCC[");
                s.append(d.as_str());
                s.append("]");
                s
            },
            TensorOp::Var(d) => {
                let mut s = String::from_str("Var['");
                s.append(d.as_str());
                s.append("']");
                s
            },
        }
    }
}

/// Model of e-class metadata: tensor shape, element type and whether the class
/// is a compile-time constant.
#[verifier::ext_equal]
pub struct InfoView {
    pub shape: Seq<i32>,
    pub dtype: Dtype,
    pub is_const: bool,
}

/// E-class metadata.
#[derive(Debug)]
pub struct TensorInfo {
    pub shape: Vec<i32>,
    pub dtype: Dtype,
    pub is_const: bool,
}

impl View for TensorInfo {
    type V = InfoView;

    open spec fn view(&self) -> InfoView {
        InfoView { shape: self.shape@, dtype: self.dtype, is_const: self.is_const }
    }
}

/// Metadata that a fresh e-node's class starts with.
pub open spec fn made_info(op: OpView) -> InfoView {
    InfoView { shape: Seq::empty(), dtype: Dtype::U8, is_const: op.kind == OpKind::DetectedConst }
}

impl Clone for TensorInfo {
    fn clone(&self) -> (r: Self)
        ensures
            r@ == self@,
    {
        TensorInfo { shape: self.shape.clone(), dtype: self.dtype, is_const: self.is_const }
    }
}

impl Default for TensorInfo {
    fn default() -> (r: Self)
        ensures
            r@ == (InfoView { shape: Seq::empty(), dtype: Dtype::U8, is_const: false }),
    {
        TensorInfo { shape: Vec::new(), dtype: Dtype::U8, is_const: false }
    }
}

impl TensorInfo {
    /// Two metadata are equal when shape and element type agree; the constant
    /// flag is not compared.
    pub fn eq(&self, other: &TensorInfo) -> (r: bool)
        ensures
            r == (self@.shape == other@.shape && self@.dtype == other@.dtype),
    {
        if self.dtype != other.dtype || self.shape.len() != other.shape.len() {
            return false;
        }
        let mut i: usize = 0;
        while i < self.shape.len()
            invariant
                self.shape.len() == other.shape.len(),
                i <= self.shape.len(),
                self.shape@.take(i as int) == other.shape@.take(i as int),
            decreases self.shape.len() - i,
        {
            if self.shape[i] != other.shape[i] {
                return false;
            }
            assert(self.shape@.take(i + 1) == self.shape@.take(i as int).push(self.shape@[i as int]));
            assert(other.shape@.take(i + 1) == other.shape@.take(i as int).push(other.shape@[i as int]));
            i = i + 1;
        }
        assert(self.shape@ == self.shape@.take(self.shape.len() as int));
        assert(other.shape@ == other.shape@.take(other.shape.len() as int));
        true
    }

    /// Metadata for the class of a newly added e-node: default shape and type,
    /// constant exactly for detected constants.
    pub fn make(enode: &TensorOp) -> (r: TensorInfo)
        ensures
            r@ == made_info(enode@),
    {
        let mut data = TensorInfo::default();
        data.is_const = enode.is_detected_const();
        data
    }

    /// Merges the metadata `b` of a class into `a` when two classes are united:
    /// the constant flag becomes the disjunction of both, shape and type stay
    /// those of `a`. Returns whether `a` changed and that `b` need not change.
    pub fn merge(a: &mut TensorInfo, b: TensorInfo) -> (r: (bool, bool))
        ensures
            final(a)@ == (InfoView { is_const: old(a).is_const || b.is_const, ..old(a)@ }),
            r == (final(a).is_const != old(a).is_const, false),
    {
        let x = a.is_const;
        a.is_const = a.is_const || b.is_const;
        (a.is_const != x, false)
    }
}


/// The operator a printed e-node starts with, read from its leading characters.
spec fn text_kind(t: Seq<char>) -> OpKind {
    if t[0] == 'l' {
        if t[5] == 'r' { OpKind::LoadRm } else { OpKind::LoadCm }
    } else if t[0] == 's' {
        if t[1] == 't' {
            if t[6] == 'r' { OpKind::StoreRm } else { OpKind::StoreCm }
        } else if t[1] == 'o' {
            OpKind::Softmax
        } else if t[1] == 'l' {
            OpKind::OpSlice
        } else if t[6] == 'l' {
            OpKind::OpShiftLeft
        } else {
            OpKind::OpShiftRightLogical
        }
    } else if t[0] == 'm' {
        OpKind::Mov
    } else if t[0] == 'g' {
        OpKind::Gemm
    } else if t[0] == 'a' {
        if t[1] == 'd' { OpKind::OpAdd } else { OpKind::AlphaHBM }
    } else if t[0] == 'b' {
        if t[1] == 'i' { OpKind::OpBitcvt } else { OpKind::OpBroadcast }
    } else if t[0] == 'c' {
        if t[2] == 'p' {
            OpKind::OpCopy
        } else if t[3] == 'c' {
            OpKind::OpConcat
        } else if t[3] == 's' {
            OpKind::OpConstant
        } else {
            OpKind::OpConvert
        }
    } else if t[0] == 'd' {
        if t[1] == 'i' { OpKind::OpDivide } else { OpKind::OpDot }
    } else if t[0] == 'e' {
        if t[1] == 'x' { OpKind::OpExp } else { OpKind::OpEye }
    } else if t[0] == 'o' {
        OpKind::OpOr
    } else if t[0] == 'r' {
        if t[2] == 'd' { OpKind::OpReduceSum } else { OpKind::OpReshape }
    } else if t[0] == 'x' {
        OpKind::OpXor
    } else if t[0] == 't' {
        OpKind::OpTranspose
    } else if t[0] == 'D' {
        OpKind::DetectedConst
    } else {
        OpKind::Var
    }
}

proof fn lemma_text_kind(v: OpView)
    ensures
        text_kind(op_text(v)) == v.kind,
{
    match v.kind {
        OpKind::LoadRm => {
            reveal_strlit("load_rm[rows='"); reveal_strlit("']");
        },
        OpKind::LoadCm => {
            reveal_strlit("load_cm[rows='"); reveal_strlit("']");
        },
        OpKind::StoreRm => {
            reveal_strlit("store_rm[rows='"); reveal_strlit("']");
        },
        OpKind::StoreCm => {
            reveal_strlit("store_cm[rows='"); reveal_strlit("']");
        },
        OpKind::Mov => {
            reveal_strlit("mov[rows='"); reveal_strlit("']");
        },
        OpKind::Gemm => {
            reveal_strlit("gemm");
        },
        OpKind::Softmax => {
            reveal_strlit("softmax[rows='"); reveal_strlit("']");
        },
        OpKind::OpAdd => {
            reveal_strlit("add");
        },
        OpKind::OpBitcvt => {
            reveal_strlit("bitcvt");
        },
        OpKind::OpBroadcast => {
            reveal_strlit("broadcast[dims='"); reveal_strlit("']");
        },
        OpKind::OpConcat => {
            reveal_strlit("concat[axis='"); reveal_strlit("']");
        },
        OpKind::OpConstant => {
            reveal_strlit("constant[value='"); reveal_strlit("']");
        },
        OpKind::OpConvert => {
            reveal_strlit("convert[dtype='"); reveal_strlit("']");
        },
        OpKind::OpCopy => {
            reveal_strlit("copy");
        },
        OpKind::OpDivide => {
            reveal_strlit("divide");
        },
        OpKind::OpDot => {
            reveal_strlit("dot");
        },
        OpKind::OpExp => {
            reveal_strlit("exponential");
        },
        OpKind::OpEye => {
            reveal_strlit("eye[ttype='"); reveal_strlit("']");
        },
        OpKind::OpOr => {
            reveal_strlit("or");
        },
        OpKind::OpReduceSum => {
            reveal_strlit("reduce[dims='"); reveal_strlit("']");
        },
        OpKind::OpReshape => {
            reveal_strlit("reshape[shape='"); reveal_strlit("']");
        },
        OpKind::OpShiftLeft => {
            reveal_strlit("shift_left");
        },
        OpKind::OpShiftRightLogical => {
            reveal_strlit("shift_right_logical");
        },
        OpKind::OpSlice => {
            reveal_strlit("slice[slice='"); reveal_strlit("']");
        },
        OpKind::OpXor => {
            reveal_strlit("xor");
        },
        OpKind::OpTranspose => {
            reveal_strlit("transpose[perm='"); reveal_strlit("']");
        },
        OpKind::AlphaHBM => {
            reveal_strlit("alpha_hbm");
        },
        OpKind::DetectedConst => {
            reveal_strlit("DCC["); reveal_strlit("]");
        },
        OpKind::Var => {
            reveal_strlit("Var['"); reveal_strlit("']");
        },
    }
}

proof fn lemma_cancel_frame(p: Seq<char>, x: Seq<char>, y: Seq<char>, q: Seq<char>)
    requires
        p + x + q == p + y + q,
    ensures
        x == y,
{
    assert((p + x + q).len() == p.len() + x.len() + q.len());
    assert((p + y + q).len() == p.len() + y.len() + q.len());
    assert(x.len() == y.len());
    assert forall|i: int| 0 <= i < x.len() implies x[i] == y[i] by {
        assert((p + x + q)[p.len() + i] == x[i]);
        assert((p + y + q)[p.len() + i] == y[i]);
    }
    assert(x =~= y);
}

/// The printed form of an e-node determines it up to its children: two e-nodes
/// (each with a payload only where its operator carries one) that print alike
/// have the same operator and the same payload. Distinct instructions never
/// share a mnemonic.
pub proof fn lemma_op_text_injective(a: OpView, b: OpView)
    requires
        !has_data(a.kind) ==> a.data.len() == 0,
        !has_data(b.kind) ==> b.data.len() == 0,
        op_text(a) == op_text(b),
    ensures
        a.kind == b.kind,
        a.data == b.data,
{
    lemma_text_kind(a);
    lemma_text_kind(b);
    let t = op_text(a);
    match a.kind {
        OpKind::LoadRm => {
            lemma_cancel_frame("load_rm[rows='"@, a.data, b.data, "']"@);
        },
        OpKind::LoadCm => {
            lemma_cancel_frame("load_cm[rows='"@, a.data, b.data, "']"@);
        },
        OpKind::StoreRm => {
            lemma_cancel_frame("store_rm[rows='"@, a.data, b.data, "']"@);
        },
        OpKind::StoreCm => {
            lemma_cancel_frame("store_cm[rows='"@, a.data, b.data, "']"@);
        },
        OpKind::Mov => {
            lemma_cancel_frame("mov[rows='"@, a.data, b.data, "']"@);
        },
        OpKind::Softmax => {
            lemma_cancel_frame("softmax[rows='"@, a.data, b.data, "']"@);
        },
        OpKind::OpBroadcast => {
            lemma_cancel_frame("broadcast[dims='"@, a.data, b.data, "']"@);
        },
        OpKind::OpConcat => {
            lemma_cancel_frame("concat[axis='"@, a.data, b.data, "']"@);
        },
        OpKind::OpConstant => {
            lemma_cancel_frame("constant[value='"@, a.data, b.data, "']"@);
        },
        OpKind::OpConvert => {
            lemma_cancel_frame("convert[dtype='"@, a.data, b.data, "']"@);
        },
        OpKind::OpEye => {
            lemma_cancel_frame("eye[ttype='"@, a.data, b.data, "']"@);
        },
        OpKind::OpReduceSum => {
            lemma_cancel_frame("reduce[dims='"@, a.data, b.data, "']"@);
        },
        OpKind::OpReshape => {
            lemma_cancel_frame("reshape[shape='"@, a.data, b.data, "']"@);
        },
        OpKind::OpSlice => {
            lemma_cancel_frame("slice[slice='"@, a.data, b.data, "']"@);
        },
        OpKind::OpTranspose => {
            lemma_cancel_frame("transpose[perm='"@, a.data, b.data, "']"@);
        },
        OpKind::DetectedConst => {
            lemma_cancel_frame("DCC["@, a.data, b.data, "]"@);
        },
        OpKind::Var => {
            lemma_cancel_frame("Var['"@, a.data, b.data, "']"@);
        },
        _ => {
            assert(a.data =~= b.data);
        },
    }
}

/// Every operator prints under its own name: an operator with a payload prints
/// its name followed by `[`, one without prints just its name.
pub proof fn lemma_op_mnemonics(v: OpView)
    ensures
        v.kind == OpKind::LoadRm ==> op_text(v).take(7) == "load_rm"@ && op_text(v)[7] == '[',
        v.kind == OpKind::LoadCm ==> op_text(v).take(7) == "load_cm"@ && op_text(v)[7] == '[',
        v.kind == OpKind::StoreRm ==> op_text(v).take(8) == "store_rm"@ && op_text(v)[8] == '[',
        v.kind == OpKind::StoreCm ==> op_text(v).take(8) == "store_cm"@ && op_text(v)[8] == '[',
        v.kind == OpKind::Mov ==> op_text(v).take(3) == "mov"@ && op_text(v)[3] == '[',
        v.kind == OpKind::Gemm ==> op_text(v) == "gemm"@,
        v.kind == OpKind::Softmax ==> op_text(v).take(7) == "softmax"@ && op_text(v)[7] == '[',
        v.kind == OpKind::OpAdd ==> op_text(v) == "add"@,
        v.kind == OpKind::OpBitcvt ==> op_text(v) == "bitcvt"@,
        v.kind == OpKind::OpBroadcast ==> op_text(v).take(9) == "broadcast"@ && op_text(v)[9] == '[',
        v.kind == OpKind::OpConcat ==> op_text(v).take(6) == "concat"@ && op_text(v)[6] == '[',
        v.kind == OpKind::OpConstant ==> op_text(v).take(8) == "constant"@ && op_text(v)[8] == '[',
        v.kind == OpKind::OpConvert ==> op_text(v).take(7) == "convert"@ && op_text(v)[7] == '[',
        v.kind == OpKind::OpCopy ==> op_text(v) == "copy"@,
        v.kind == OpKind::OpDivide ==> op_text(v) == "divide"@,
        v.kind == OpKind::OpDot ==> op_text(v) == "dot"@,
        v.kind == OpKind::OpExp ==> op_text(v) == "exponential"@,
        v.kind == OpKind::OpEye ==> op_text(v).take(3) == "eye"@ && op_text(v)[3] == '[',
        v.kind == OpKind::OpOr ==> op_text(v) == "or"@,
        v.kind == OpKind::OpReduceSum ==> op_text(v).take(6) == "reduce"@ && op_text(v)[6] == '[',
        v.kind == OpKind::OpReshape ==> op_text(v).take(7) == "reshape"@ && op_text(v)[7] == '[',
        v.kind == OpKind::OpShiftLeft ==> op_text(v) == "shift_left"@,
        v.kind == OpKind::OpShiftRightLogical ==> op_text(v) == "shift_right_logical"@,
        v.kind == OpKind::OpSlice ==> op_text(v).take(5) == "slice"@ && op_text(v)[5] == '[',
        v.kind == OpKind::OpXor ==> op_text(v) == "xor"@,
        v.kind == OpKind::OpTranspose ==> op_text(v).take(9) == "transpose"@ && op_text(v)[9] == '[',
        v.kind == OpKind::AlphaHBM ==> op_text(v) == "alpha_hbm"@,
        v.kind == OpKind::DetectedConst ==> op_text(v).take(3) == "DCC"@ && op_text(v)[3] == '[',
        v.kind == OpKind::Var ==> op_text(v).take(3) == "Var"@ && op_text(v)[3] == '[',
{
    match v.kind {
        OpKind::LoadRm => {
            reveal_strlit("load_rm[rows='");
            reveal_strlit("load_rm");
            assert(op_text(v).take(7) =~= "load_rm"@);
        },
        OpKind::LoadCm => {
            reveal_strlit("load_cm[rows='");
            reveal_strlit("load_cm");
            assert(op_text(v).take(7) =~= "load_cm"@);
        },
        OpKind::StoreRm => {
            reveal_strlit("store_rm[rows='");
            reveal_strlit("store_rm");
            assert(op_text(v).take(8) =~= "store_rm"@);
        },
        OpKind::StoreCm => {
            reveal_strlit("store_cm[rows='");
            reveal_strlit("store_cm");
            assert(op_text(v).take(8) =~= "store_cm"@);
        },
        OpKind::Mov => {
            reveal_strlit("mov[rows='");
            reveal_strlit("mov");
            assert(op_text(v).take(3) =~= "mov"@);
        },
        OpKind::Softmax => {
            reveal_strlit("softmax[rows='");
            reveal_strlit("softmax");
            assert(op_text(v).take(7) =~= "softmax"@);
        },
        OpKind::OpBroadcast => {
            reveal_strlit("broadcast[dims='");
            reveal_strlit("broadcast");
            assert(op_text(v).take(9) =~= "broadcast"@);
        },
        OpKind::OpConcat => {
            reveal_strlit("concat[axis='");
            reveal_strlit("concat");
            assert(op_text(v).take(6) =~= "concat"@);
        },
        OpKind::OpConstant => {
            reveal_strlit("constant[value='");
            reveal_strlit("constant");
            assert(op_text(v).take(8) =~= "constant"@);
        },
        OpKind::OpConvert => {
            reveal_strlit("convert[dtype='");
            reveal_strlit("convert");
            assert(op_text(v).take(7) =~= "convert"@);
        },
        OpKind::OpEye => {
            reveal_strlit("eye[ttype='");
            reveal_strlit("eye");
            assert(op_text(v).take(3) =~= "eye"@);
        },
        OpKind::OpReduceSum => {
            reveal_strlit("reduce[dims='");
            reveal_strlit("reduce");
            assert(op_text(v).take(6) =~= "reduce"@);
        },
        OpKind::OpReshape => {
            reveal_strlit("reshape[shape='");
            reveal_strlit("reshape");
            assert(op_text(v).take(7) =~= "reshape"@);
        },
        OpKind::OpSlice => {
            reveal_strlit("slice[slice='");
            reveal_strlit("slice");
            assert(op_text(v).take(5) =~= "slice"@);
        },
        OpKind::OpTranspose => {
            reveal_strlit("transpose[perm='");
            reveal_strlit("transpose");
            assert(op_text(v).take(9) =~= "transpose"@);
        },
        OpKind::DetectedConst => {
            reveal_strlit("DCC[");
            reveal_strlit("DCC");
            assert(op_text(v).take(3) =~= "DCC"@);
        },
        OpKind::Var => {
            reveal_strlit("Var['");
            reveal_strlit("Var");
            assert(op_text(v).take(3) =~= "Var"@);
        },
        _ => {},
    }
}


/// An operator name as written in rule files, with its dashes read as underscores.
pub open spec fn egg_spelling(name: Seq<char>) -> Seq<char> {
    name.map_values(|c: char| if c == '-' { '_' } else { c })
}

/// The operator parsed from a name prints under that name: its children are
/// the given ones, and its printed form is the name (dashes read as
/// underscores), followed by `[` and the payload for an operator with one.
/// Pattern variables (`?x`) print as `Var`.
pub proof fn lemma_parsed_op_prints_its_name(op: Seq<char>, ch: Seq<usize>)
    requires
        parse_op(op, ch) is Some,
    ensures
        ({
            let v = parse_op(op, ch)->0;
            &&& v.children == ch
            &&& v.kind != OpKind::Var ==> if has_data(v.kind) {
                &&& op_text(v).take(seg_first(op).len() as int) == egg_spelling(seg_first(op))
                &&& op_text(v)[seg_first(op).len() as int] == '['
                &&& v.data == seg_last(op)
            } else {
                op_text(v) == egg_spelling(op)
            }
        }),
{
    let v = parse_op(op, ch)->0;
    lemma_op_mnemonics(v);
    match v.kind {
        OpKind::LoadRm => {
            reveal_strlit("load-rm");
            reveal_strlit("load_rm");
            assert(egg_spelling("load-rm"@) =~= "load_rm"@);
        },
        OpKind::LoadCm => {
            reveal_strlit("load-cm");
            reveal_strlit("load_cm");
            assert(egg_spelling("load-cm"@) =~= "load_cm"@);
        },
        OpKind::StoreRm => {
            reveal_strlit("store-rm");
            reveal_strlit("store_rm");
            assert(egg_spelling("store-rm"@) =~= "store_rm"@);
        },
        OpKind::StoreCm => {
            reveal_strlit("store-cm");
            reveal_strlit("store_cm");
            assert(egg_spelling("store-cm"@) =~= "store_cm"@);
        },
        OpKind::Mov => {
            reveal_strlit("mov");
            assert(egg_spelling("mov"@) =~= "mov"@);
        },
        OpKind::Gemm => {
            reveal_strlit("gemm");
            assert(egg_spelling("gemm"@) =~= "gemm"@);
        },
        OpKind::Softmax => {
            reveal_strlit("softmax");
            assert(egg_spelling("softmax"@) =~= "softmax"@);
        },
        OpKind::OpAdd => {
            reveal_strlit("add");
            assert(egg_spelling("add"@) =~= "add"@);
        },
        OpKind::OpBitcvt => {
            reveal_strlit("bitcvt");
            assert(egg_spelling("bitcvt"@) =~= "bitcvt"@);
        },
        OpKind::OpBroadcast => {
            reveal_strlit("broadcast");
            assert(egg_spelling("broadcast"@) =~= "broadcast"@);
        },
        OpKind::OpConcat => {
            reveal_strlit("concat");
            assert(egg_spelling("concat"@) =~= "concat"@);
        },
        OpKind::OpConstant => {
            reveal_strlit("constant");
            assert(egg_spelling("constant"@) =~= "constant"@);
        },
        OpKind::OpConvert => {
            reveal_strlit("convert");
            assert(egg_spelling("convert"@) =~= "convert"@);
        },
        OpKind::OpCopy => {
            reveal_strlit("copy");
            assert(egg_spelling("copy"@) =~= "copy"@);
        },
        OpKind::OpDivide => {
            reveal_strlit("divide");
            assert(egg_spelling("divide"@) =~= "divide"@);
        },
        OpKind::OpDot => {
            reveal_strlit("dot");
            assert(egg_spelling("dot"@) =~= "dot"@);
        },
        OpKind::OpExp => {
            reveal_strlit("exponential");
            assert(egg_spelling("exponential"@) =~= "exponential"@);
        },
        OpKind::OpEye => {
            reveal_strlit("eye");
            assert(egg_spelling("eye"@) =~= "eye"@);
        },
        OpKind::OpOr => {
            reveal_strlit("or");
            assert(egg_spelling("or"@) =~= "or"@);
        },
        OpKind::OpReduceSum => {
            reveal_strlit("reduce");
            assert(egg_spelling("reduce"@) =~= "reduce"@);
        },
        OpKind::OpReshape => {
            reveal_strlit("reshape");
            assert(egg_spelling("reshape"@) =~= "reshape"@);
        },
        OpKind::OpShiftLeft => {
            reveal_strlit("shift-left");
            reveal_strlit("shift_left");
            assert(egg_spelling("shift-left"@) =~= "shift_left"@);
        },
        OpKind::OpShiftRightLogical => {
            reveal_strlit("shift-right-logical");
            reveal_strlit("shift_right_logical");
            assert(egg_spelling("shift-right-logical"@) =~= "shift_right_logical"@);
        },
        OpKind::OpSlice => {
            reveal_strlit("slice");
            assert(egg_spelling("slice"@) =~= "slice"@);
        },
        OpKind::OpXor => {
            reveal_strlit("xor");
            assert(egg_spelling("xor"@) =~= "xor"@);
        },
        OpKind::OpTranspose => {
            reveal_strlit("transpose");
            assert(egg_spelling("transpose"@) =~= "transpose"@);
        },
        _ => {},
    }
}

} // verus!
