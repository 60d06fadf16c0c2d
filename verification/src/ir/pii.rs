use vstd::prelude::*;

use crate::ir::buffer::{buffer_assignment, buffer_name, buffers_of, Buffer};
use crate::ir::dtype::dtype_name;
use crate::ir::egraph::{op_text, InfoView, OpView, TensorInfo, TensorOp};
use crate::text::{int_text, int_to_string, join_strings, join_text, nat_text, nat_to_string};

verus! {

/// A node of a PII graph: one selected instruction (or input/constant) with the
/// buffer its result lives in and, for HBM tensors, its offset.
#[derive(Debug)]
pub struct PiiNode {
    pub id: usize,
    pub op: TensorOp,
    pub info: TensorInfo,
    pub buffer: Buffer,
    pub hbm_offset: Option<i32>,
    pub children: Vec<usize>,
}

/// Model of a PII node.
#[verifier::ext_equal]
pub struct PiiNodeView {
    pub id: usize,
    pub op: OpView,
    pub info: InfoView,
    pub buffer: Buffer,
    pub hbm_offset: Option<i32>,
    pub children: Seq<usize>,
}

impl View for PiiNode {
    type V = PiiNodeView;

    open spec fn view(&self) -> PiiNodeView {
        PiiNodeView {
            id: self.id,
            op: self.op@,
            info: self.info@,
            buffer: self.buffer,
            hbm_offset: self.hbm_offset,
            children: self.children@,
        }
    }
}

/// A program in instruction form: nodes in the order they were added, each
/// referring to its operands by index.
#[derive(Debug, Default)]
pub struct PiiGraph {
    pub nodes: Vec<PiiNode>,
}

impl View for PiiGraph {
    type V = Seq<PiiNodeView>;

    open spec fn view(&self) -> Seq<PiiNodeView> {
        self.nodes@.map_values(|n: PiiNode| n@)
    }
}

/// A PII graph is well formed when every node is numbered by its position,
/// refers only to earlier nodes (so the order is topological), and lives in a
/// concrete buffer.
pub open spec fn pii_wf(g: Seq<PiiNodeView>) -> bool {
    forall|i: int|
        0 <= i < g.len() ==> {
            &&& #[trigger] g[i].id == i
            &&& g[i].buffer != Buffer::ANY
            &&& forall|j: int| 0 <= j < g[i].children.len() ==> g[i].children[j] < i
        }
}

/// The buffer `add_node` gives a node: the instruction's output buffer, or for
/// an `ANY` instruction the buffer of its first operand.
pub open spec fn placed_buffer(g: Seq<PiiNodeView>, op: OpView, children: Seq<usize>) -> Buffer {
    let b = buffers_of(op.kind)->0[0];
    if b == Buffer::ANY {
        g[children[0] as int].buffer
    } else {
        b
    }
}

/// Whether `add_node` accepts the node: it is an instruction, and an `ANY`
/// instruction (whose buffer comes from its operands) has operands, all of
/// them existing and living in one buffer. The operands of other instructions
/// are not looked at.
pub open spec fn can_add(g: Seq<PiiNodeView>, op: OpView, children: Seq<usize>) -> bool {
    &&& buffers_of(op.kind) is Some
    &&& buffers_of(op.kind)->0[0] == Buffer::ANY ==> {
        &&& children.len() > 0
        &&& forall|j: int| 0 <= j < children.len() ==> children[j] < g.len()
        &&& forall|j: int|
            0 <= j < children.len() ==> g[#[trigger] children[j] as int].buffer == g[children[0] as int].buffer
    }
}

/// One printed line of a PII node:
/// `t<id>: <buffer>[<hbm offset or -1>] = <dtype><shape> <op>(t<child>, ...)`.
pub open spec fn pii_line(n: PiiNodeView) -> Seq<char> {
    seq!['t'] + nat_text(n.id as nat) + ": "@ + buffer_name(n.buffer) + seq!['['] + int_text(
        match n.hbm_offset {
            Some(o) => o as int,
            None => -1,
        },
    ) + "] = "@ + dtype_name(n.info.dtype) + shape_text(n.info.shape) + seq![' '] + op_text(n.op)
        + seq!['('] + join_text(n.children.map_values(|c: usize| seq!['t'] + nat_text(c as nat)), ", "@)
        + seq![')', '\n']
}

/// Printed form of a shape: `[d0,d1,...]`.
pub open spec fn shape_text(shape: Seq<i32>) -> Seq<char> {
    seq!['['] + join_text(shape.map_values(|d: i32| int_text(d as int)), ","@) + seq![']']
}

/// Every node lives in a concrete buffer (which well-formed graphs ensure).
pub open spec fn all_placed(g: Seq<PiiNodeView>) -> bool {
    forall|i: int| 0 <= i < g.len() ==> (#[trigger] g[i]).buffer != Buffer::ANY
}

/// Printed form of a whole PII graph: its node lines in order.
pub open spec fn pii_text(g: Seq<PiiNodeView>) -> Seq<char>
    decreases g.len(),
{
    if g.len() == 0 {
        Seq::empty()
    } else {
        pii_text(g.drop_last()) + pii_line(g.last())
    }
}

impl PiiGraph {
    /// Appends a node for `op` with the given operands and HBM offset and returns
    /// its index. Its buffer is the instruction's output buffer, or for `ANY`
    /// instructions the common buffer of the operands.
    pub fn add_node(
        &mut self,
        op: TensorOp,
        info: TensorInfo,
        children: Vec<usize>,
        hbm_offset: Option<i32>,
    ) -> (idx: usize)
        requires
            can_add(old(self)@, op@, children@),
        ensures
            idx == old(self)@.len(),
            final(self)@ == old(self)@.push(
                PiiNodeView {
                    id: idx,
                    op: op@,
                    info: info@,
                    buffer: placed_buffer(old(self)@, op@, children@),
                    hbm_offset,
                    children: children@,
                },
            ),
    {
        let bufs = buffer_assignment(&op).unwrap();
        let mut buffer = bufs[0];
        if buffer == Buffer::ANY {
            // all operands share one buffer (required), so that of the first is the answer
            let c0 = children[0];
            buffer = self.nodes[c0].buffer;
        }
        let idx = self.nodes.len();
        let ghost old_view = self@;
        self.nodes.push(PiiNode { id: idx, op, info, children, buffer, hbm_offset });
        assert(self@ == old_view.push(self.nodes@[idx as int]@));
        idx
    }

    /// `add_node` for nodes it accepts; `None` (graph unchanged) for the nodes
    /// on which it would fail: non-instructions, operands that do not exist,
    /// and `ANY` instructions without operands or with operands in different buffers.
    pub fn try_add_node(
        &mut self,
        op: TensorOp,
        info: TensorInfo,
        children: Vec<usize>,
        hbm_offset: Option<i32>,
    ) -> (r: Option<usize>)
        ensures
            r is Some <==> can_add(old(self)@, op@, children@),
            r is None ==> final(self)@ == old(self)@,
            r matches Some(idx) ==> idx == old(self)@.len() && final(self)@ == old(self)@.push(
                PiiNodeView {
                    id: idx,
                    op: op@,
                    info: info@,
                    buffer: placed_buffer(old(self)@, op@, children@),
                    hbm_offset,
                    children: children@,
                },
            ),
    {
        let bufs = match buffer_assignment(&op) {
            Some(b) => b,
            None => return None,
        };
        let n = self.nodes.len();
        if bufs[0] == Buffer::ANY {
            if children.len() == 0 {
                return None;
            }
            let mut j: usize = 0;
            while j < children.len()
                invariant
                    n == self@.len(),
                    self@ == old(self)@,
                    buffers_of(op@.kind) is Some,
                    buffers_of(op@.kind)->0[0] == Buffer::ANY,
                    j <= children.len(),
                    forall|q: int| 0 <= q < j ==> children@[q] < n,
                decreases children.len() - j,
            {
                if children[j] >= n {
                    assert(!can_add(old(self)@, op@, children@)) by {
                        assert(!(children@[j as int] < old(self)@.len()));
                    }
                    return None;
                }
                j = j + 1;
            }
            let b0 = self.nodes[children[0]].buffer;
            let mut j: usize = 0;
            while j < children.len()
                invariant
                    n == self@.len(),
                    self@ == old(self)@,
                    buffers_of(op@.kind) is Some,
                    buffers_of(op@.kind)->0[0] == Buffer::ANY,
                    children.len() > 0,
                    forall|q: int| 0 <= q < children.len() ==> children@[q] < n,
                    b0 == self@[children@[0] as int].buffer,
                    j <= children.len(),
                    forall|q: int| 0 <= q < j ==> #[trigger] self@[children@[q] as int].buffer == b0,
                decreases children.len() - j,
            {
                if self.nodes[children[j]].buffer != b0 {
                    assert(self@[children@[j as int] as int].buffer != b0);
                    assert(!can_add(old(self)@, op@, children@)) by {
                        assert(old(self)@[children@[j as int] as int].buffer != old(self)@[children@[0] as int].buffer);
                    }
                    return None;
                }
                j = j + 1;
            }
        }
        Some(self.add_node(op, info, children, hbm_offset))
    }

    /// Printed form of a shape, e.g. `[4,64]`.
    pub fn shape_to_string(shape: &Vec<i32>) -> (r: String)
        ensures
            r@ == shape_text(shape@),
    {
        let mut parts: Vec<String> = Vec::new();
        let mut i: usize = 0;
        while i < shape.len()
            invariant
                i <= shape.len(),
                parts.len() == i,
                forall|j: int| 0 <= j < i ==> #[trigger] parts@[j]@ == int_text(shape@[j] as int),
            decreases shape.len() - i,
        {
            parts.push(int_to_string(shape[i] as i64));
            i = i + 1;
        }
        assert(parts@.map_values(|p: String| p@) == shape@.map_values(|d: i32| int_text(d as int)));
        let mut r = String::from_str("[");
        let joined = join_strings(&parts, ",");
        r.append(joined.as_str());
        r.append("]");
        proof {
            reveal_strlit("[");
            reveal_strlit("]");
        }
        r
    }

    /// Printed form of one node (a line of the graph's text).
    pub fn node_line(n: &PiiNode) -> (r: String)
        requires
            n.buffer != Buffer::ANY,
        ensures
            r@ == pii_line(n@),
    {
        let mut r = String::from_str("t");
        r.append(nat_to_string(n.id as u64).as_str());
        r.append(": ");
        r.append(n.buffer.name());
        r.append("[");
        let off: i64 = match n.hbm_offset {
            Some(o) => o as i64,
            None => -1,
        };
        r.append(int_to_string(off).as_str());
        r.append("] = ");
        r.append(n.info.dtype.name());
        r.append(PiiGraph::shape_to_string(&n.info.shape).as_str());
        r.append(" ");
        r.append(n.op.to_text().as_str());
        r.append("(");
        let mut names: Vec<String> = Vec::new();
        let mut i: usize = 0;
        while i < n.children.len()
            invariant
                i <= n.children.len(),
                names.len() == i,
                forall|j: int|
                    0 <= j < i ==> #[trigger] names@[j]@ == seq!['t'] + nat_text(n.children@[j] as nat),
            decreases n.children.len() - i,
        {
            let mut name = String::from_str("t");
            name.append(nat_to_string(n.children[i] as u64).as_str());
            proof { reveal_strlit("t"); }
            names.push(name);
            i = i + 1;
        }
        assert(names@.map_values(|p: String| p@) == n.children@.map_values(
            |c: usize| seq!['t'] + nat_text(c as nat),
        ));
        r.append(join_strings(&names, ", ").as_str());
        r.append(")\n");
        proof {
            reveal_strlit("t");
            reveal_strlit("[");
            reveal_strlit(" ");
            reveal_strlit("(");
            reveal_strlit(")\n");
        }
        r
    }

    /// Printed form of the graph: one line per node, in order. Every node must
    /// live in a concrete buffer (`ANY` has no printed name).
    pub fn to_text(&self) -> (r: String)
        requires
            all_placed(self@),
        ensures
            r@ == pii_text(self@),
    {
        let mut r = String::new();
        let mut i: usize = 0;
        while i < self.nodes.len()
            invariant
                i <= self.nodes.len(),
                all_placed(self@),
                r@ == pii_text(self@.take(i as int)),
            decreases self.nodes.len() - i,
        {
            assert(self@[i as int].buffer != Buffer::ANY);
            assert(self@.take(i + 1).drop_last() == self@.take(i as int));
            let line = PiiGraph::node_line(&self.nodes[i]);
            r.append(line.as_str());
            i = i + 1;
        }
        assert(self@.take(self.nodes.len() as int) == self@);
        r
    }
}

/// Adding an accepted node whose operands exist to a well-formed PII graph
/// keeps it well formed.
pub proof fn lemma_add_node_keeps_wf(
    g: Seq<PiiNodeView>,
    op: OpView,
    info: InfoView,
    children: Seq<usize>,
    hbm_offset: Option<i32>,
)
    requires
        g.len() < usize::MAX,
        pii_wf(g),
        can_add(g, op, children),
        forall|j: int| 0 <= j < children.len() ==> children[j] < g.len(),
    ensures
        pii_wf(
            g.push(
                PiiNodeView {
                    id: g.len() as usize,
                    op,
                    info,
                    buffer: placed_buffer(g, op, children),
                    hbm_offset,
                    children,
                },
            ),
        ),
{
    let n = PiiNodeView {
        id: g.len() as usize,
        op,
        info,
        buffer: placed_buffer(g, op, children),
        hbm_offset,
        children,
    };
    let g2 = g.push(n);
    assert(g2.len() == g.len() + 1);
    assert forall|i: int| 0 <= i < g2.len() implies {
        &&& #[trigger] g2[i].id == i
        &&& g2[i].buffer != Buffer::ANY
        &&& forall|j: int| 0 <= j < g2[i].children.len() ==> g2[i].children[j] < i
    } by {
        if i == g.len() {
            assert(g2[i] == n);
            if buffers_of(op.kind)->0[0] == Buffer::ANY {
                assert(children[0] < g.len());
                assert(g[children[0] as int].id == children[0] as int);
            }
            assert forall|j: int| 0 <= j < g2[i].children.len() implies g2[i].children[j] < i by {
                assert(children[j] < g.len());
            }
        } else {
            assert(g2[i] == g[i]);
            assert(g[i].id == i);
        }
    }
    assert(pii_wf(g2));
}

} // verus!
