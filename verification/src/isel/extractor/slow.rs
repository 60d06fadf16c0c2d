use vstd::prelude::*;

use std::collections::HashSet;

use itertools::Itertools;

use crate::ir::buffer::{buffer_assignment, buffers_of, Buffer};
use crate::ir::egraph::{OpKind, OpView, TensorOp};
use crate::ir::pii::{can_add, lemma_add_node_keeps_wf, pii_wf, placed_buffer, PiiGraph, PiiNodeView};
use crate::ir::snapshot::{lookup, EGraphSnapshot, SnapshotView};
use crate::isel::extractor::utils::{get_hbm_offset, hbm_offset_of, offsets_in_range};
use crate::isel::extractor::fast::{all_false, count_false, lemma_count_false_all_false, lemma_count_false_set};

verus! {

broadcast use vstd::std_specs::hash::group_hash_axioms;

/// `ys` with each of `xs` put in front, for each element of `xs` in order.
pub open spec fn prepend_all<A>(xs: Seq<A>, ys: Seq<Seq<A>>) -> Seq<Seq<A>>
    decreases xs.len(),
{
    if xs.len() == 0 {
        Seq::empty()
    } else {
        ys.map_values(|y: Seq<A>| seq![xs[0]] + y) + prepend_all(xs.drop_first(), ys)
    }
}

/// Cartesian product of the lists, in lexicographic order (the last list
/// varies fastest); the product of no lists is one empty combination.
pub open spec fn cartesian<A>(s: Seq<Seq<A>>) -> Seq<Seq<A>>
    decreases s.len(),
{
    if s.len() == 0 {
        seq![Seq::empty()]
    } else {
        prepend_all(s[0], cartesian(s.drop_first()))
    }
}

/// Concatenation of the sequences, in order.
pub open spec fn concat<A>(s: Seq<Seq<A>>) -> Seq<A>
    decreases s.len(),
{
    if s.len() == 0 {
        Seq::empty()
    } else {
        concat(s.drop_last()) + s.last()
    }
}

pub open spec fn tree_view(t: Vec<TensorOp>) -> Seq<OpView> {
    t@.map_values(|o: TensorOp| o@)
}

pub open spec fn forest_view(f: Vec<Vec<TensorOp>>) -> Seq<Seq<OpView>> {
    f@.map_values(|t: Vec<TensorOp>| tree_view(t))
}

pub open spec fn forests_view(fs: Vec<Vec<Vec<TensorOp>>>) -> Seq<Seq<Seq<OpView>>> {
    fs@.map_values(|f: Vec<Vec<TensorOp>>| forest_view(f))
}

/// `Itertools::multi_cartesian_product` of itertools on the children's lists
/// of extraction trees. The contract claims what the crate documents: the
/// lexicographic product (last list fastest), one empty combination for no
/// lists; the trees are cloned, and cloning a tree keeps every e-node.
#[verifier::external_body]
fn multi_cartesian_product(lists: Vec<Vec<Vec<TensorOp>>>) -> (r: Vec<Vec<Vec<TensorOp>>>)
    ensures
        forests_view(r) == cartesian(forests_view(lists)),
{
    lists.into_iter().multi_cartesian_product().collect()
}

/// Buffer in which an instruction with buffer list `bufs` reads its `i`-th
/// operand when its own result is wanted in `buf`.
pub open spec fn out_buffer(bufs: Seq<Buffer>, buf: Buffer, i: int) -> Buffer {
    if bufs[0] != Buffer::ANY {
        bufs[1 + i]
    } else {
        buf
    }
}

/// Pre-order extraction trees rooted at the class of `ec` with the result in
/// `buf` and at most `limit` e-nodes: for each e-node of the class in order,
/// an input class (for HBM) or a detected constant (for HBM) gives its single
/// node and ends the search; an instruction producing `buf` (or working in
/// any buffer) gives itself followed by each combination of its children's trees.
pub open spec fn extraction_trees(g: SnapshotView, inputs: Set<usize>, ec: int, buf: Buffer, limit: nat) -> Seq<
    Seq<OpView>,
>
    decreases limit, 3int, 0int,
{
    if limit == 0 || !(0 <= ec < g.len()) {
        Seq::empty()
    } else {
        node_trees(g, inputs, ec, buf, limit, 0, Seq::empty())
    }
}

/// The trees of the e-nodes of the class of `ec` from the `k`-th on, appended to `acc`.
pub open spec fn node_trees(
    g: SnapshotView,
    inputs: Set<usize>,
    ec: int,
    buf: Buffer,
    limit: nat,
    k: int,
    acc: Seq<Seq<OpView>>,
) -> Seq<Seq<OpView>>
    decreases limit, 2int, g.class(ec).nodes.len() - k,
{
    if limit == 0 || !(0 <= ec < g.len()) || k < 0 || k >= g.class(ec).nodes.len() {
        acc
    } else {
        let en = g.class(ec).nodes[k];
        if inputs.contains(ec as usize) && buf == Buffer::HBM {
            acc.push(seq![en])
        } else if g.class(ec).data.is_const && en.kind == OpKind::DetectedConst && buf == Buffer::HBM {
            acc.push(seq![en])
        } else if buffers_of(en.kind) is Some {
            let bufs = buffers_of(en.kind)->0;
            if bufs[0] != Buffer::ANY && bufs[0] != buf {
                node_trees(g, inputs, ec, buf, limit, k + 1, acc)
            } else {
                node_trees(g, inputs, ec, buf, limit, k + 1, acc + new_trees(g, inputs, en, buf, limit))
            }
        } else {
            node_trees(g, inputs, ec, buf, limit, k + 1, acc)
        }
    }
}

/// The trees of instruction `en`: itself followed by each combination of its
/// children's trees, keeping those of at most `limit` e-nodes.
pub open spec fn new_trees(g: SnapshotView, inputs: Set<usize>, en: OpView, buf: Buffer, limit: nat) -> Seq<
    Seq<OpView>,
>
    decreases limit, 1int, 0int,
{
    let cf = child_forests(g, inputs, en, buf, limit, 0, Seq::empty());
    if exists|i: int| 0 <= i < cf.len() && cf[i].len() == 0 {
        Seq::empty()
    } else {
        keep_trees(en, cartesian(cf), limit, 0, Seq::empty())
    }
}

/// The lists of trees of the children of `en` from the `i`-th on, appended to
/// `acc`; a single empty list when `en` has more children than `limit`.
pub open spec fn child_forests(
    g: SnapshotView,
    inputs: Set<usize>,
    en: OpView,
    buf: Buffer,
    limit: nat,
    i: int,
    acc: Seq<Seq<Seq<OpView>>>,
) -> Seq<Seq<Seq<OpView>>>
    decreases limit, 0int, en.children.len() - i,
{
    if i < 0 || i >= en.children.len() || buffers_of(en.kind) is None {
        acc
    } else if en.children.len() > limit {
        seq![Seq::empty()]
    } else {
        let t = extraction_trees(
            g,
            inputs,
            en.children[i] as int,
            out_buffer(buffers_of(en.kind)->0, buf, i),
            (limit - en.children.len()) as nat,
        );
        child_forests(g, inputs, en, buf, limit, i + 1, acc.push(t))
    }
}

/// For each combination from the `i`-th on, the tree `en` followed by the
/// combination's trees, appended to `acc` when it has at most `limit` e-nodes.
pub open spec fn keep_trees(
    en: OpView,
    combos: Seq<Seq<Seq<OpView>>>,
    limit: nat,
    i: int,
    acc: Seq<Seq<OpView>>,
) -> Seq<Seq<OpView>>
    decreases combos.len() - i,
{
    if i < 0 || i >= combos.len() {
        acc
    } else {
        let t = seq![en] + concat(combos[i]);
        keep_trees(en, combos, limit, i + 1, if t.len() <= limit { acc.push(t) } else { acc })
    }
}

fn append_ops(t: &mut Vec<TensorOp>, x: &Vec<TensorOp>)
    ensures
        tree_view(*final(t)) == tree_view(*old(t)) + tree_view(*x),
{
    let ghost t0 = tree_view(*t);
    let mut q: usize = 0;
    while q < x.len()
        invariant
            q <= x.len(),
            tree_view(*t) == t0 + tree_view(*x).take(q as int),
        decreases x.len() - q,
    {
        let ghost before = tree_view(*t);
        let o = x[q].clone();
        t.push(o);
        assert(tree_view(*t) == before.push(x@[q as int]@));
        assert(tree_view(*x).take(q + 1) == tree_view(*x).take(q as int).push(x@[q as int]@));
        assert(t0 + tree_view(*x).take(q + 1) == (t0 + tree_view(*x).take(q as int)).push(x@[q as int]@));
        q = q + 1;
    }
    assert(tree_view(*x).take(x.len() as int) == tree_view(*x));
}

/// The trees of instruction `en` (see `new_trees`).
fn build_new_trees(
    egraph: &EGraphSnapshot,
    en: &TensorOp,
    target_buf: Buffer,
    limit: usize,
    inputs: &HashSet<usize>,
) -> (r: Vec<Vec<TensorOp>>)
    requires
        egraph.wf(),
        buffers_of(en@.kind) is Some,
        forall|j: int| 0 <= j < en@.children.len() ==> en@.children[j] < egraph@.len(),
    ensures
        forest_view(r) == new_trees(egraph@, inputs@, en@, target_buf, limit as nat),
    decreases limit, 1int, 0int,
{
    let nch = en.num_children();
    let bufs = buffer_assignment(en).unwrap();
    proof {
        crate::ir::buffer::lemma_buffers_cover_children(en@.kind);
    }
    let ch = en.children();
    let mut child_trees: Vec<Vec<Vec<TensorOp>>> = Vec::new();
    assert(forests_view(child_trees) == Seq::<Seq<Seq<OpView>>>::empty());
    let mut i: usize = 0;
    let mut broke = false;
    while i < nch && !broke
        invariant
            egraph.wf(),
            nch == en@.children.len(),
            ch@ == en@.children,
            bufs@ == buffers_of(en@.kind)->0,
            bufs@.len() == nch + 1,
            buffers_of(en@.kind) is Some,
            forall|j: int| 0 <= j < en@.children.len() ==> en@.children[j] < egraph@.len(),
            i <= nch,
            broke ==> forests_view(child_trees) == child_forests(egraph@, inputs@, en@, target_buf, limit as nat, 0, Seq::empty()),
            !broke ==> child_forests(egraph@, inputs@, en@, target_buf, limit as nat, 0, Seq::empty()) == child_forests(
                egraph@,
                inputs@,
                en@,
                target_buf,
                limit as nat,
                i as int,
                forests_view(child_trees),
            ),
        decreases nch - i, if broke { 0int } else { 1int },
    {
        let out = if bufs[0] != Buffer::ANY {
            bufs[1 + i]
        } else {
            target_buf
        };
        if limit >= nch {
            let t = get_extraction_trees(egraph, ch[i], out, limit - nch, inputs);
            let ghost before = forests_view(child_trees);
            child_trees.push(t);
            assert(forests_view(child_trees) == before.push(forest_view(t)));
            i = i + 1;
        } else {
            let empty: Vec<Vec<TensorOp>> = Vec::new();
            assert(forest_view(empty) == Seq::<Seq<OpView>>::empty());
            child_trees = vec![empty];
            assert(forests_view(child_trees)[0] == Seq::<Seq<OpView>>::empty());
            assert(forests_view(child_trees) == seq![Seq::<Seq<OpView>>::empty()]);
            broke = true;
        }
    }
    let ghost cf = child_forests(egraph@, inputs@, en@, target_buf, limit as nat, 0, Seq::empty());
    assert(forests_view(child_trees) == cf);
    let mut j: usize = 0;
    while j < child_trees.len()
        invariant
            j <= child_trees.len(),
            forests_view(child_trees) == cf,
            cf == child_forests(egraph@, inputs@, en@, target_buf, limit as nat, 0, Seq::empty()),
            forall|q: int| 0 <= q < j ==> cf[q].len() != 0,
        decreases child_trees.len() - j,
    {
        if child_trees[j].len() == 0 {
            assert(cf[j as int].len() == 0);
            let r: Vec<Vec<TensorOp>> = Vec::new();
            assert(forest_view(r) == Seq::<Seq<OpView>>::empty());
            return r;
        }
        j = j + 1;
    }
    let combos = multi_cartesian_product(child_trees);
    let ghost cv = forests_view(combos);
    let mut out: Vec<Vec<TensorOp>> = Vec::new();
    assert(forest_view(out) == Seq::<Seq<OpView>>::empty());
    let mut c: usize = 0;
    while c < combos.len()
        invariant
            c <= combos.len(),
            cv == forests_view(combos),
            cv == cartesian(cf),
            keep_trees(en@, cv, limit as nat, 0, Seq::empty()) == keep_trees(en@, cv, limit as nat, c as int, forest_view(out)),
        decreases combos.len() - c,
    {
        let combo = &combos[c];
        assert(cv[c as int] == forest_view(*combo));
        let mut t: Vec<TensorOp> = vec![en.clone()];
        assert(tree_view(t) == seq![en@]);
        let mut q: usize = 0;
        while q < combo.len()
            invariant
                q <= combo.len(),
                tree_view(t) == seq![en@] + concat(forest_view(*combo).take(q as int)),
            decreases combo.len() - q,
        {
            append_ops(&mut t, &combo[q]);
            assert(forest_view(*combo).take(q + 1).drop_last() == forest_view(*combo).take(q as int));
            q = q + 1;
        }
        assert(forest_view(*combo).take(combo.len() as int) == forest_view(*combo));
        if t.len() <= limit {
            let ghost before = forest_view(out);
            let ghost tv = tree_view(t);
            out.push(t);
            assert(forest_view(out) == before.push(tv));
        }
        c = c + 1;
    }
    out
}

/// All pre-order extraction trees rooted at `eclass` with the result in
/// `target_buf` and at most `limit` e-nodes (see `extraction_trees`).
fn get_extraction_trees(
    egraph: &EGraphSnapshot,
    eclass: usize,
    target_buf: Buffer,
    limit: usize,
    inputs: &HashSet<usize>,
) -> (r: Vec<Vec<TensorOp>>)
    requires
        egraph.wf(),
        eclass < egraph@.len(),
    ensures
        forest_view(r) == extraction_trees(egraph@, inputs@, eclass as int, target_buf, limit as nat),
    decreases limit, 3int, 0int,
{
    let mut trees: Vec<Vec<TensorOp>> = Vec::new();
    if limit == 0 {
        return trees;
    }
    let cls = egraph.class(eclass);
    let is_input = inputs.contains(&eclass);
    assert(forest_view(trees) == Seq::<Seq<OpView>>::empty());
    let mut k: usize = 0;
    while k < cls.nodes.len()
        invariant
            egraph.wf(),
            eclass < egraph@.len(),
            limit > 0,
            cls@ == egraph@.class(eclass as int),
            egraph@.is_canonical(cls.id as int),
            cls.id == egraph@.find(eclass as int),
            is_input == inputs@.contains(eclass),
            k <= cls.nodes.len(),
            extraction_trees(egraph@, inputs@, eclass as int, target_buf, limit as nat) == node_trees(
                egraph@,
                inputs@,
                eclass as int,
                target_buf,
                limit as nat,
                k as int,
                forest_view(trees),
            ),
        decreases cls.nodes.len() - k,
    {
        let en = &cls.nodes[k];
        assert(egraph@.class(eclass as int).nodes[k as int] == en@);
        if is_input && target_buf == Buffer::HBM {
            let ghost before = forest_view(trees);
            let t = vec![en.clone()];
            assert(tree_view(t) == seq![en@]);
            trees.push(t);
            assert(forest_view(trees) == before.push(seq![en@]));
            return trees;
        }
        if cls.data.is_const && en.is_detected_const() && target_buf == Buffer::HBM {
            let ghost before = forest_view(trees);
            let t = vec![en.clone()];
            assert(tree_view(t) == seq![en@]);
            trees.push(t);
            assert(forest_view(trees) == before.push(seq![en@]));
            return trees;
        }
        match buffer_assignment(en) {
            Some(bufs) => {
                if bufs[0] != Buffer::ANY && bufs[0] != target_buf {
                    k = k + 1;
                    continue;
                }
                assert forall|j: int| 0 <= j < en@.children.len() implies en@.children[j] < egraph@.len() by {
                    assert(egraph@.classes[cls.id as int].nodes[k as int] == en@);
                }
                let nt = build_new_trees(egraph, en, target_buf, limit, inputs);
                let ghost before = forest_view(trees);
                let mut q: usize = 0;
                while q < nt.len()
                    invariant
                        q <= nt.len(),
                        forest_view(trees) == before + forest_view(nt).take(q as int),
                    decreases nt.len() - q,
                {
                    let x = nt[q].clone();
                    let ghost b2 = forest_view(trees);
                    trees.push(x);
                    assert(forest_view(trees) == b2.push(tree_view(nt@[q as int])));
                    assert(forest_view(nt).take(q + 1) == forest_view(nt).take(q as int).push(tree_view(nt@[q as int])));
                    q = q + 1;
                }
                assert(forest_view(nt).take(nt.len() as int) == forest_view(nt));
            },
            None => {},
        }
        k = k + 1;
    }
    trees
}

/// Pops from the stack every node whose children are all attached.
pub open spec fn pop_full(tree: Seq<OpView>, children: Seq<Seq<usize>>, stack: Seq<usize>) -> Seq<usize>
    decreases stack.len(),
{
    if stack.len() == 0 {
        stack
    } else {
        let top = stack.last();
        if top < children.len() && top < tree.len() && children[top as int].len()
            == tree[top as int].children.len() {
            pop_full(tree, children, stack.drop_last())
        } else {
            stack
        }
    }
}

/// Edges of a pre-order tree: each node becomes the next child of the node on
/// top of the stack of nodes still missing children.
#[verifier::ext_equal]
pub struct Edges {
    pub children: Seq<Seq<usize>>,
    pub parent: Seq<Option<usize>>,
    pub stack: Seq<usize>,
}

pub open spec fn edges_from(tree: Seq<OpView>, st: Edges, i: int) -> Edges
    decreases tree.len() - i,
{
    if i < 0 || i >= tree.len() {
        st
    } else {
        let attached = if st.stack.len() > 0 && st.stack.last() < st.children.len() {
            let top = st.stack.last();
            Edges {
                children: st.children.update(top as int, st.children[top as int].push(i as usize)),
                parent: st.parent.update(i, Some(top)),
                stack: st.stack,
            }
        } else {
            st
        };
        let pushed = Edges { stack: attached.stack.push(i as usize), ..attached };
        let next = if tree[i].children.len() == 0 {
            Edges { stack: pop_full(tree, pushed.children, pushed.stack), ..pushed }
        } else {
            pushed
        };
        edges_from(tree, next, i + 1)
    }
}

fn top_full(tree: &Vec<TensorOp>, children: &Vec<Vec<usize>>, stack: &Vec<usize>) -> (r: bool)
    requires
        stack.len() > 0,
    ensures
        r == ({
            let top = stack@.last();
            top < children.len() && top < tree.len() && lists_view(*children)[top as int].len()
                == tree_view(*tree)[top as int].children.len()
        }),
{
    let top = stack[stack.len() - 1];
    top < children.len() && top < tree.len() && children[top].len() == tree[top].num_children()
}

/// Children lists and parents recovered from a pre-order tree.
pub open spec fn tree_edges(tree: Seq<OpView>) -> Edges {
    edges_from(
        tree,
        Edges {
            children: Seq::new(tree.len(), |i: int| Seq::<usize>::empty()),
            parent: Seq::new(tree.len(), |i: int| None::<usize>),
            stack: Seq::empty(),
        },
        0,
    )
}

pub open spec fn lists_view(v: Vec<Vec<usize>>) -> Seq<Seq<usize>> {
    v@.map_values(|x: Vec<usize>| x@)
}

/// Given a pre-order extraction tree, recovers the children of each node and
/// the parent of each node.
pub fn get_edges(tree: &Vec<TensorOp>) -> (r: (Vec<Vec<usize>>, Vec<Option<usize>>))
    ensures
        lists_view(r.0) == tree_edges(tree_view(*tree)).children,
        r.1@ == tree_edges(tree_view(*tree)).parent,
{
    let ghost tv = tree_view(*tree);
    let n = tree.len();
    let mut children: Vec<Vec<usize>> = Vec::new();
    let mut parent: Vec<Option<usize>> = Vec::new();
    let mut i: usize = 0;
    while i < n
        invariant
            n == tree.len(),
            i <= n,
            children.len() == i,
            parent.len() == i,
            forall|q: int| 0 <= q < i ==> (#[trigger] children@[q])@ == Seq::<usize>::empty(),
            forall|q: int| 0 <= q < i ==> (#[trigger] parent@[q]) == None::<usize>,
        decreases n - i,
    {
        children.push(Vec::new());
        parent.push(None);
        i = i + 1;
    }
    let mut stack: Vec<usize> = Vec::new();
    let ghost init = Edges { children: lists_view(children), parent: parent@, stack: stack@ };
    assert(lists_view(children) =~= Seq::new(tv.len(), |i: int| Seq::<usize>::empty()));
    assert(parent@ =~= Seq::new(tv.len(), |i: int| None::<usize>));
    assert(init =~= Edges {
        children: Seq::new(tv.len(), |i: int| Seq::<usize>::empty()),
        parent: Seq::new(tv.len(), |i: int| None::<usize>),
        stack: Seq::empty(),
    });
    let mut i: usize = 0;
    while i < n
        invariant
            n == tree.len(),
            tv == tree_view(*tree),
            i <= n,
            children.len() == n,
            parent.len() == n,
            tree_edges(tv) == edges_from(tv, Edges { children: lists_view(children), parent: parent@, stack: stack@ }, i as int),
        decreases n - i,
    {
        let ghost st = Edges { children: lists_view(children), parent: parent@, stack: stack@ };
        if stack.len() > 0 && stack[stack.len() - 1] < children.len() {
            let top = stack[stack.len() - 1];
            let mut c = children[top].clone();
            c.push(i);
            children.set(top, c);
            parent.set(i, Some(top));
            assert(lists_view(children) =~= st.children.update(top as int, st.children[top as int].push(i)));
        }
        let ghost attached = Edges { children: lists_view(children), parent: parent@, stack: stack@ };
        stack.push(i);
        let ghost pushed = Edges { children: lists_view(children), parent: parent@, stack: stack@ };
        assert(pushed =~= Edges { stack: attached.stack.push(i as usize), ..attached });
        if tree[i].is_leaf() {
            while stack.len() > 0 && top_full(tree, &children, &stack)
                invariant
                    children.len() == n,
                    n == tree.len(),
                    tv == tree_view(*tree),
                    pop_full(tv, pushed.children, pushed.stack) == pop_full(tv, lists_view(children), stack@),
                    lists_view(children) == pushed.children,
                    parent@ == pushed.parent,
                decreases stack.len(),
            {
                stack.pop();
            }
            assert(stack@ == pop_full(tv, pushed.children, pushed.stack));
        }
        i = i + 1;
    }
    (children, parent)
}

/// One extraction: a pre-order tree whose equal subtrees may have been
/// collapsed, with the children of each node and its parent (`None` for the
/// root and for collapsed duplicates).
#[derive(Debug)]
pub struct Extraction {
    pub tree: Vec<TensorOp>,
    pub children: Vec<Vec<usize>>,
    pub parent: Vec<Option<usize>>,
}

#[verifier::ext_equal]
pub struct ExtractionView {
    pub tree: Seq<OpView>,
    pub children: Seq<Seq<usize>>,
    pub parent: Seq<Option<usize>>,
}

impl View for Extraction {
    type V = ExtractionView;

    open spec fn view(&self) -> ExtractionView {
        ExtractionView { tree: tree_view(self.tree), children: lists_view(self.children), parent: self.parent@ }
    }
}

/// State of value numbering over an extraction tree.
#[verifier::ext_equal]
pub struct Gvn {
    pub children: Seq<Seq<usize>>,
    pub parent: Seq<Option<usize>>,
    pub idx: Seq<(OpView, usize)>,
    pub processed: Seq<bool>,
    pub out: Seq<ExtractionView>,
}

/// Index of the first numbered node at or after `i` equal to `op`, or -1.
pub open spec fn idx_find(m: Seq<(OpView, usize)>, op: OpView, i: int) -> int
    decreases m.len() - i,
{
    if i < 0 || i >= m.len() {
        -1
    } else if m[i].0 == op {
        i
    } else {
        idx_find(m, op, i + 1)
    }
}

/// Index of the first `x` at or after `i`, or -1.
pub open spec fn position(s: Seq<usize>, x: usize, i: int) -> int
    decreases s.len() - i,
{
    if i < 0 || i >= s.len() {
        -1
    } else if s[i] == x {
        i
    } else {
        position(s, x, i + 1)
    }
}

/// Redirects the parent of duplicate node `i` to the first node equal to it
/// and detaches `i`; with `record`, the resulting extraction is recorded.
/// `None` where the node is missing from its parent's children.
pub open spec fn collapse(tree: Seq<OpView>, st: Gvn, i: int, record: bool) -> Option<Gvn> {
    match st.parent[i] {
        None => Some(st),
        Some(p) => if p >= st.children.len() {
            None
        } else {
            let pos = position(st.children[p as int], i as usize, 0);
            if pos < 0 {
                None
            } else {
                let v = st.idx[idx_find(st.idx, tree[i], 0)].1;
                let st2 = Gvn {
                    children: st.children.update(p as int, st.children[p as int].update(pos, v)),
                    parent: st.parent.update(i, None),
                    ..st
                };
                Some(
                    if record {
                        Gvn {
                            out: st2.out.push(
                                ExtractionView { tree, children: st2.children, parent: st2.parent },
                            ),
                            ..st2
                        }
                    } else {
                        st2
                    },
                )
            }
        },
    }
}

/// Numbers node `i` if no equal node was numbered before, collapses it
/// otherwise, and marks it processed.
pub open spec fn number(tree: Seq<OpView>, st: Gvn, i: int, record: bool) -> Option<Gvn> {
    let st2 = if idx_find(st.idx, tree[i], 0) < 0 {
        Some(Gvn { idx: st.idx.push((tree[i], i as usize)), ..st })
    } else {
        collapse(tree, st, i, record)
    };
    match st2 {
        None => None,
        Some(s) => Some(Gvn { processed: s.processed.update(i, true), ..s }),
    }
}

/// First pass: all leaves, in order; duplicate leaves are collapsed.
pub open spec fn leaf_phase(tree: Seq<OpView>, st: Gvn, i: int) -> Option<Gvn>
    decreases tree.len() - i,
{
    if i < 0 || i >= tree.len() {
        Some(st)
    } else if tree[i].children.len() == 0 {
        match number(tree, st, i, false) {
            None => None,
            Some(s) => leaf_phase(tree, s, i + 1),
        }
    } else {
        leaf_phase(tree, st, i + 1)
    }
}

/// Whether the children from the `j`-th on are all processed; `None` where one
/// is not a node of the tree.
pub open spec fn all_processed(chs: Seq<usize>, processed: Seq<bool>, j: int) -> Option<bool>
    decreases chs.len() - j,
{
    if j < 0 || j >= chs.len() {
        Some(true)
    } else if chs[j] >= processed.len() {
        None
    } else if !processed[chs[j] as int] {
        Some(false)
    } else {
        all_processed(chs, processed, j + 1)
    }
}

/// One pass over the nodes in order, numbering (or collapsing and recording)
/// each unprocessed node whose children are all processed.
pub open spec fn gvn_pass(tree: Seq<OpView>, st: Gvn, i: int) -> Option<Gvn>
    decreases tree.len() - i,
{
    if i < 0 || i >= tree.len() {
        Some(st)
    } else if i >= st.children.len() || i >= st.processed.len() {
        None
    } else {
        match all_processed(st.children[i], st.processed, 0) {
            None => None,
            Some(ready) => if ready && !st.processed[i] {
                match number(tree, st, i, true) {
                    None => None,
                    Some(s) => gvn_pass(tree, s, i + 1),
                }
            } else {
                gvn_pass(tree, st, i + 1)
            },
        }
    }
}

/// Passes until every node is processed; `None` when a pass makes no progress.
pub open spec fn gvn_rounds(tree: Seq<OpView>, st: Gvn) -> Option<Gvn>
    decreases count_false(st.processed),
{
    if count_false(st.processed) == 0 {
        Some(st)
    } else {
        match gvn_pass(tree, st, 0) {
            None => None,
            Some(s) => if count_false(s.processed) < count_false(st.processed) {
                gvn_rounds(tree, s)
            } else {
                None
            },
        }
    }
}

/// Final state of value numbering a tree with the given children and parents:
/// duplicate leaves collapsed first (recording the result as the first
/// extraction), then passes collapsing duplicate subtrees bottom-up, each
/// collapse recorded as one more extraction.
pub open spec fn gvn_result(tree: Seq<OpView>, children: Seq<Seq<usize>>, parent: Seq<Option<usize>>) -> Option<Gvn> {
    let init = Gvn { children, parent, idx: Seq::empty(), processed: all_false(tree.len()), out: Seq::empty() };
    match leaf_phase(tree, init, 0) {
        None => None,
        Some(s) => {
            let s1 = Gvn {
                out: seq![ExtractionView { tree, children: s.children, parent: s.parent }],
                ..s
            };
            gvn_rounds(tree, s1)
        },
    }
}

/// The extractions obtained from a tree by value numbering: the tree with its
/// duplicate leaves collapsed, then one more extraction for each duplicate
/// subtree collapsed, bottom-up.
pub open spec fn extractions_of(tree: Seq<OpView>, children: Seq<Seq<usize>>, parent: Seq<Option<usize>>) -> Option<
    Seq<ExtractionView>,
> {
    match gvn_result(tree, children, parent) {
        None => None,
        Some(f) => Some(f.out),
    }
}

pub open spec fn idx_view(m: Vec<(TensorOp, usize)>) -> Seq<(OpView, usize)> {
    m@.map_values(|e: (TensorOp, usize)| (e.0@, e.1))
}

pub open spec fn outs_view(v: Vec<Extraction>) -> Seq<ExtractionView> {
    v@.map_values(|e: Extraction| e@)
}

pub open spec fn gvn_of(
    children: Vec<Vec<usize>>,
    parent: Vec<Option<usize>>,
    idx: Vec<(TensorOp, usize)>,
    processed: Vec<bool>,
    out: Vec<Extraction>,
) -> Gvn {
    Gvn {
        children: lists_view(children),
        parent: parent@,
        idx: idx_view(idx),
        processed: processed@,
        out: outs_view(out),
    }
}

fn idx_lookup(m: &Vec<(TensorOp, usize)>, op: &TensorOp) -> (r: Option<usize>)
    ensures
        r is None <==> idx_find(idx_view(*m), op@, 0) < 0,
        r matches Some(v) ==> 0 <= idx_find(idx_view(*m), op@, 0) < m.len() && v == idx_view(*m)[idx_find(
            idx_view(*m),
            op@,
            0,
        )].1,
{
    let ghost mv = idx_view(*m);
    let mut i: usize = 0;
    while i < m.len()
        invariant
            mv == idx_view(*m),
            i <= m.len(),
            idx_find(mv, op@, 0) == idx_find(mv, op@, i as int),
        decreases m.len() - i,
    {
        assert(mv[i as int] == (m@[i as int].0@, m@[i as int].1));
        if m[i].0.same(op) {
            return Some(m[i].1);
        }
        i = i + 1;
    }
    None
}

fn position_of(s: &Vec<usize>, x: usize) -> (r: Option<usize>)
    ensures
        r is None <==> position(s@, x, 0) < 0,
        r matches Some(p) ==> p == position(s@, x, 0) && p < s.len(),
{
    let mut i: usize = 0;
    while i < s.len()
        invariant
            i <= s.len(),
            position(s@, x, 0) == position(s@, x, i as int),
        decreases s.len() - i,
    {
        if s[i] == x {
            return Some(i);
        }
        i = i + 1;
    }
    None
}

fn clone_tree(t: &Vec<TensorOp>) -> (r: Vec<TensorOp>)
    ensures
        tree_view(r) == tree_view(*t),
{
    let mut r: Vec<TensorOp> = Vec::new();
    assert(tree_view(r) == Seq::<OpView>::empty());
    append_ops(&mut r, t);
    assert(Seq::<OpView>::empty() + tree_view(*t) == tree_view(*t));
    r
}

fn clone_lists(v: &Vec<Vec<usize>>) -> (r: Vec<Vec<usize>>)
    ensures
        lists_view(r) == lists_view(*v),
{
    let mut r: Vec<Vec<usize>> = Vec::new();
    let mut i: usize = 0;
    while i < v.len()
        invariant
            i <= v.len(),
            lists_view(r) == lists_view(*v).take(i as int),
        decreases v.len() - i,
    {
        let x = v[i].clone();
        let ghost b = lists_view(r);
        r.push(x);
        assert(lists_view(r) == b.push(v@[i as int]@));
        assert(lists_view(*v).take(i + 1) == lists_view(*v).take(i as int).push(v@[i as int]@));
        i = i + 1;
    }
    assert(lists_view(*v).take(v.len() as int) == lists_view(*v));
    r
}

fn clone_parents(v: &Vec<Option<usize>>) -> (r: Vec<Option<usize>>)
    ensures
        r@ == v@,
{
    let mut r: Vec<Option<usize>> = Vec::new();
    let mut i: usize = 0;
    while i < v.len()
        invariant
            i <= v.len(),
            r@ == v@.take(i as int),
        decreases v.len() - i,
    {
        r.push(v[i]);
        assert(v@.take(i + 1) == v@.take(i as int).push(v@[i as int]));
        i = i + 1;
    }
    assert(v@.take(v.len() as int) == v@);
    r
}

/// `number` on the executable state; `false` where it is `None`.
fn number_node(
    tree: &Vec<TensorOp>,
    children: &mut Vec<Vec<usize>>,
    parent: &mut Vec<Option<usize>>,
    idx: &mut Vec<(TensorOp, usize)>,
    processed: &mut Vec<bool>,
    out: &mut Vec<Extraction>,
    i: usize,
    record: bool,
) -> (ok: bool)
    requires
        i < tree.len(),
        i < old(parent).len(),
        i < old(processed).len(),
    ensures
        ok == number(tree_view(*tree), gvn_of(*old(children), *old(parent), *old(idx), *old(processed), *old(out)), i as int, record) is Some,
        ok ==> gvn_of(*final(children), *final(parent), *final(idx), *final(processed), *final(out)) == number(
            tree_view(*tree),
            gvn_of(*old(children), *old(parent), *old(idx), *old(processed), *old(out)),
            i as int,
            record,
        )->0,
        final(children).len() == old(children).len(),
        final(parent).len() == old(parent).len(),
        final(processed).len() == old(processed).len(),
{
    let ghost tv = tree_view(*tree);
    let ghost st = gvn_of(*children, *parent, *idx, *processed, *out);
    let node = &tree[i];
    assert(tv[i as int] == node@);
    match idx_lookup(idx, node) {
        None => {
            idx.push((node.clone(), i));
            assert(idx_view(*idx) == st.idx.push((tv[i as int], i)));
        },
        Some(v) => {
            match parent[i] {
                None => {},
                Some(p) => {
                    if p >= children.len() {
                        return false;
                    }
                    match position_of(&children[p], i) {
                        None => {
                            return false;
                        },
                        Some(pos) => {
                            let mut sib = children[p].clone();
                            sib.set(pos, v);
                            children.set(p, sib);
                            parent.set(i, None);
                            assert(lists_view(*children) == st.children.update(
                                p as int,
                                st.children[p as int].update(pos as int, v),
                            ));
                            if record {
                                let e = Extraction {
                                    tree: clone_tree(tree),
                                    parent: clone_parents(parent),
                                    children: clone_lists(children),
                                };
                                let ghost b = outs_view(*out);
                                out.push(e);
                                assert(outs_view(*out) == b.push(e@));
                            }
                        },
                    }
                },
            }
        },
    }
    processed.set(i, true);
    true
}

fn count_unprocessed(processed: &Vec<bool>) -> (r: usize)
    ensures
        r == count_false(processed@),
{
    let mut r: usize = 0;
    let mut i: usize = 0;
    while i < processed.len()
        invariant
            i <= processed.len(),
            r == count_false(processed@.take(i as int)),
            r <= i,
        decreases processed.len() - i,
    {
        assert(processed@.take(i + 1).drop_last() == processed@.take(i as int));
        if !processed[i] {
            r = r + 1;
        }
        i = i + 1;
    }
    assert(processed@.take(processed.len() as int) == processed@);
    r
}

fn children_processed(chs: &Vec<usize>, processed: &Vec<bool>) -> (r: Option<bool>)
    ensures
        r == all_processed(chs@, processed@, 0),
{
    let mut j: usize = 0;
    while j < chs.len()
        invariant
            j <= chs.len(),
            all_processed(chs@, processed@, 0) == all_processed(chs@, processed@, j as int),
        decreases chs.len() - j,
    {
        if chs[j] >= processed.len() {
            return None;
        }
        if !processed[chs[j]] {
            return Some(false);
        }
        j = j + 1;
    }
    Some(true)
}

/// Value numbering on a pre-order extraction tree with its edges: duplicate
/// leaves are collapsed first, giving the first extraction; then, bottom-up,
/// each node equal to an earlier one is collapsed into it, each collapse
/// giving one more extraction. `None` where a node is missing from its
/// parent's children, a child is not a node, or a pass makes no progress.
pub fn get_extractions(
    tree: &Vec<TensorOp>,
    child_map: &mut Vec<Vec<usize>>,
    parent_map: &mut Vec<Option<usize>>,
) -> (r: Option<Vec<Extraction>>)
    requires
        old(child_map).len() == tree.len(),
        old(parent_map).len() == tree.len(),
    ensures
        r is None <==> extractions_of(tree_view(*tree), lists_view(*old(child_map)), old(parent_map)@) is None,
        r matches Some(v) ==> extractions_of(tree_view(*tree), lists_view(*old(child_map)), old(parent_map)@) == Some(
            outs_view(v),
        ),
        r is Some ==> ({
            let f = gvn_result(tree_view(*tree), lists_view(*old(child_map)), old(parent_map)@)->0;
            lists_view(*final(child_map)) == f.children && final(parent_map)@ == f.parent
        }),
{
    let ghost tv = tree_view(*tree);
    let n = tree.len();
    let mut idx: Vec<(TensorOp, usize)> = Vec::new();
    let mut processed: Vec<bool> = Vec::new();
    while processed.len() < n
        invariant
            processed.len() <= n,
            forall|q: int| 0 <= q < processed.len() ==> !processed@[q],
        decreases n - processed.len(),
    {
        processed.push(false);
    }
    assert(processed@ == all_false(n as nat));
    let mut out: Vec<Extraction> = Vec::new();
    let ghost init = gvn_of(*child_map, *parent_map, idx, processed, out);
    assert(init == Gvn {
        children: lists_view(*old(child_map)),
        parent: old(parent_map)@,
        idx: Seq::empty(),
        processed: all_false(tv.len()),
        out: Seq::empty(),
    });
    let mut i: usize = 0;
    while i < n
        invariant
            n == tree.len(),
            tv == tree_view(*tree),
            i <= n,
            child_map.len() == n,
            parent_map.len() == n,
            processed.len() == n,
            init == (Gvn {
                children: lists_view(*old(child_map)),
                parent: old(parent_map)@,
                idx: Seq::empty(),
                processed: all_false(tv.len()),
                out: Seq::empty(),
            }),
            outs_view(out) == Seq::<ExtractionView>::empty(),
            leaf_phase(tv, init, 0) == leaf_phase(tv, gvn_of(*child_map, *parent_map, idx, processed, out), i as int),
        decreases n - i,
    {
        if tree[i].is_leaf() {
            if !number_node(tree, child_map, parent_map, &mut idx, &mut processed, &mut out, i, false) {
                return None;
            }
        }
        i = i + 1;
    }
    let ghost s = gvn_of(*child_map, *parent_map, idx, processed, out);
    assert(leaf_phase(tv, init, 0) == Some(s));
    let first = Extraction {
        tree: clone_tree(tree),
        parent: clone_parents(parent_map),
        children: clone_lists(child_map),
    };
    out.push(first);
    let ghost s1 = gvn_of(*child_map, *parent_map, idx, processed, out);
    assert(outs_view(out) == seq![ExtractionView { tree: tv, children: s.children, parent: s.parent }]);
    assert(s1 == Gvn { out: seq![ExtractionView { tree: tv, children: s.children, parent: s.parent }], ..s });
    let mut remaining = count_unprocessed(&processed);
    while remaining > 0
        invariant
            n == tree.len(),
            tv == tree_view(*tree),
            child_map.len() == n,
            parent_map.len() == n,
            processed.len() == n,
            remaining == count_false(processed@),
            init == (Gvn {
                children: lists_view(*old(child_map)),
                parent: old(parent_map)@,
                idx: Seq::empty(),
                processed: all_false(tv.len()),
                out: Seq::empty(),
            }),
            leaf_phase(tv, init, 0) == Some(s),
            s1 == (Gvn { out: seq![ExtractionView { tree: tv, children: s.children, parent: s.parent }], ..s }),
            gvn_rounds(tv, s1) == gvn_rounds(tv, gvn_of(*child_map, *parent_map, idx, processed, out)),
        decreases remaining,
    {
        let ghost st = gvn_of(*child_map, *parent_map, idx, processed, out);
        let mut i: usize = 0;
        while i < n
            invariant
                n == tree.len(),
                tv == tree_view(*tree),
                i <= n,
                child_map.len() == n,
                parent_map.len() == n,
                processed.len() == n,
                init == (Gvn {
                    children: lists_view(*old(child_map)),
                    parent: old(parent_map)@,
                    idx: Seq::empty(),
                    processed: all_false(tv.len()),
                    out: Seq::empty(),
                }),
                leaf_phase(tv, init, 0) == Some(s),
                s1 == (Gvn { out: seq![ExtractionView { tree: tv, children: s.children, parent: s.parent }], ..s }),
                gvn_rounds(tv, s1) == gvn_rounds(tv, st),
                remaining == count_false(st.processed),
                remaining > 0,
                gvn_pass(tv, st, 0) == gvn_pass(tv, gvn_of(*child_map, *parent_map, idx, processed, out), i as int),
            decreases n - i,
        {
            match children_processed(&child_map[i], &processed) {
                None => {
                    return None;
                },
                Some(ready) => {
                    if ready && !processed[i] {
                        if !number_node(tree, child_map, parent_map, &mut idx, &mut processed, &mut out, i, true) {
                            return None;
                        }
                    }
                },
            }
            i = i + 1;
        }
        let now = count_unprocessed(&processed);
        assert(gvn_pass(tv, st, 0) == Some(gvn_of(*child_map, *parent_map, idx, processed, out)));
        if now >= remaining {
            assert(gvn_rounds(tv, st) is None);
            return None;
        }
        remaining = now;
    }
    Some(out)
}

/// Children of node `idx` of an extraction (none for an index without an entry).
pub open spec fn children_of(e: ExtractionView, idx: int) -> Seq<usize> {
    if 0 <= idx < e.children.len() {
        e.children[idx]
    } else {
        Seq::empty()
    }
}

/// Depth-first post-order walk from node `idx`: visited marks and the
/// post-order so far; `None` when it reaches an index that is not a node.
pub open spec fn dfs(e: ExtractionView, idx: int, visited: Seq<bool>, post: Seq<usize>) -> Option<
    (Seq<bool>, Seq<usize>),
>
    decreases count_false(visited), 1int, 0int,
{
    if !(0 <= idx < e.tree.len()) || visited.len() != e.tree.len() {
        None
    } else if visited[idx] {
        Some((visited, post))
    } else {
        let v2 = visited.update(idx, true);
        proof {
            lemma_count_false_set(visited, idx);
        }
        match dfs_list(e, children_of(e, idx), 0, v2, post) {
            None => None,
            Some(r) => Some((r.0, r.1.push(idx as usize))),
        }
    }
}

/// The walk over the children from the `j`-th on.
pub open spec fn dfs_list(e: ExtractionView, chs: Seq<usize>, j: int, visited: Seq<bool>, post: Seq<usize>) -> Option<
    (Seq<bool>, Seq<usize>),
>
    decreases count_false(visited), 2int, chs.len() - j,
{
    if j < 0 || j >= chs.len() {
        Some((visited, post))
    } else {
        match dfs(e, chs[j] as int, visited, post) {
            None => None,
            Some(r) => if count_false(r.0) <= count_false(visited) {
                dfs_list(e, chs, j + 1, r.0, r.1)
            } else {
                None
            },
        }
    }
}

/// The PII nodes of the children from the `j`-th on that already have one.
pub open spec fn collect_ids(imap: Seq<Option<usize>>, chs: Seq<usize>, j: int, acc: Seq<usize>) -> Seq<usize>
    decreases chs.len() - j,
{
    if j < 0 || j >= chs.len() {
        acc
    } else if chs[j] < imap.len() && imap[chs[j] as int] is Some {
        collect_ids(imap, chs, j + 1, acc.push(imap[chs[j] as int]->0))
    } else {
        collect_ids(imap, chs, j + 1, acc)
    }
}

/// Adds the nodes of the post-order from the `i`-th on to the PII graph, each
/// with its class's metadata and HBM offset; `None` when a node is not found
/// in the e-graph or `add_node` refuses it.
pub open spec fn build_from_post(
    g: SnapshotView,
    offs: Seq<(Option<usize>, i32)>,
    e: ExtractionView,
    post: Seq<usize>,
    i: int,
    pii: Seq<PiiNodeView>,
    imap: Seq<Option<usize>>,
) -> Option<Seq<PiiNodeView>>
    decreases post.len() - i,
{
    if i < 0 || i >= post.len() {
        Some(pii)
    } else if post[i] >= e.tree.len() || post[i] >= imap.len() {
        None
    } else {
        let idx = post[i] as int;
        let op = e.tree[idx];
        let cids = collect_ids(imap, children_of(e, idx), 0, Seq::empty());
        match lookup(g, op) {
            None => None,
            Some(ec) => if !can_add(pii, op, cids) {
                None
            } else {
                let node = PiiNodeView {
                    id: pii.len() as usize,
                    op,
                    info: g.class(ec).data,
                    buffer: placed_buffer(pii, op, cids),
                    hbm_offset: hbm_offset_of(g, offs, ec),
                    children: cids,
                };
                build_from_post(g, offs, e, post, i + 1, pii.push(node), imap.update(idx, Some(pii.len() as usize)))
            },
        }
    }
}

/// The PII graph of an extraction: its nodes in post-order from the root.
pub open spec fn extraction_pii(g: SnapshotView, offs: Seq<(Option<usize>, i32)>, e: ExtractionView) -> Option<
    Seq<PiiNodeView>,
> {
    let imap = Seq::new(e.tree.len(), |i: int| None::<usize>);
    if e.tree.len() == 0 {
        Some(Seq::empty())
    } else {
        match dfs(e, 0, all_false(e.tree.len()), Seq::empty()) {
            None => None,
            Some(r) => build_from_post(g, offs, e, r.1, 0, Seq::empty(), imap),
        }
    }
}

fn dfs_visit(e: &Extraction, idx: usize, visited: &mut Vec<bool>, post: &mut Vec<usize>) -> (ok: bool)
    ensures
        ok == dfs(e@, idx as int, old(visited)@, old(post)@) is Some,
        ok ==> (final(visited)@, final(post)@) == dfs(e@, idx as int, old(visited)@, old(post)@)->0,
        ok ==> count_false(final(visited)@) <= count_false(old(visited)@),
        final(visited).len() == old(visited).len(),
    decreases count_false(old(visited)@), 1int, 0int,
{
    if idx >= e.tree.len() || visited.len() != e.tree.len() {
        return false;
    }
    if visited[idx] {
        return true;
    }
    proof {
        lemma_count_false_set(visited@, idx as int);
    }
    visited.set(idx, true);
    let chs: Vec<usize> = if idx < e.children.len() {
        e.children[idx].clone()
    } else {
        Vec::new()
    };
    assert(chs@ == children_of(e@, idx as int));
    let ok = dfs_children(e, &chs, visited, post);
    if !ok {
        return false;
    }
    post.push(idx);
    true
}

fn dfs_children(e: &Extraction, chs: &Vec<usize>, visited: &mut Vec<bool>, post: &mut Vec<usize>) -> (ok: bool)
    ensures
        ok == dfs_list(e@, chs@, 0, old(visited)@, old(post)@) is Some,
        ok ==> (final(visited)@, final(post)@) == dfs_list(e@, chs@, 0, old(visited)@, old(post)@)->0,
        ok ==> count_false(final(visited)@) <= count_false(old(visited)@),
        final(visited).len() == old(visited).len(),
    decreases count_false(old(visited)@), 2int, chs.len(),
{
    let ghost v0 = visited@;
    let ghost p0 = post@;
    let mut j: usize = 0;
    while j < chs.len()
        invariant
            j <= chs.len(),
            v0 == old(visited)@,
            p0 == old(post)@,
            visited.len() == v0.len(),
            count_false(visited@) <= count_false(v0),
            dfs_list(e@, chs@, 0, v0, p0) == dfs_list(e@, chs@, j as int, visited@, post@),
        decreases chs.len() - j,
    {
        let ghost vb = visited@;
        let ghost pb = post@;
        if !dfs_visit(e, chs[j], visited, post) {
            assert(dfs_list(e@, chs@, j as int, vb, pb) is None);
            return false;
        }
        j = j + 1;
    }
    true
}

fn collect_child_ids(imap: &Vec<Option<usize>>, chs: &Vec<usize>) -> (r: Vec<usize>)
    ensures
        r@ == collect_ids(imap@, chs@, 0, Seq::empty()),
{
    let mut r: Vec<usize> = Vec::new();
    let mut j: usize = 0;
    while j < chs.len()
        invariant
            j <= chs.len(),
            collect_ids(imap@, chs@, 0, Seq::empty()) == collect_ids(imap@, chs@, j as int, r@),
        decreases chs.len() - j,
    {
        let c = chs[j];
        if c < imap.len() {
            match imap[c] {
                Some(v) => {
                    r.push(v);
                },
                None => {},
            }
        }
        j = j + 1;
    }
    r
}

/// Converts an extraction into a PII graph, adding its nodes in post-order
/// from the root, each with the metadata and HBM offset of its class. `None`
/// when a node is not in the e-graph or cannot be added.
pub fn extraction_to_piigraph(
    extraction: &Extraction,
    hbm_offsets: &Vec<(Option<usize>, i32)>,
    egraph: &EGraphSnapshot,
) -> (r: Option<PiiGraph>)
    requires
        egraph.wf(),
        offsets_in_range(egraph@, hbm_offsets@),
    ensures
        r is None <==> extraction_pii(egraph@, hbm_offsets@, extraction@) is None,
        r matches Some(p) ==> extraction_pii(egraph@, hbm_offsets@, extraction@) == Some(p@),
{
    let n = extraction.tree.len();
    let mut pii = PiiGraph { nodes: Vec::new() };
    assert(pii@ == Seq::<PiiNodeView>::empty());
    if n == 0 {
        return Some(pii);
    }
    let mut visited: Vec<bool> = Vec::new();
    while visited.len() < n
        invariant
            visited.len() <= n,
            forall|q: int| 0 <= q < visited.len() ==> !visited@[q],
        decreases n - visited.len(),
    {
        visited.push(false);
    }
    assert(visited@ == all_false(n as nat));
    let mut post: Vec<usize> = Vec::new();
    assert(post@ == Seq::<usize>::empty());
    if !dfs_visit(extraction, 0, &mut visited, &mut post) {
        return None;
    }
    let mut imap: Vec<Option<usize>> = Vec::new();
    while imap.len() < n
        invariant
            imap.len() <= n,
            forall|q: int| 0 <= q < imap.len() ==> imap@[q] is None,
        decreases n - imap.len(),
    {
        imap.push(None);
    }
    assert(imap@ == Seq::new(n as nat, |i: int| None::<usize>));
    let ghost ev = extraction@;
    let ghost full = build_from_post(egraph@, hbm_offsets@, ev, post@, 0, Seq::empty(), imap@);
    assert(extraction_pii(egraph@, hbm_offsets@, ev) == full);
    let mut i: usize = 0;
    while i < post.len()
        invariant
            egraph.wf(),
            offsets_in_range(egraph@, hbm_offsets@),
            ev == extraction@,
            i <= post.len(),
            full == build_from_post(egraph@, hbm_offsets@, ev, post@, i as int, pii@, imap@),
            extraction_pii(egraph@, hbm_offsets@, ev) == full,
        decreases post.len() - i,
    {
        let idx = post[i];
        if idx >= extraction.tree.len() || idx >= imap.len() {
            return None;
        }
        let op = &extraction.tree[idx];
        assert(ev.tree[idx as int] == op@);
        let chs: Vec<usize> = if idx < extraction.children.len() {
            extraction.children[idx].clone()
        } else {
            Vec::new()
        };
        assert(chs@ == children_of(ev, idx as int));
        let cids = collect_child_ids(&imap, &chs);
        match egraph.lookup(op) {
            None => {
                return None;
            },
            Some(ec) => {
                proof {
                    assert(egraph@.is_canonical(ec as int));
                }
                let info = egraph.class(ec).data.clone();
                let off = get_hbm_offset(egraph, hbm_offsets, ec);
                let ghost before = pii@;
                match pii.try_add_node(op.clone(), info, cids, off) {
                    None => {
                        return None;
                    },
                    Some(id) => {
                        imap.set(idx, Some(id));
                    },
                }
            },
        }
        i = i + 1;
    }
    Some(pii)
}

/// PII graphs of the extractions from the `j`-th on, appended to `acc`.
pub open spec fn ex_piis(
    g: SnapshotView,
    offs: Seq<(Option<usize>, i32)>,
    exs: Seq<ExtractionView>,
    j: int,
    acc: Seq<Seq<PiiNodeView>>,
) -> Option<Seq<Seq<PiiNodeView>>>
    decreases exs.len() - j,
{
    if j < 0 || j >= exs.len() {
        Some(acc)
    } else {
        match extraction_pii(g, offs, exs[j]) {
            None => None,
            Some(p) => ex_piis(g, offs, exs, j + 1, acc.push(p)),
        }
    }
}

/// PII graphs of all extractions of the trees from the `i`-th on, appended to `acc`.
pub open spec fn all_piis(
    g: SnapshotView,
    offs: Seq<(Option<usize>, i32)>,
    trees: Seq<Seq<OpView>>,
    i: int,
    acc: Seq<Seq<PiiNodeView>>,
) -> Option<Seq<Seq<PiiNodeView>>>
    decreases trees.len() - i,
{
    if i < 0 || i >= trees.len() {
        Some(acc)
    } else {
        let ed = tree_edges(trees[i]);
        match extractions_of(trees[i], ed.children, ed.parent) {
            None => None,
            Some(exs) => match ex_piis(g, offs, exs, 0, acc) {
                None => None,
                Some(acc2) => all_piis(g, offs, trees, i + 1, acc2),
            },
        }
    }
}

/// Outcome of the slow extractor on a snapshot: the PII graphs of every
/// extraction of every extraction tree of at most `limit` e-nodes, in order.
pub open spec fn slow_result(
    g: SnapshotView,
    inputs: Set<usize>,
    root: int,
    offs: Seq<(Option<usize>, i32)>,
    limit: nat,
) -> Option<Seq<Seq<PiiNodeView>>> {
    all_piis(g, offs, extraction_trees(g, inputs, root, Buffer::HBM, limit), 0, Seq::empty())
}

pub open spec fn piis_view(v: Vec<PiiGraph>) -> Seq<Seq<PiiNodeView>> {
    v@.map_values(|p: PiiGraph| p@)
}

/// Slow extraction on a snapshot taken after constant annotation: all
/// extraction trees from `root` with at most `limit` e-nodes, each turned into
/// its extractions by value numbering, each of those into a PII graph.
/// `None` when `extraction_to_piigraph` refuses an extraction (value numbering
/// itself always succeeds on these trees: see `lemma_extractions_of_edges`).
pub fn extract_slow(
    egraph: &EGraphSnapshot,
    root: usize,
    inputs: &HashSet<usize>,
    hbm_offsets: &Vec<(Option<usize>, i32)>,
    limit: usize,
) -> (r: Option<Vec<PiiGraph>>)
    requires
        egraph.wf(),
        root < egraph@.len(),
        offsets_in_range(egraph@, hbm_offsets@),
    ensures
        r is None <==> slow_result(egraph@, inputs@, root as int, hbm_offsets@, limit as nat) is None,
        r matches Some(v) ==> slow_result(egraph@, inputs@, root as int, hbm_offsets@, limit as nat) == Some(
            piis_view(v),
        ),
{
    let trees = get_extraction_trees(egraph, root, Buffer::HBM, limit, inputs);
    let ghost tv = forest_view(trees);
    let mut piis: Vec<PiiGraph> = Vec::new();
    assert(piis_view(piis) == Seq::<Seq<PiiNodeView>>::empty());
    let mut i: usize = 0;
    while i < trees.len()
        invariant
            egraph.wf(),
            offsets_in_range(egraph@, hbm_offsets@),
            tv == forest_view(trees),
            i <= trees.len(),
            slow_result(egraph@, inputs@, root as int, hbm_offsets@, limit as nat) == all_piis(
                egraph@,
                hbm_offsets@,
                tv,
                i as int,
                piis_view(piis),
            ),
        decreases trees.len() - i,
    {
        let tree = &trees[i];
        assert(tv[i as int] == tree_view(*tree));
        let (mut child_map, mut parent_map) = get_edges(tree);
        proof {
            lemma_edges_len(tree_view(*tree));
        }
        let exs = match get_extractions(tree, &mut child_map, &mut parent_map) {
            None => {
                return None;
            },
            Some(x) => x,
        };
        let ghost exv = outs_view(exs);
        let ghost acc0 = piis_view(piis);
        let ghost ed = tree_edges(tv[i as int]);
        assert(extractions_of(tv[i as int], ed.children, ed.parent) == Some(exv));
        let mut j: usize = 0;
        while j < exs.len()
            invariant
                egraph.wf(),
                offsets_in_range(egraph@, hbm_offsets@),
                exv == outs_view(exs),
                j <= exs.len(),
                i < tv.len(),
                ed == tree_edges(tv[i as int]),
                extractions_of(tv[i as int], ed.children, ed.parent) == Some(exv),
                slow_result(egraph@, inputs@, root as int, hbm_offsets@, limit as nat) == all_piis(
                    egraph@,
                    hbm_offsets@,
                    tv,
                    i as int,
                    acc0,
                ),
                ex_piis(egraph@, hbm_offsets@, exv, 0, acc0) == ex_piis(egraph@, hbm_offsets@, exv, j as int, piis_view(piis)),
            decreases exs.len() - j,
        {
            assert(exv[j as int] == exs@[j as int]@);
            match extraction_to_piigraph(&exs[j], hbm_offsets, egraph) {
                None => {
                    return None;
                },
                Some(p) => {
                    let ghost b = piis_view(piis);
                    let ghost pv = p@;
                    piis.push(p);
                    assert(piis_view(piis) == b.push(pv));
                },
            }
            j = j + 1;
        }
        i = i + 1;
    }
    Some(piis)
}

proof fn lemma_edges_from_len(tree: Seq<OpView>, st: Edges, i: int)
    requires
        st.children.len() == tree.len(),
        st.parent.len() == tree.len(),
    ensures
        edges_from(tree, st, i).children.len() == tree.len(),
        edges_from(tree, st, i).parent.len() == tree.len(),
    decreases tree.len() - i,
{
    if !(i < 0 || i >= tree.len()) {
        let attached = if st.stack.len() > 0 && st.stack.last() < st.children.len() {
            let top = st.stack.last();
            Edges {
                children: st.children.update(top as int, st.children[top as int].push(i as usize)),
                parent: st.parent.update(i, Some(top)),
                stack: st.stack,
            }
        } else {
            st
        };
        let pushed = Edges { stack: attached.stack.push(i as usize), ..attached };
        let next = if tree[i].children.len() == 0 {
            Edges { stack: pop_full(tree, pushed.children, pushed.stack), ..pushed }
        } else {
            pushed
        };
        lemma_edges_from_len(tree, next, i + 1);
    }
}

proof fn lemma_edges_len(tree: Seq<OpView>)
    ensures
        tree_edges(tree).children.len() == tree.len(),
        tree_edges(tree).parent.len() == tree.len(),
{
    lemma_edges_from_len(
        tree,
        Edges {
            children: Seq::new(tree.len(), |i: int| Seq::<usize>::empty()),
            parent: Seq::new(tree.len(), |i: int| None::<usize>),
            stack: Seq::empty(),
        },
        0,
    );
}


/// A walk visits each node once: it adds to the post-order exactly as many
/// nodes as it marks visited.
proof fn lemma_dfs_count(e: ExtractionView, idx: int, visited: Seq<bool>, post: Seq<usize>)
    ensures
        dfs(e, idx, visited, post) matches Some(r) ==> r.1.len() + count_false(r.0) == post.len() + count_false(visited)
            && r.0.len() == visited.len(),
    decreases count_false(visited), 1int, 0int,
{
    if 0 <= idx < e.tree.len() && visited.len() == e.tree.len() && !visited[idx] {
        let v2 = visited.update(idx, true);
        lemma_count_false_set(visited, idx);
        lemma_dfs_list_count(e, children_of(e, idx), 0, v2, post);
    }
}

proof fn lemma_dfs_list_count(e: ExtractionView, chs: Seq<usize>, j: int, visited: Seq<bool>, post: Seq<usize>)
    ensures
        dfs_list(e, chs, j, visited, post) matches Some(r) ==> r.1.len() + count_false(r.0) == post.len()
            + count_false(visited) && r.0.len() == visited.len(),
    decreases count_false(visited), 2int, chs.len() - j,
{
    if 0 <= j < chs.len() {
        lemma_dfs_count(e, chs[j] as int, visited, post);
        match dfs(e, chs[j] as int, visited, post) {
            None => {},
            Some(r) => if count_false(r.0) <= count_false(visited) {
                lemma_dfs_list_count(e, chs, j + 1, r.0, r.1);
            },
        }
    }
}

proof fn lemma_collect_ids_bounded(imap: Seq<Option<usize>>, chs: Seq<usize>, j: int, acc: Seq<usize>, b: nat)
    requires
        forall|k: int| 0 <= k < imap.len() ==> (#[trigger] imap[k] matches Some(p) ==> p < b),
        forall|k: int| 0 <= k < acc.len() ==> #[trigger] acc[k] < b,
    ensures
        forall|k: int|
            0 <= k < collect_ids(imap, chs, j, acc).len() ==> #[trigger] collect_ids(imap, chs, j, acc)[k] < b,
    decreases chs.len() - j,
{
    if !(j < 0 || j >= chs.len()) {
        if chs[j] < imap.len() && imap[chs[j] as int] is Some {
            let v = imap[chs[j] as int]->0;
            assert(v < b);
            let acc2 = acc.push(v);
            assert forall|k: int| 0 <= k < acc2.len() implies #[trigger] acc2[k] < b by {
                if k < acc.len() {
                    assert(acc2[k] == acc[k]);
                }
            }
            lemma_collect_ids_bounded(imap, chs, j + 1, acc2, b);
            assert(collect_ids(imap, chs, j, acc) == collect_ids(imap, chs, j + 1, acc2));
        } else {
            lemma_collect_ids_bounded(imap, chs, j + 1, acc, b);
            assert(collect_ids(imap, chs, j, acc) == collect_ids(imap, chs, j + 1, acc));
        }
    } else {
        assert(collect_ids(imap, chs, j, acc) == acc);
    }
}

proof fn lemma_build_from_post_wf(
    g: SnapshotView,
    offs: Seq<(Option<usize>, i32)>,
    e: ExtractionView,
    post: Seq<usize>,
    i: int,
    pii: Seq<PiiNodeView>,
    imap: Seq<Option<usize>>,
)
    requires
        0 <= i <= post.len(),
        post.len() < usize::MAX,
        pii_wf(pii),
        pii.len() == i,
        forall|k: int| 0 <= k < imap.len() ==> (#[trigger] imap[k] matches Some(p) ==> p < pii.len()),
    ensures
        build_from_post(g, offs, e, post, i, pii, imap) matches Some(p) ==> pii_wf(p),
    decreases post.len() - i,
{
    if i < post.len() && post[i] < e.tree.len() && post[i] < imap.len() {
        let idx = post[i] as int;
        let op = e.tree[idx];
        let cids = collect_ids(imap, children_of(e, idx), 0, Seq::empty());
        lemma_collect_ids_bounded(imap, children_of(e, idx), 0, Seq::empty(), pii.len());
        match lookup(g, op) {
            None => {},
            Some(ec) => if can_add(pii, op, cids) {
                lemma_add_node_keeps_wf(pii, op, g.class(ec).data, cids, hbm_offset_of(g, offs, ec));
                let node = PiiNodeView {
                    id: pii.len() as usize,
                    op,
                    info: g.class(ec).data,
                    buffer: placed_buffer(pii, op, cids),
                    hbm_offset: hbm_offset_of(g, offs, ec),
                    children: cids,
                };
                let imap2 = imap.update(idx, Some(pii.len() as usize));
                assert forall|k: int| 0 <= k < imap2.len() implies (#[trigger] imap2[k] matches Some(p) ==> p < pii.len() + 1) by {
                    if k != idx {
                        assert(imap2[k] == imap[k]);
                    }
                }
                lemma_build_from_post_wf(g, offs, e, post, i + 1, pii.push(node), imap2);
            },
        }
    }
}

/// The PII graph of an extraction tree is well formed: nodes numbered in
/// order, operands before users, concrete buffers.
pub proof fn lemma_extraction_pii_wf(g: SnapshotView, offs: Seq<(Option<usize>, i32)>, e: ExtractionView)
    requires
        e.tree.len() < usize::MAX,
    ensures
        extraction_pii(g, offs, e) matches Some(p) ==> pii_wf(p),
{
    if e.tree.len() > 0 {
        lemma_count_false_all_false(e.tree.len());
        lemma_dfs_count(e, 0, all_false(e.tree.len()), Seq::empty());
        match dfs(e, 0, all_false(e.tree.len()), Seq::empty()) {
            None => {},
            Some(r) => {
                lemma_build_from_post_wf(g, offs, e, r.1, 0, Seq::empty(), Seq::new(e.tree.len(), |i: int| None::<usize>));
            },
        }
    }
}


proof fn lemma_keep_trees_sized(en: OpView, combos: Seq<Seq<Seq<OpView>>>, limit: nat, i: int, acc: Seq<Seq<OpView>>)
    ensures
        forall|j: int|
            0 <= j < keep_trees(en, combos, limit, i, acc).len() ==> acc.contains(
                #[trigger] keep_trees(en, combos, limit, i, acc)[j],
            ) || (1 <= keep_trees(en, combos, limit, i, acc)[j].len() <= limit && keep_trees(
                en,
                combos,
                limit,
                i,
                acc,
            )[j][0] == en),
    decreases combos.len() - i,
{
    if !(i < 0 || i >= combos.len()) {
        let t = seq![en] + concat(combos[i]);
        let acc2 = if t.len() <= limit {
            acc.push(t)
        } else {
            acc
        };
        lemma_keep_trees_sized(en, combos, limit, i + 1, acc2);
        let r = keep_trees(en, combos, limit, i, acc);
        assert forall|j: int| 0 <= j < r.len() implies acc.contains(#[trigger] r[j]) || (1 <= r[j].len() <= limit
            && r[j][0] == en) by {
            if acc2.contains(r[j]) && !acc.contains(r[j]) {
                let q = choose|q: int| 0 <= q < acc2.len() && acc2[q] == r[j];
                assert(q == acc.len());
                assert(t[0] == en);
            }
        }
    }
}

proof fn lemma_node_trees_sized(
    g: SnapshotView,
    inputs: Set<usize>,
    ec: int,
    buf: Buffer,
    limit: nat,
    k: int,
    acc: Seq<Seq<OpView>>,
)
    ensures
        forall|j: int|
            0 <= j < node_trees(g, inputs, ec, buf, limit, k, acc).len() ==> acc.contains(
                #[trigger] node_trees(g, inputs, ec, buf, limit, k, acc)[j],
            ) || (1 <= node_trees(g, inputs, ec, buf, limit, k, acc)[j].len() <= limit && exists|n: int|
                0 <= n < g.class(ec).nodes.len() && g.class(ec).nodes[n] == node_trees(
                    g,
                    inputs,
                    ec,
                    buf,
                    limit,
                    k,
                    acc,
                )[j][0]),
    decreases g.class(ec).nodes.len() - k,
{
    let r = node_trees(g, inputs, ec, buf, limit, k, acc);
    if !(limit == 0 || !(0 <= ec < g.len()) || k < 0 || k >= g.class(ec).nodes.len()) {
        let en = g.class(ec).nodes[k];
        if (inputs.contains(ec as usize) && buf == Buffer::HBM) || (g.class(ec).data.is_const && en.kind
            == OpKind::DetectedConst && buf == Buffer::HBM) {
            assert forall|j: int| 0 <= j < r.len() implies acc.contains(#[trigger] r[j]) || (1 <= r[j].len() <= limit
                && exists|n: int| 0 <= n < g.class(ec).nodes.len() && g.class(ec).nodes[n] == r[j][0]) by {
                if j < acc.len() {
                    assert(r[j] == acc[j]);
                } else {
                    assert(r[j] == seq![en]);
                    assert(r[j][0] == g.class(ec).nodes[k]);
                }
            }
        } else if buffers_of(en.kind) is Some {
            let bufs = buffers_of(en.kind)->0;
            if bufs[0] != Buffer::ANY && bufs[0] != buf {
                lemma_node_trees_sized(g, inputs, ec, buf, limit, k + 1, acc);
                assert(r == node_trees(g, inputs, ec, buf, limit, k + 1, acc));
            } else {
                let nt = new_trees(g, inputs, en, buf, limit);
                let acc2 = acc + nt;
                lemma_node_trees_sized(g, inputs, ec, buf, limit, k + 1, acc2);
                assert(r == node_trees(g, inputs, ec, buf, limit, k + 1, acc2));
                let cf = child_forests(g, inputs, en, buf, limit, 0, Seq::empty());
                if !(exists|i: int| 0 <= i < cf.len() && cf[i].len() == 0) {
                    lemma_keep_trees_sized(en, cartesian(cf), limit, 0, Seq::empty());
                }
                assert forall|j: int| 0 <= j < r.len() implies acc.contains(#[trigger] r[j]) || (1 <= r[j].len()
                    <= limit && exists|n: int| 0 <= n < g.class(ec).nodes.len() && g.class(ec).nodes[n] == r[j][0]) by {
                    if acc2.contains(r[j]) && !acc.contains(r[j]) {
                        let q = choose|q: int| 0 <= q < acc2.len() && acc2[q] == r[j];
                        if q < acc.len() {
                            assert(acc[q] == r[j]);
                        }
                        let idx = q - acc.len();
                        assert(acc2[q] == nt[idx]);
                        if exists|i: int| 0 <= i < cf.len() && cf[i].len() == 0 {
                            assert(nt.len() == 0);
                        } else {
                            let kt = keep_trees(en, cartesian(cf), limit, 0, Seq::empty());
                            assert(nt == kt);
                            assert(!Seq::<Seq<OpView>>::empty().contains(kt[idx]));
                            assert(1 <= kt[idx].len() <= limit && kt[idx][0] == en);
                        }
                        assert(g.class(ec).nodes[k] == r[j][0]);
                    }
                }
            }
        } else {
            lemma_node_trees_sized(g, inputs, ec, buf, limit, k + 1, acc);
            assert(r == node_trees(g, inputs, ec, buf, limit, k + 1, acc));
        }
    }
}

/// Every extraction tree has at least one and at most `limit` e-nodes, and
/// its first e-node is one of the class it is extracted from.
pub proof fn lemma_extraction_trees_sized(g: SnapshotView, inputs: Set<usize>, ec: int, buf: Buffer, limit: nat)
    ensures
        forall|j: int|
            0 <= j < extraction_trees(g, inputs, ec, buf, limit).len() ==> {
                let t = #[trigger] extraction_trees(g, inputs, ec, buf, limit)[j];
                &&& 1 <= t.len() <= limit
                &&& exists|n: int| 0 <= n < g.class(ec).nodes.len() && g.class(ec).nodes[n] == t[0]
            },
{
    if !(limit == 0 || !(0 <= ec < g.len())) {
        lemma_node_trees_sized(g, inputs, ec, buf, limit, 0, Seq::empty());
        let r = extraction_trees(g, inputs, ec, buf, limit);
        assert(r == node_trees(g, inputs, ec, buf, limit, 0, Seq::empty()));
        assert forall|j: int| 0 <= j < r.len() implies !Seq::<Seq<OpView>>::empty().contains(#[trigger] r[j]) by {
        }
    }
}


proof fn lemma_pop_full_prefix(tree: Seq<OpView>, children: Seq<Seq<usize>>, stack: Seq<usize>)
    ensures
        pop_full(tree, children, stack).len() <= stack.len(),
        forall|k: int|
            0 <= k < pop_full(tree, children, stack).len() ==> #[trigger] pop_full(tree, children, stack)[k]
                == stack[k],
    decreases stack.len(),
{
    if stack.len() > 0 {
        lemma_pop_full_prefix(tree, children, stack.drop_last());
    }
}

/// Consistency of edges recovered so far, before node `i`.
pub open spec fn edges_inv(tree: Seq<OpView>, st: Edges, i: int) -> bool {
    &&& st.children.len() == tree.len()
    &&& st.parent.len() == tree.len()
    &&& 0 <= i <= tree.len()
    &&& forall|k: int| 0 <= k < st.stack.len() ==> #[trigger] st.stack[k] < i
    &&& forall|j: int| 0 <= j < tree.len() ==> (#[trigger] st.parent[j] matches Some(p) ==> p < j && j < i && st.children[p as int].contains(j as usize))
    &&& forall|p: int, k: int|
        0 <= p < tree.len() && 0 <= k < st.children[p].len() ==> #[trigger] st.children[p][k] < i && st.parent[st.children[p][k] as int] == Some(p as usize)
}

proof fn lemma_edges_from_inv(tree: Seq<OpView>, st: Edges, i: int)
    requires
        edges_inv(tree, st, i),
        tree.len() <= usize::MAX,
    ensures
        edges_inv(tree, edges_from(tree, st, i), tree.len() as int),
    decreases tree.len() - i,
{
    if i < tree.len() {
        let attached = if st.stack.len() > 0 && st.stack.last() < st.children.len() {
            let top = st.stack.last();
            Edges {
                children: st.children.update(top as int, st.children[top as int].push(i as usize)),
                parent: st.parent.update(i, Some(top)),
                stack: st.stack,
            }
        } else {
            st
        };
        if st.stack.len() > 0 && st.stack.last() < st.children.len() {
            let top = st.stack.last();
            assert(st.stack[st.stack.len() - 1] < i);
            assert(st.parent[i] is None) by {
                if st.parent[i] is Some {
                    assert(false);
                }
            }
            assert forall|j: int| 0 <= j < tree.len() implies (#[trigger] attached.parent[j] matches Some(p) ==> p < j
                && j < i + 1 && attached.children[p as int].contains(j as usize)) by {
                if j == i {
                    assert(attached.children[top as int][attached.children[top as int].len() - 1] == i as usize);
                } else if let Some(p) = st.parent[j] {
                    let k = choose|k: int| 0 <= k < st.children[p as int].len() && st.children[p as int][k] == j as usize;
                    assert(attached.children[p as int][k] == j as usize);
                }
            }
            assert forall|p: int, k: int|
                0 <= p < tree.len() && 0 <= k < attached.children[p].len() implies #[trigger] attached.children[p][k] < i + 1
                    && attached.parent[attached.children[p][k] as int] == Some(p as usize) by {
                if p == top && k == st.children[p].len() {
                } else {
                    assert(attached.children[p][k] == st.children[p][k]);
                    assert(st.children[p][k] < i);
                }
            }
        } else {
            assert forall|j: int| 0 <= j < tree.len() implies (#[trigger] attached.parent[j] matches Some(p) ==> p < j
                && j < i + 1 && attached.children[p as int].contains(j as usize)) by {}
            assert forall|p: int, k: int|
                0 <= p < tree.len() && 0 <= k < attached.children[p].len() implies #[trigger] attached.children[p][k] < i + 1
                    && attached.parent[attached.children[p][k] as int] == Some(p as usize) by {
                assert(st.children[p][k] < i);
            }
        }
        let pushed = Edges { stack: attached.stack.push(i as usize), ..attached };
        let next = if tree[i].children.len() == 0 {
            Edges { stack: pop_full(tree, pushed.children, pushed.stack), ..pushed }
        } else {
            pushed
        };
        lemma_pop_full_prefix(tree, pushed.children, pushed.stack);
        assert forall|k: int| 0 <= k < next.stack.len() implies #[trigger] next.stack[k] < i + 1 by {
            assert(next.stack[k] == pushed.stack[k]);
            if k < st.stack.len() {
                assert(pushed.stack[k] == st.stack[k]);
            }
        }
        assert(edges_inv(tree, next, i + 1));
        lemma_edges_from_inv(tree, next, i + 1);
    }
}

/// The edges recovered from a pre-order tree agree with each other: a node's
/// parent comes before it and lists it among its children, and every child
/// listed for a node is a node whose parent is that node.
pub proof fn lemma_tree_edges_consistent(tree: Seq<OpView>)
    requires
        tree.len() <= usize::MAX,
    ensures
        ({
            let e = tree_edges(tree);
            &&& forall|j: int|
                0 <= j < tree.len() ==> (#[trigger] e.parent[j] matches Some(p) ==> p < j && e.children[p as int].contains(
                    j as usize,
                ))
            &&& forall|p: int, k: int|
                0 <= p < tree.len() && 0 <= k < e.children[p].len() ==> #[trigger] e.children[p][k] < tree.len()
                    && e.parent[e.children[p][k] as int] == Some(p as usize)
        }),
{
    let st0 = Edges {
        children: Seq::new(tree.len(), |i: int| Seq::<usize>::empty()),
        parent: Seq::new(tree.len(), |i: int| None::<usize>),
        stack: Seq::empty(),
    };
    assert(edges_inv(tree, st0, 0));
    lemma_edges_from_inv(tree, st0, 0);
}


/// Every recorded extraction is over the given tree.
pub open spec fn outs_keep_tree(tree: Seq<OpView>, outs: Seq<ExtractionView>) -> bool {
    forall|k: int| 0 <= k < outs.len() ==> (#[trigger] outs[k]).tree == tree
}

proof fn lemma_number_keeps_tree(tree: Seq<OpView>, st: Gvn, i: int, record: bool)
    requires
        outs_keep_tree(tree, st.out),
        number(tree, st, i, record) is Some,
    ensures
        outs_keep_tree(tree, number(tree, st, i, record)->0.out),
        number(tree, st, i, record)->0.out.len() >= st.out.len(),
{
    let s = number(tree, st, i, record)->0;
    if idx_find(st.idx, tree[i], 0) >= 0 && st.parent[i] is Some && record {
        assert forall|k: int| 0 <= k < s.out.len() implies (#[trigger] s.out[k]).tree == tree by {
            if k < st.out.len() {
                assert(s.out[k] == st.out[k]);
            }
        }
    }
}

proof fn lemma_gvn_pass_keeps_tree(tree: Seq<OpView>, st: Gvn, i: int)
    requires
        outs_keep_tree(tree, st.out),
        gvn_pass(tree, st, i) is Some,
    ensures
        outs_keep_tree(tree, gvn_pass(tree, st, i)->0.out),
        gvn_pass(tree, st, i)->0.out.len() >= st.out.len(),
    decreases tree.len() - i,
{
    if !(i < 0 || i >= tree.len()) {
        let ready = all_processed(st.children[i], st.processed, 0)->0;
        if ready && !st.processed[i] {
            lemma_number_keeps_tree(tree, st, i, true);
            lemma_gvn_pass_keeps_tree(tree, number(tree, st, i, true)->0, i + 1);
        } else {
            lemma_gvn_pass_keeps_tree(tree, st, i + 1);
        }
    }
}

proof fn lemma_gvn_rounds_keeps_tree(tree: Seq<OpView>, st: Gvn)
    requires
        outs_keep_tree(tree, st.out),
        gvn_rounds(tree, st) is Some,
    ensures
        outs_keep_tree(tree, gvn_rounds(tree, st)->0.out),
        gvn_rounds(tree, st)->0.out.len() >= st.out.len(),
    decreases count_false(st.processed),
{
    if count_false(st.processed) != 0 {
        lemma_gvn_pass_keeps_tree(tree, st, 0);
        lemma_gvn_rounds_keeps_tree(tree, gvn_pass(tree, st, 0)->0);
    }
}

/// Value numbering only ever collapses subtrees: whenever it succeeds, it
/// yields at least one extraction, and every extraction is over the tree it
/// was given (only the edges differ).
pub proof fn lemma_extractions_keep_tree(tree: Seq<OpView>, children: Seq<Seq<usize>>, parent: Seq<Option<usize>>)
    requires
        extractions_of(tree, children, parent) is Some,
    ensures
        extractions_of(tree, children, parent)->0.len() >= 1,
        outs_keep_tree(tree, extractions_of(tree, children, parent)->0),
{
    let init = Gvn { children, parent, idx: Seq::empty(), processed: all_false(tree.len()), out: Seq::empty() };
    let s = leaf_phase(tree, init, 0)->0;
    let s1 = Gvn { out: seq![ExtractionView { tree, children: s.children, parent: s.parent }], ..s };
    assert(outs_keep_tree(tree, s1.out));
    lemma_gvn_rounds_keeps_tree(tree, s1);
}


/// What value numbering keeps true of its state over a tree of `n` nodes:
/// the maps have one entry per node; a node's parent comes before it and lists
/// it among its children; a child listed for a node comes after it or is
/// already processed; every numbered node is a processed node of the tree.
spec fn gvn_inv(tree: Seq<OpView>, st: Gvn) -> bool {
    let n = tree.len();
    &&& n <= usize::MAX
    &&& st.children.len() == n
    &&& st.parent.len() == n
    &&& st.processed.len() == n
    &&& forall|j: int|
        0 <= j < n ==> (#[trigger] st.parent[j] matches Some(p) ==> p < j && st.children[p as int].contains(
            j as usize,
        ))
    &&& forall|p: int, k: int|
        0 <= p < n && 0 <= k < st.children[p].len() ==> #[trigger] st.children[p][k] < n && (st.children[p][k] > p
            || st.processed[st.children[p][k] as int])
    &&& forall|m: int| 0 <= m < st.idx.len() ==> #[trigger] st.idx[m].1 < n && st.processed[st.idx[m].1 as int]
}

/// `b` has every flag that `a` has.
spec fn grows(a: Seq<bool>, b: Seq<bool>) -> bool {
    &&& a.len() == b.len()
    &&& forall|q: int| 0 <= q < a.len() && #[trigger] a[q] ==> b[q]
}

/// Every child listed for node `m` is processed.
spec fn children_done(st: Gvn, m: int) -> bool {
    forall|k: int| 0 <= k < st.children[m].len() ==> st.processed[#[trigger] st.children[m][k] as int]
}

proof fn lemma_idx_find_range(m: Seq<(OpView, usize)>, op: OpView, i: int)
    requires
        0 <= i,
    ensures
        idx_find(m, op, i) == -1 || (i <= idx_find(m, op, i) < m.len()),
    decreases m.len() - i,
{
    if i < m.len() && m[i].0 != op {
        lemma_idx_find_range(m, op, i + 1);
    }
}

proof fn lemma_position_found(s: Seq<usize>, x: usize, i: int, k: int)
    requires
        0 <= i <= k < s.len(),
        s[k] == x,
    ensures
        i <= position(s, x, i) < s.len(),
        s[position(s, x, i)] == x,
    decreases s.len() - i,
{
    if s[i] != x {
        lemma_position_found(s, x, i + 1, k);
    }
}

proof fn lemma_all_processed(chs: Seq<usize>, processed: Seq<bool>, j: int)
    requires
        0 <= j,
        forall|k: int| 0 <= k < chs.len() ==> #[trigger] chs[k] < processed.len(),
    ensures
        all_processed(chs, processed, j) == Some(
            forall|k: int| j <= k < chs.len() ==> processed[#[trigger] chs[k] as int],
        ),
    decreases chs.len() - j,
{
    if j < chs.len() {
        lemma_all_processed(chs, processed, j + 1);
        if !processed[chs[j] as int] {
            assert(!(forall|k: int| j <= k < chs.len() ==> processed[#[trigger] chs[k] as int]));
        } else {
            assert((forall|k: int| j + 1 <= k < chs.len() ==> processed[#[trigger] chs[k] as int]) ==> (forall|k: int|
                j <= k < chs.len() ==> processed[#[trigger] chs[k] as int]));
        }
    }
}

proof fn lemma_count_false_grows(a: Seq<bool>, b: Seq<bool>)
    requires
        grows(a, b),
    ensures
        count_false(b) <= count_false(a),
        (exists|q: int| 0 <= q < a.len() && !a[q] && #[trigger] b[q]) ==> count_false(b) < count_false(a),
    decreases a.len(),
{
    if a.len() > 0 {
        lemma_count_false_grows(a.drop_last(), b.drop_last());
        if exists|q: int| 0 <= q < a.len() && !a[q] && #[trigger] b[q] {
            let q = choose|q: int| 0 <= q < a.len() && !a[q] && #[trigger] b[q];
            if q < a.len() - 1 {
                assert(a.drop_last()[q] == a[q] && b.drop_last()[q] == b[q]);
            }
        }
    }
}

proof fn lemma_last_unprocessed(s: Seq<bool>)
    requires
        count_false(s) > 0,
    ensures
        exists|m: int| 0 <= m < s.len() && !#[trigger] s[m] && forall|q: int| m < q < s.len() ==> s[q],
    decreases s.len(),
{
    if s.last() {
        lemma_last_unprocessed(s.drop_last());
        let m = choose|m: int| 0 <= m < s.drop_last().len() && !#[trigger] s.drop_last()[m] && forall|q: int|
            m < q < s.drop_last().len() ==> s.drop_last()[q];
        assert(!s[m]);
        assert forall|q: int| m < q < s.len() implies s[q] by {
            if q < s.len() - 1 {
                assert(s.drop_last()[q] == s[q]);
            }
        }
    } else {
        assert(!s[s.len() - 1]);
    }
}

proof fn lemma_number_inv(tree: Seq<OpView>, st: Gvn, i: int, record: bool)
    requires
        gvn_inv(tree, st),
        0 <= i < tree.len(),
    ensures
        number(tree, st, i, record) matches Some(s) && gvn_inv(tree, s) && grows(st.processed, s.processed)
            && s.processed[i],
{
    let n = tree.len();
    let f = idx_find(st.idx, tree[i], 0);
    lemma_idx_find_range(st.idx, tree[i], 0);
    if f < 0 {
        let s = number(tree, st, i, record)->0;
        assert forall|m: int| 0 <= m < s.idx.len() implies #[trigger] s.idx[m].1 < n && s.processed[s.idx[m].1 as int] by {
            if m < st.idx.len() {
                assert(s.idx[m] == st.idx[m]);
            } else {
                assert(s.idx[m].1 == i as usize);
            }
        }
        assert forall|p: int, k: int| 0 <= p < n && 0 <= k < s.children[p].len() implies #[trigger] s.children[p][k] < n
            && (s.children[p][k] > p || s.processed[s.children[p][k] as int]) by {
            assert(st.children[p][k] < n);
        }
    } else if st.parent[i] is Some {
        let p = st.parent[i]->0;
        assert(st.children[p as int].contains(i as usize));
        let k0 = choose|k: int| 0 <= k < st.children[p as int].len() && st.children[p as int][k] == i as usize;
        lemma_position_found(st.children[p as int], i as usize, 0, k0);
        let pos = position(st.children[p as int], i as usize, 0);
        let v = st.idx[f].1;
        assert(v < n && st.processed[v as int]);
        let s = number(tree, st, i, record)->0;
        assert(s.children == st.children.update(p as int, st.children[p as int].update(pos, v)));
        assert(s.parent == st.parent.update(i, None));
        assert forall|j: int| 0 <= j < n implies (#[trigger] s.parent[j] matches Some(q) ==> q < j
            && s.children[q as int].contains(j as usize)) by {
            if s.parent[j] is Some {
                let q = s.parent[j]->0;
                assert(j != i);
                assert(st.parent[j] == Some(q));
                assert(st.children[q as int].contains(j as usize));
                let kj = choose|k: int| 0 <= k < st.children[q as int].len() && st.children[q as int][k] == j as usize;
                if q == p {
                    assert(st.children[p as int][pos] == i as usize);
                    assert(kj != pos);
                }
                assert(s.children[q as int][kj] == j as usize);
            }
        }
        assert forall|pp: int, k: int| 0 <= pp < n && 0 <= k < s.children[pp].len() implies #[trigger] s.children[pp][k]
            < n && (s.children[pp][k] > pp || s.processed[s.children[pp][k] as int]) by {
            assert(st.children[pp][k] < n);
        }
    }
}

proof fn lemma_leaf_phase_inv(tree: Seq<OpView>, st: Gvn, i: int)
    requires
        gvn_inv(tree, st),
        0 <= i,
    ensures
        leaf_phase(tree, st, i) matches Some(s) && gvn_inv(tree, s),
    decreases tree.len() - i,
{
    if i < tree.len() {
        if tree[i].children.len() == 0 {
            lemma_number_inv(tree, st, i, false);
            lemma_leaf_phase_inv(tree, number(tree, st, i, false)->0, i + 1);
        } else {
            lemma_leaf_phase_inv(tree, st, i + 1);
        }
    }
}

proof fn lemma_gvn_pass_progress(tree: Seq<OpView>, st: Gvn, i: int)
    requires
        gvn_inv(tree, st),
        0 <= i,
    ensures
        gvn_pass(tree, st, i) matches Some(s) && gvn_inv(tree, s) && grows(st.processed, s.processed) && ((exists|m: int|
            i <= m < tree.len() && !st.processed[m] && #[trigger] children_done(st, m)) ==> exists|q: int|
            0 <= q < tree.len() && !st.processed[q] && #[trigger] s.processed[q]),
    decreases tree.len() - i,
{
    let n = tree.len();
    if i < n {
        assert forall|k: int| 0 <= k < st.children[i].len() implies #[trigger] st.children[i][k] < st.processed.len() by {
            assert(st.children[i][k] < n);
        }
        lemma_all_processed(st.children[i], st.processed, 0);
        let ready = all_processed(st.children[i], st.processed, 0)->0;
        assert(ready == children_done(st, i));
        if ready && !st.processed[i] {
            lemma_number_inv(tree, st, i, true);
            let s1 = number(tree, st, i, true)->0;
            lemma_gvn_pass_progress(tree, s1, i + 1);
            let s = gvn_pass(tree, s1, i + 1)->0;
            assert(s.processed[i]);
        } else {
            lemma_gvn_pass_progress(tree, st, i + 1);
            if exists|m: int| i <= m < n && !st.processed[m] && #[trigger] children_done(st, m) {
                let m = choose|m: int| i <= m < n && !st.processed[m] && #[trigger] children_done(st, m);
                assert(m != i);
            }
        }
    }
}

proof fn lemma_gvn_rounds_inv(tree: Seq<OpView>, st: Gvn)
    requires
        gvn_inv(tree, st),
    ensures
        gvn_rounds(tree, st) is Some,
    decreases count_false(st.processed),
{
    if count_false(st.processed) != 0 {
        let n = tree.len();
        lemma_last_unprocessed(st.processed);
        let m = choose|m: int| 0 <= m < st.processed.len() && !#[trigger] st.processed[m] && forall|q: int|
            m < q < st.processed.len() ==> st.processed[q];
        assert forall|k: int| 0 <= k < st.children[m].len() implies st.processed[#[trigger] st.children[m][k] as int] by {
            assert(st.children[m][k] < n);
        }
        assert(children_done(st, m));
        lemma_gvn_pass_progress(tree, st, 0);
        let s = gvn_pass(tree, st, 0)->0;
        lemma_count_false_grows(st.processed, s.processed);
        lemma_gvn_rounds_inv(tree, s);
    }
}

/// Value numbering succeeds on every pre-order tree with the children and
/// parents that `get_edges` recovers from it.
pub proof fn lemma_extractions_of_edges(tree: Seq<OpView>)
    requires
        tree.len() <= usize::MAX,
    ensures
        extractions_of(tree, tree_edges(tree).children, tree_edges(tree).parent) is Some,
{
    let e = tree_edges(tree);
    let n = tree.len();
    lemma_edges_len(tree);
    lemma_tree_edges_consistent(tree);
    let init = Gvn {
        children: e.children,
        parent: e.parent,
        idx: Seq::empty(),
        processed: all_false(tree.len()),
        out: Seq::empty(),
    };
    assert forall|p: int, k: int| 0 <= p < n && 0 <= k < init.children[p].len() implies #[trigger] init.children[p][k]
        < n && (init.children[p][k] > p || init.processed[init.children[p][k] as int]) by {
        let c = e.children[p][k] as int;
        assert(e.parent[c] == Some(p as usize));
    }
    assert(gvn_inv(tree, init));
    lemma_leaf_phase_inv(tree, init, 0);
    let s = leaf_phase(tree, init, 0)->0;
    let s1 = Gvn { out: seq![ExtractionView { tree, children: s.children, parent: s.parent }], ..s };
    assert(gvn_inv(tree, s1));
    lemma_gvn_rounds_inv(tree, s1);
}

} // verus!
