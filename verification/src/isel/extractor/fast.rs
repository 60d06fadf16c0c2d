use vstd::prelude::*;

use std::collections::HashSet;

use crate::ir::buffer::{buffer_assignment, buffers_of, Buffer};
use crate::ir::egraph::{arity, InfoView, OpKind, OpView, TensorInfo, TensorOp};
use crate::ir::pii::{can_add, lemma_add_node_keeps_wf, pii_wf, placed_buffer, PiiGraph, PiiNodeView};
use crate::ir::snapshot::{EGraphSnapshot, SnapshotView};
use crate::isel::extractor::utils::{get_hbm_offset, hbm_offset_of, offsets_in_range};

verus! {

broadcast use vstd::std_specs::hash::group_hash_axioms;

/// A selected e-node with the id of the class it was selected in and that
/// class's metadata.
pub type Entry = (TensorOp, usize, TensorInfo);

/// Model of a selection entry.
pub type EntryView = (OpView, usize, InfoView);

pub open spec fn entries_view(s: Seq<Entry>) -> Seq<EntryView> {
    s.map_values(|e: Entry| (e.0@, e.1, e.2@))
}

/// Index of the first entry at or after `i` that selects `op`, or -1.
pub open spec fn find_op(sel: Seq<EntryView>, op: OpView, i: int) -> int
    decreases sel.len() - i,
{
    if i < 0 || i >= sel.len() {
        -1
    } else if sel[i].0 == op {
        i
    } else {
        find_op(sel, op, i + 1)
    }
}

/// Selection after recording `e`: the entry of the same e-node is replaced in
/// place, or `e` is appended.
pub open spec fn sel_insert(sel: Seq<EntryView>, e: EntryView) -> Seq<EntryView> {
    let i = find_op(sel, e.0, 0);
    if i >= 0 {
        sel.update(i, e)
    } else {
        sel.push(e)
    }
}

/// Number of ids not on the current path.
pub open spec fn count_false(s: Seq<bool>) -> nat
    decreases s.len(),
{
    if s.len() == 0 {
        0
    } else {
        count_false(s.drop_last()) + if s.last() {
            0nat
        } else {
            1nat
        }
    }
}

pub proof fn lemma_count_false_set(s: Seq<bool>, i: int)
    requires
        0 <= i < s.len(),
        !s[i],
    ensures
        count_false(s.update(i, true)) + 1 == count_false(s),
    decreases s.len(),
{
    if i == s.len() - 1 {
        assert(s.update(i, true).drop_last() == s.drop_last());
    } else {
        lemma_count_false_set(s.drop_last(), i);
        assert(s.update(i, true).drop_last() == s.drop_last().update(i, true));
    }
}

/// Some instruction e-node of the class of `ec` is already selected with the
/// requested output buffer.
pub open spec fn memo_hit(g: SnapshotView, sel: Seq<EntryView>, ec: int, buf: Buffer) -> bool {
    exists|k: int|
        0 <= k < g.class(ec).nodes.len() && buffers_of((#[trigger] g.class(ec).nodes[k]).kind) is Some
            && find_op(sel, g.class(ec).nodes[k], 0) >= 0 && buf == buffers_of(
            g.class(ec).nodes[k].kind,
        )->0[0]
}

/// The pre-order search of the fast extractor from class `ec` for a result in
/// buffer `buf`, given the classes on the current path and the selection so far:
/// whether an extraction was found, and the selection afterwards.
pub open spec fn search(
    g: SnapshotView,
    inputs: Set<usize>,
    ec: int,
    buf: Buffer,
    path: Seq<bool>,
    sel: Seq<EntryView>,
) -> (bool, Seq<EntryView>)
    decreases count_false(path), 3int, 0int,
{
    if !(0 <= ec < path.len() && ec < g.len()) || path[ec] {
        (false, sel)
    } else if memo_hit(g, sel, ec, buf) {
        (true, sel)
    } else {
        try_nodes(g, inputs, ec, buf, path, sel, 0)
    }
}

/// Tries the e-nodes of the class of `ec` from the `k`-th on, in order.
pub open spec fn try_nodes(
    g: SnapshotView,
    inputs: Set<usize>,
    ec: int,
    buf: Buffer,
    path: Seq<bool>,
    sel: Seq<EntryView>,
    k: int,
) -> (bool, Seq<EntryView>)
    decreases count_false(path), 2int, g.class(ec).nodes.len() - k,
{
    if !(0 <= ec < path.len() && ec < g.len()) || path[ec] || k < 0 || k >= g.class(ec).nodes.len() {
        (false, sel)
    } else {
        let en = g.class(ec).nodes[k];
        let entry = (en, ec as usize, g.class(ec).data);
        if inputs.contains(ec as usize) && buf == Buffer::HBM {
            (true, sel_insert(sel, entry))
        } else if g.class(ec).data.is_const && en.kind == OpKind::DetectedConst && buf == Buffer::HBM {
            (true, sel_insert(sel, entry))
        } else if buffers_of(en.kind) is Some {
            let bufs = buffers_of(en.kind)->0;
            if bufs[0] != Buffer::ANY && bufs[0] != buf {
                try_nodes(g, inputs, ec, buf, path, sel, k + 1)
            } else {
                let (ok, sel2) = try_children(g, inputs, ec, buf, path, sel, en, 0);
                if ok {
                    (true, sel_insert(sel2, entry))
                } else {
                    try_nodes(g, inputs, ec, buf, path, sel, k + 1)
                }
            }
        } else {
            try_nodes(g, inputs, ec, buf, path, sel, k + 1)
        }
    }
}

/// Searches the children of instruction `en` (in class `ec`) from the `i`-th
/// on, each in the buffer the instruction reads it from, with `ec` on the path.
pub open spec fn try_children(
    g: SnapshotView,
    inputs: Set<usize>,
    ec: int,
    buf: Buffer,
    path: Seq<bool>,
    sel: Seq<EntryView>,
    en: OpView,
    i: int,
) -> (bool, Seq<EntryView>)
    decreases count_false(path), 1int, en.children.len() - i,
{
    if !(0 <= ec < path.len()) || path[ec] || i < 0 || buffers_of(en.kind) is None {
        (false, sel)
    } else if i >= en.children.len() {
        (true, sel)
    } else {
        let bufs = buffers_of(en.kind)->0;
        let out = if bufs[0] != Buffer::ANY {
            bufs[1 + i]
        } else {
            buf
        };
        let path2 = path.update(ec, true);
        proof {
            lemma_count_false_set(path, ec);
        }
        let (ok, sel2) = search(g, inputs, en.children[i] as int, out, path2, sel);
        if !ok {
            (false, sel2)
        } else {
            try_children(g, inputs, ec, buf, path, sel2, en, i + 1)
        }
    }
}

fn find_entry(sel: &Vec<Entry>, op: &TensorOp) -> (r: Option<usize>)
    ensures
        r matches Some(i) ==> find_op(entries_view(sel@), op@, 0) == i && i < sel.len(),
        r is None ==> find_op(entries_view(sel@), op@, 0) == -1,
{
    let ghost v = entries_view(sel@);
    let mut i: usize = 0;
    while i < sel.len()
        invariant
            v == entries_view(sel@),
            i <= sel.len(),
            find_op(v, op@, 0) == find_op(v, op@, i as int),
        decreases sel.len() - i,
    {
        assert(v[i as int].0 == sel@[i as int].0@);
        if sel[i].0.same(op) {
            return Some(i);
        }
        i = i + 1;
    }
    None
}

fn insert_entry(sel: &mut Vec<Entry>, op: TensorOp, ec: usize, info: TensorInfo)
    ensures
        entries_view(final(sel)@) == sel_insert(entries_view(old(sel)@), (op@, ec, info@)),
{
    match find_entry(sel, &op) {
        Some(i) => {
            let ghost e = (op@, ec, info@);
            sel.set(i, (op, ec, info));
            assert(entries_view(sel@) == entries_view(old(sel)@).update(i as int, e));
        },
        None => {
            let ghost e = (op@, ec, info@);
            sel.push((op, ec, info));
            assert(entries_view(sel@) == entries_view(old(sel)@).push(e));
        },
    }
}

fn clone_entries(sel: &Vec<Entry>) -> (r: Vec<Entry>)
    ensures
        entries_view(r@) == entries_view(sel@),
{
    let mut r: Vec<Entry> = Vec::new();
    let mut i: usize = 0;
    while i < sel.len()
        invariant
            i <= sel.len(),
            entries_view(r@) == entries_view(sel@).take(i as int),
        decreases sel.len() - i,
    {
        let e = &sel[i];
        let c = (e.0.clone(), e.1, e.2.clone());
        r.push(c);
        assert(entries_view(sel@).take(i + 1) == entries_view(sel@).take(i as int).push(entries_view(sel@)[i as int]));
        i = i + 1;
    }
    assert(entries_view(sel@).take(sel.len() as int) == entries_view(sel@));
    r
}

/// Pre-order search for an extraction rooted at `eclass` whose result lives in
/// `target_buf`, recording the chosen e-nodes in `selected`. Returns whether one
/// was found; a failed search leaves `selected` as it was, and `path` is always
/// left as it was.
fn get_pii_graph(
    egraph: &EGraphSnapshot,
    eclass: usize,
    target_buf: Buffer,
    inputs: &HashSet<usize>,
    path: &mut Vec<bool>,
    selected: &mut Vec<Entry>,
) -> (r: bool)
    requires
        egraph.wf(),
        eclass < egraph@.len(),
        old(path).len() == egraph@.len(),
    ensures
        final(path)@ == old(path)@,
        r == search(egraph@, inputs@, eclass as int, target_buf, old(path)@, entries_view(old(selected)@)).0,
        entries_view(final(selected)@) == search(
            egraph@,
            inputs@,
            eclass as int,
            target_buf,
            old(path)@,
            entries_view(old(selected)@),
        ).1,
    decreases count_false(old(path)@), 3int, 0int,
{
    let g = egraph;
    let ghost path0 = path@;
    let ghost sel0 = entries_view(selected@);
    if path[eclass] {
        return false;
    }
    let cls = g.class(eclass);
    let mut k: usize = 0;
    while k < cls.nodes.len()
        invariant
            g == egraph,
            g.wf(),
            eclass < g@.len(),
            cls@ == g@.class(eclass as int),
            entries_view(selected@) == sel0,
            sel0 == entries_view(old(selected)@),
            path@ == old(path)@,
            old(path)@.len() == g@.len(),
            !old(path)@[eclass as int],
            k <= cls.nodes.len(),
            forall|q: int|
                0 <= q < k ==> !(buffers_of((#[trigger] g@.class(eclass as int).nodes[q]).kind) is Some
                    && find_op(sel0, g@.class(eclass as int).nodes[q], 0) >= 0 && target_buf == buffers_of(
                    g@.class(eclass as int).nodes[q].kind,
                )->0[0]),
        decreases cls.nodes.len() - k,
    {
        let en = &cls.nodes[k];
        assert(g@.class(eclass as int).nodes[k as int] == en@);
        match buffer_assignment(en) {
            Some(bufs) => {
                if find_entry(selected, en).is_some() && target_buf == bufs[0] {
                    assert(memo_hit(g@, sel0, eclass as int, target_buf));
                    assert(!old(path)@[eclass as int]);
                    return true;
                }
            },
            None => {},
        }
        k = k + 1;
    }
    assert(!memo_hit(g@, sel0, eclass as int, target_buf));
    let is_input = inputs.contains(&eclass);
    let mut k: usize = 0;
    while k < cls.nodes.len()
        invariant
            g == egraph,
            g.wf(),
            eclass < g@.len(),
            cls@ == g@.class(eclass as int),
            is_input == inputs@.contains(eclass),
            path@ == path0,
            path0 == old(path)@,
            path0.len() == g@.len(),
            !path0[eclass as int],
            count_false(path0) == count_false(old(path)@),
            entries_view(selected@) == sel0,
            sel0 == entries_view(old(selected)@),
            k <= cls.nodes.len(),
            search(g@, inputs@, eclass as int, target_buf, path0, sel0) == try_nodes(
                g@,
                inputs@,
                eclass as int,
                target_buf,
                path0,
                sel0,
                k as int,
            ),
        decreases cls.nodes.len() - k,
    {
        let en = &cls.nodes[k];
        assert(g@.class(eclass as int).nodes[k as int] == en@);
        let snapshot = clone_entries(selected);
        if is_input && target_buf == Buffer::HBM {
            insert_entry(selected, en.clone(), eclass, cls.data.clone());
            return true;
        }
        if cls.data.is_const && en.is_detected_const() && target_buf == Buffer::HBM {
            insert_entry(selected, en.clone(), eclass, cls.data.clone());
            return true;
        }
        match buffer_assignment(en) {
            Some(bufs) => {
                if bufs[0] != Buffer::ANY && bufs[0] != target_buf {
                    k = k + 1;
                    continue;
                }
                proof {
                    lemma_count_false_set(path0, eclass as int);
                    crate::ir::buffer::lemma_buffers_cover_children(en@.kind);
                    en.lemma_well_shaped();
                }
                path.set(eclass, true);
                let ch = en.children();
                let mut i: usize = 0;
                let mut failed = false;
                while i < ch.len() && !failed
                    invariant
                        g.wf(),
                        eclass < g@.len(),
                        cls@ == g@.class(eclass as int),
                        en@ == g@.class(eclass as int).nodes[k as int],
                        k < cls.nodes.len(),
                        ch@ == en@.children,
                        buffers_of(en@.kind) is Some,
                        bufs@ == buffers_of(en@.kind)->0,
                        bufs@.len() == ch.len() + 1,
                        path@ == path0.update(eclass as int, true),
                        path0.len() == g@.len(),
                        !path0[eclass as int],
                        count_false(path@) < count_false(old(path)@),
                        i <= ch.len(),
                        failed ==> !try_children(g@, inputs@, eclass as int, target_buf, path0, sel0, en@, 0).0,
                        !failed ==> try_children(g@, inputs@, eclass as int, target_buf, path0, sel0, en@, 0)
                            == try_children(
                            g@,
                            inputs@,
                            eclass as int,
                            target_buf,
                            path0,
                            entries_view(selected@),
                            en@,
                            i as int,
                        ),
                    decreases ch.len() - i, if failed { 0int } else { 1int },
                {
                    let out_buf = if bufs[0] != Buffer::ANY {
                        bufs[1 + i]
                    } else {
                        target_buf
                    };
                    assert(ch@[i as int] < g@.len());
                    let ghost sel_i = entries_view(selected@);
                    let ghost path_i = path@;
                    if !get_pii_graph(g, ch[i], out_buf, inputs, path, selected) {
                        failed = true;
                    } else {
                        assert(search(g@, inputs@, ch@[i as int] as int, out_buf, path_i, sel_i) == (true, entries_view(selected@)));
                        assert(i < en@.children.len());
                        assert(!path0[eclass as int]);
                        assert(buffers_of(en@.kind) is Some);
                        assert(path_i == path0.update(eclass as int, true));
                        assert(out_buf == (if buffers_of(en@.kind)->0[0] != Buffer::ANY { buffers_of(en@.kind)->0[1 + i] } else { target_buf }));
                        assert(try_children(g@, inputs@, eclass as int, target_buf, path0, sel_i, en@, i as int)
                            == try_children(g@, inputs@, eclass as int, target_buf, path0, entries_view(selected@), en@, i + 1));
                        i = i + 1;
                    }
                }
                if failed {
                    // roll back the selections made while trying this e-node
                    *selected = snapshot;
                    path.set(eclass, false);
                    assert(path@ == path0);
                    k = k + 1;
                    continue;
                }
                path.set(eclass, false);
                assert(path@ == path0);
                insert_entry(selected, en.clone(), eclass, cls.data.clone());
                return true;
            },
            None => {},
        }
        k = k + 1;
    }
    false
}

/// Index of the first pair at or after `i` whose key is `k`, or -1.
pub open spec fn alist_find(m: Seq<(usize, usize)>, k: usize, i: int) -> int
    decreases m.len() - i,
{
    if i < 0 || i >= m.len() {
        -1
    } else if m[i].0 == k {
        i
    } else {
        alist_find(m, k, i + 1)
    }
}

/// Value stored under `k` in an association list.
pub open spec fn alist_get(m: Seq<(usize, usize)>, k: usize) -> Option<usize> {
    let i = alist_find(m, k, 0);
    if i >= 0 {
        Some(m[i].1)
    } else {
        None
    }
}

/// Association list after storing `v` under `k`.
pub open spec fn alist_insert(m: Seq<(usize, usize)>, k: usize, v: usize) -> Seq<(usize, usize)> {
    let i = alist_find(m, k, 0);
    if i >= 0 {
        m.update(i, (k, v))
    } else {
        m.push((k, v))
    }
}

/// State of the conversion of a selection into a PII graph: the graph so far,
/// the PII node of each e-class added, and which entries have been added.
pub struct SelState {
    pub pii: Seq<PiiNodeView>,
    pub emap: Seq<(usize, usize)>,
    pub done: Seq<bool>,
}

/// Adds entry `idx` with the given operand nodes; `None` when `add_node` refuses it.
pub open spec fn add_entry(
    g: SnapshotView,
    offs: Seq<(Option<usize>, i32)>,
    st: SelState,
    e: EntryView,
    children: Seq<usize>,
    idx: int,
) -> Option<SelState> {
    if !can_add(st.pii, e.0, children) {
        None
    } else {
        Some(
            SelState {
                pii: st.pii.push(
                    PiiNodeView {
                        id: st.pii.len() as usize,
                        op: e.0,
                        info: e.2,
                        buffer: placed_buffer(st.pii, e.0, children),
                        hbm_offset: hbm_offset_of(g, offs, e.1 as int),
                        children,
                    },
                ),
                emap: alist_insert(st.emap, e.1, st.pii.len() as usize),
                done: st.done.update(idx, true),
            },
        )
    }
}

/// First pass: the leaf entries, in selection order.
pub open spec fn leaves_phase(
    g: SnapshotView,
    offs: Seq<(Option<usize>, i32)>,
    sel: Seq<EntryView>,
    st: SelState,
    i: int,
) -> Option<SelState>
    decreases sel.len() - i,
{
    if i < 0 || i >= sel.len() {
        Some(st)
    } else if sel[i].0.children.len() == 0 {
        match add_entry(g, offs, st, sel[i], Seq::empty(), i) {
            None => None,
            Some(st2) => leaves_phase(g, offs, sel, st2, i + 1),
        }
    } else {
        leaves_phase(g, offs, sel, st, i + 1)
    }
}

/// All children of `op` already have PII nodes.
pub open spec fn children_mapped(emap: Seq<(usize, usize)>, op: OpView) -> bool {
    forall|j: int| 0 <= j < op.children.len() ==> (#[trigger] alist_get(emap, op.children[j])) is Some
}

/// The PII nodes of the children of `op`.
pub open spec fn mapped_children(emap: Seq<(usize, usize)>, op: OpView) -> Seq<usize> {
    op.children.map_values(|c: usize| alist_get(emap, c)->0)
}

/// First entry at or after `i` not yet added whose children all have nodes, or -1.
pub open spec fn pick(sel: Seq<EntryView>, st: SelState, i: int) -> int
    decreases sel.len() - i,
{
    if i < 0 || i >= sel.len() || i >= st.done.len() {
        -1
    } else if !st.done[i] && children_mapped(st.emap, sel[i].0) {
        i
    } else {
        pick(sel, st, i + 1)
    }
}

/// Second pass: repeatedly add the first ready entry until all are added or
/// none is ready.
pub open spec fn rounds(
    g: SnapshotView,
    offs: Seq<(Option<usize>, i32)>,
    sel: Seq<EntryView>,
    st: SelState,
) -> Option<SelState>
    decreases count_false(st.done),
{
    if st.done.len() != sel.len() || count_false(st.done) == 0 {
        Some(st)
    } else {
        let i = pick(sel, st, 0);
        if i < 0 {
            Some(st)
        } else {
            match add_entry(g, offs, st, sel[i], mapped_children(st.emap, sel[i].0), i) {
                None => None,
                Some(st2) => {
                    proof {
                        lemma_pick_range(sel, st, 0);
                        lemma_count_false_set(st.done, i);
                    }
                    rounds(g, offs, sel, st2)
                },
            }
        }
    }
}

pub proof fn lemma_pick_range(sel: Seq<EntryView>, st: SelState, i: int)
    ensures
        pick(sel, st, i) >= 0 ==> pick(sel, st, i) >= i && pick(sel, st, i) < sel.len() && pick(sel, st, i)
            < st.done.len() && !st.done[pick(sel, st, i)] && children_mapped(st.emap, sel[pick(sel, st, i)].0),
        pick(sel, st, i) < 0 ==> pick(sel, st, i) == -1,
    decreases sel.len() - i,
{
    if !(i < 0 || i >= sel.len() || i >= st.done.len()) && !(!st.done[i] && children_mapped(st.emap, sel[i].0)) {
        lemma_pick_range(sel, st, i + 1);
    }
}

pub open spec fn all_false(n: nat) -> Seq<bool> {
    Seq::new(n, |i: int| false)
}

/// The PII graph built from a selection: leaves first, then each entry once
/// its children are in; `None` when `add_node` would refuse a node.
pub open spec fn select_pii(g: SnapshotView, offs: Seq<(Option<usize>, i32)>, sel: Seq<EntryView>) -> Option<
    Seq<PiiNodeView>,
> {
    let init = SelState { pii: Seq::empty(), emap: Seq::empty(), done: all_false(sel.len()) };
    match leaves_phase(g, offs, sel, init, 0) {
        None => None,
        Some(st) => match rounds(g, offs, sel, st) {
            None => None,
            Some(st2) => Some(st2.pii),
        },
    }
}

fn alist_lookup(m: &Vec<(usize, usize)>, k: usize) -> (r: Option<usize>)
    ensures
        r == alist_get(m@, k),
{
    let mut i: usize = 0;
    while i < m.len()
        invariant
            i <= m.len(),
            alist_find(m@, k, 0) == alist_find(m@, k, i as int),
        decreases m.len() - i,
    {
        if m[i].0 == k {
            return Some(m[i].1);
        }
        i = i + 1;
    }
    None
}

fn alist_store(m: &mut Vec<(usize, usize)>, k: usize, v: usize)
    ensures
        final(m)@ == alist_insert(old(m)@, k, v),
{
    let mut i: usize = 0;
    while i < m.len()
        invariant
            m@ == old(m)@,
            i <= m.len(),
            alist_find(m@, k, 0) == alist_find(m@, k, i as int),
        decreases m.len() - i,
    {
        if m[i].0 == k {
            m.set(i, (k, v));
            return;
        }
        i = i + 1;
    }
    m.push((k, v));
}

pub proof fn lemma_count_false_all_false(n: nat)
    ensures
        count_false(all_false(n)) == n,
    decreases n,
{
    if n > 0 {
        lemma_count_false_all_false((n - 1) as nat);
        assert(all_false(n).drop_last() == all_false((n - 1) as nat));
    }
}

pub open spec fn state_of(pii: &PiiGraph, emap: &Vec<(usize, usize)>, done: &Vec<bool>) -> SelState {
    SelState { pii: pii@, emap: emap@, done: done@ }
}

/// The PII nodes of the children of `op` when all of them have one.
fn lookup_children(emap: &Vec<(usize, usize)>, op: &TensorOp) -> (r: Option<Vec<usize>>)
    ensures
        r is Some <==> children_mapped(emap@, op@),
        r matches Some(v) ==> v@ == mapped_children(emap@, op@),
{
    let ch = op.children();
    let mut ids: Vec<usize> = Vec::new();
    let mut j: usize = 0;
    while j < ch.len()
        invariant
            ch@ == op@.children,
            j <= ch.len(),
            ids@ == mapped_children(emap@, op@).take(j as int),
            forall|q: int| 0 <= q < j ==> (#[trigger] alist_get(emap@, op@.children[q])) is Some,
        decreases ch.len() - j,
    {
        match alist_lookup(emap, ch[j]) {
            None => {
                return None;
            },
            Some(id) => {
                ids.push(id);
                assert(mapped_children(emap@, op@).take(j + 1) == mapped_children(emap@, op@).take(j as int).push(id));
            },
        }
        j = j + 1;
    }
    assert(mapped_children(emap@, op@).take(ch.len() as int) == mapped_children(emap@, op@));
    Some(ids)
}

/// Converts a selection into a PII graph, adding the leaves first and then,
/// round by round, the first entry whose children have all been added.
/// `None` when a node is refused by `add_node`.
fn select2pii_graph(
    egraph: &EGraphSnapshot,
    selected: &Vec<Entry>,
    hbm_offsets: &Vec<(Option<usize>, i32)>,
) -> (r: Option<PiiGraph>)
    requires
        egraph.wf(),
        offsets_in_range(egraph@, hbm_offsets@),
        forall|i: int| 0 <= i < selected.len() ==> (#[trigger] selected@[i]).1 < egraph@.len(),
    ensures
        r is None <==> select_pii(egraph@, hbm_offsets@, entries_view(selected@)) is None,
        r matches Some(p) ==> select_pii(egraph@, hbm_offsets@, entries_view(selected@)) == Some(p@),
{
    let ghost sv = entries_view(selected@);
    let ghost offs = hbm_offsets@;
    let mut pii = PiiGraph { nodes: Vec::new() };
    let mut emap: Vec<(usize, usize)> = Vec::new();
    let mut done: Vec<bool> = Vec::new();
    while done.len() < selected.len()
        invariant
            done.len() <= selected.len(),
            forall|q: int| 0 <= q < done.len() ==> !done@[q],
        decreases selected.len() - done.len(),
    {
        done.push(false);
    }
    assert(done@ == all_false(selected.len() as nat));
    proof {
        lemma_count_false_all_false(selected.len() as nat);
    }
    let ghost init = state_of(&pii, &emap, &done);
    assert(pii@ == Seq::<PiiNodeView>::empty());
    assert(init == SelState { pii: Seq::empty(), emap: Seq::empty(), done: all_false(sv.len()) });
    let mut ndone: usize = 0;
    let mut i: usize = 0;
    while i < selected.len()
        invariant
            egraph.wf(),
            offsets_in_range(egraph@, hbm_offsets@),
            forall|q: int| 0 <= q < selected.len() ==> (#[trigger] selected@[q]).1 < egraph@.len(),
            sv == entries_view(selected@),
            offs == hbm_offsets@,
            i <= selected.len(),
            done.len() == selected.len(),
            forall|q: int| i <= q < done.len() ==> !done@[q],
            init == (SelState { pii: Seq::empty(), emap: Seq::empty(), done: all_false(sv.len()) }),
            ndone + count_false(done@) == done.len(),
            leaves_phase(egraph@, offs, sv, init, 0) == leaves_phase(
                egraph@,
                offs,
                sv,
                state_of(&pii, &emap, &done),
                i as int,
            ),
        decreases selected.len() - i,
    {
        let e = &selected[i];
        assert(sv[i as int] == (e.0@, e.1, e.2@));
        if e.0.is_leaf() {
            let off = get_hbm_offset(egraph, hbm_offsets, e.1);
            let ghost before = state_of(&pii, &emap, &done);
            let empty: Vec<usize> = Vec::new();
            assert(empty@ == Seq::<usize>::empty());
            match pii.try_add_node(e.0.clone(), e.2.clone(), empty, off) {
                None => {
                    assert(add_entry(egraph@, offs, before, sv[i as int], Seq::empty(), i as int) is None);
                    assert(leaves_phase(egraph@, offs, sv, before, i as int) is None);
                    return None;
                },
                Some(id) => {
                    alist_store(&mut emap, e.1, id);
                    done.set(i, true);
                    proof {
                        lemma_count_false_set(before.done, i as int);
                    }
                    ndone = ndone + 1;
                    assert(state_of(&pii, &emap, &done) == add_entry(egraph@, offs, before, sv[i as int], Seq::empty(), i as int)->0);
                },
            }
        }
        i = i + 1;
    }
    let ghost after_leaves = state_of(&pii, &emap, &done);
    assert(leaves_phase(egraph@, offs, sv, init, 0) == Some(after_leaves));
    let mut stuck = false;
    while ndone < selected.len() && !stuck
        invariant
            egraph.wf(),
            offsets_in_range(egraph@, hbm_offsets@),
            forall|q: int| 0 <= q < selected.len() ==> (#[trigger] selected@[q]).1 < egraph@.len(),
            sv == entries_view(selected@),
            offs == hbm_offsets@,
            done.len() == selected.len(),
            ndone + count_false(done@) == done.len(),
            stuck ==> pick(sv, state_of(&pii, &emap, &done), 0) < 0,
            init == (SelState { pii: Seq::empty(), emap: Seq::empty(), done: all_false(sv.len()) }),
            leaves_phase(egraph@, offs, sv, init, 0) == Some(after_leaves),
            rounds(egraph@, offs, sv, after_leaves) == rounds(egraph@, offs, sv, state_of(&pii, &emap, &done)),
        decreases count_false(done@), if stuck { 0int } else { 1int },
    {
        let mut found: Option<usize> = None;
        let mut found_children: Vec<usize> = Vec::new();
        let mut i: usize = 0;
        while i < selected.len() && found.is_none()
            invariant
                sv == entries_view(selected@),
                done.len() == selected.len(),
                i <= selected.len(),
                found is None ==> pick(sv, state_of(&pii, &emap, &done), 0) == pick(
                    sv,
                    state_of(&pii, &emap, &done),
                    i as int,
                ),
                found matches Some(f) ==> f == pick(sv, state_of(&pii, &emap, &done), 0) && f < selected.len()
                    && found_children@ == mapped_children(emap@, sv[f as int].0),
            decreases selected.len() - i, if found is None { 1int } else { 0int },
        {
            assert(sv[i as int].0 == selected@[i as int].0@);
            if !done[i] {
                match lookup_children(&emap, &selected[i].0) {
                    Some(ids) => {
                        found = Some(i);
                        found_children = ids;
                    },
                    None => {},
                }
            }
            if found.is_none() {
                i = i + 1;
            }
        }
        match found {
            None => {
                stuck = true;
            },
            Some(f) => {
                proof {
                    lemma_pick_range(sv, state_of(&pii, &emap, &done), 0);
                }
                let e = &selected[f];
                assert(sv[f as int] == (e.0@, e.1, e.2@));
                let off = get_hbm_offset(egraph, hbm_offsets, e.1);
                let ghost before = state_of(&pii, &emap, &done);
                match pii.try_add_node(e.0.clone(), e.2.clone(), found_children, off) {
                    None => {
                        assert(rounds(egraph@, offs, sv, before) is None);
                        return None;
                    },
                    Some(id) => {
                        alist_store(&mut emap, e.1, id);
                        done.set(f, true);
                        proof {
                            lemma_count_false_set(before.done, f as int);
                        }
                        ndone = ndone + 1;
                        assert(state_of(&pii, &emap, &done) == add_entry(
                            egraph@,
                            offs,
                            before,
                            sv[f as int],
                            mapped_children(before.emap, sv[f as int].0),
                            f as int,
                        )->0);
                    },
                }
            },
        }
    }
    Some(pii)
}

/// Every entry of the selection names an e-class id of the graph.
pub open spec fn entries_bounded(g: SnapshotView, sel: Seq<EntryView>) -> bool {
    forall|i: int| 0 <= i < sel.len() ==> (#[trigger] sel[i]).1 < g.len()
}

proof fn lemma_find_op_range(sel: Seq<EntryView>, op: OpView, i: int)
    ensures
        find_op(sel, op, i) == -1 || (i <= find_op(sel, op, i) < sel.len() && sel[find_op(sel, op, i)].0 == op),
    decreases sel.len() - i,
{
    if !(i < 0 || i >= sel.len()) && sel[i].0 != op {
        lemma_find_op_range(sel, op, i + 1);
    }
}

proof fn lemma_insert_bounded(g: SnapshotView, sel: Seq<EntryView>, e: EntryView)
    requires
        entries_bounded(g, sel),
        e.1 < g.len(),
    ensures
        entries_bounded(g, sel_insert(sel, e)),
{
    lemma_find_op_range(sel, e.0, 0);
    let r = sel_insert(sel, e);
    assert forall|i: int| 0 <= i < r.len() implies (#[trigger] r[i]).1 < g.len() by {
        if i < sel.len() && r[i] != e {
            assert(r[i] == sel[i]);
        }
    }
}

proof fn lemma_search_bounded(
    g: SnapshotView,
    inputs: Set<usize>,
    ec: int,
    buf: Buffer,
    path: Seq<bool>,
    sel: Seq<EntryView>,
)
    requires
        entries_bounded(g, sel),
    ensures
        entries_bounded(g, search(g, inputs, ec, buf, path, sel).1),
    decreases count_false(path), 3int, 0int,
{
    if !(!(0 <= ec < path.len() && ec < g.len()) || path[ec]) && !memo_hit(g, sel, ec, buf) {
        lemma_try_nodes_bounded(g, inputs, ec, buf, path, sel, 0);
    }
}

proof fn lemma_try_nodes_bounded(
    g: SnapshotView,
    inputs: Set<usize>,
    ec: int,
    buf: Buffer,
    path: Seq<bool>,
    sel: Seq<EntryView>,
    k: int,
)
    requires
        entries_bounded(g, sel),
    ensures
        entries_bounded(g, try_nodes(g, inputs, ec, buf, path, sel, k).1),
    decreases count_false(path), 2int, g.class(ec).nodes.len() - k,
{
    if !(!(0 <= ec < path.len() && ec < g.len()) || path[ec] || k < 0 || k >= g.class(ec).nodes.len()) {
        let en = g.class(ec).nodes[k];
        let entry = (en, ec as usize, g.class(ec).data);
        lemma_insert_bounded(g, sel, entry);
        lemma_try_nodes_bounded(g, inputs, ec, buf, path, sel, k + 1);
        if buffers_of(en.kind) is Some {
            lemma_try_children_bounded(g, inputs, ec, buf, path, sel, en, 0);
            let (ok, sel2) = try_children(g, inputs, ec, buf, path, sel, en, 0);
            lemma_insert_bounded(g, sel2, entry);
        }
    }
}

proof fn lemma_try_children_bounded(
    g: SnapshotView,
    inputs: Set<usize>,
    ec: int,
    buf: Buffer,
    path: Seq<bool>,
    sel: Seq<EntryView>,
    en: OpView,
    i: int,
)
    requires
        entries_bounded(g, sel),
    ensures
        entries_bounded(g, try_children(g, inputs, ec, buf, path, sel, en, i).1),
    decreases count_false(path), 1int, en.children.len() - i,
{
    if !(!(0 <= ec < path.len()) || path[ec] || i < 0 || buffers_of(en.kind) is None) && i < en.children.len() {
        let bufs = buffers_of(en.kind)->0;
        let out = if bufs[0] != Buffer::ANY {
            bufs[1 + i]
        } else {
            buf
        };
        let path2 = path.update(ec, true);
        lemma_count_false_set(path, ec);
        lemma_search_bounded(g, inputs, en.children[i] as int, out, path2, sel);
        let (ok, sel2) = search(g, inputs, en.children[i] as int, out, path2, sel);
        if ok {
            lemma_try_children_bounded(g, inputs, ec, buf, path, sel2, en, i + 1);
        }
    }
}

/// Outcome of the fast extractor on a snapshot: no PII graph when the search
/// from the root finds no extraction, the PII graph of the selection it finds
/// otherwise, and `None` when that selection cannot be laid out as a PII graph.
pub open spec fn fast_result(
    g: SnapshotView,
    inputs: Set<usize>,
    root: int,
    offs: Seq<(Option<usize>, i32)>,
) -> Option<Seq<Seq<PiiNodeView>>> {
    let found = search(g, inputs, root, Buffer::HBM, all_false(g.len()), Seq::empty());
    if !found.0 {
        Some(Seq::empty())
    } else {
        match select_pii(g, offs, found.1) {
            None => None,
            Some(p) => Some(seq![p]),
        }
    }
}

/// Fast extraction on a snapshot taken after constant annotation: a pre-order
/// search from `root` for the HBM result selects e-nodes (memoizing, so it is
/// not complete), and the selection is laid out as one PII graph.
/// `None` when a selected node cannot be added to a PII graph.
pub fn extract_fast(
    egraph: &EGraphSnapshot,
    root: usize,
    inputs: &HashSet<usize>,
    hbm_offsets: &Vec<(Option<usize>, i32)>,
) -> (r: Option<Vec<PiiGraph>>)
    requires
        egraph.wf(),
        root < egraph@.len(),
        offsets_in_range(egraph@, hbm_offsets@),
    ensures
        r is None <==> fast_result(egraph@, inputs@, root as int, hbm_offsets@) is None,
        r matches Some(v) ==> fast_result(egraph@, inputs@, root as int, hbm_offsets@) == Some(
            v@.map_values(|p: PiiGraph| p@),
        ),
{
    let n = egraph.len();
    let mut path: Vec<bool> = Vec::new();
    while path.len() < n
        invariant
            path.len() <= n,
            forall|q: int| 0 <= q < path.len() ==> !path@[q],
        decreases n - path.len(),
    {
        path.push(false);
    }
    assert(path@ == all_false(egraph@.len()));
    let mut selected: Vec<Entry> = Vec::new();
    assert(entries_view(selected@) == Seq::<EntryView>::empty());
    let found = get_pii_graph(egraph, root, Buffer::HBM, inputs, &mut path, &mut selected);
    if found {
        proof {
            lemma_search_bounded(egraph@, inputs@, root as int, Buffer::HBM, all_false(egraph@.len()), Seq::empty());
            assert forall|i: int| 0 <= i < selected.len() implies (#[trigger] selected@[i]).1 < egraph@.len() by {
                assert(entries_view(selected@)[i].1 == selected@[i].1);
            }
        }
        match select2pii_graph(egraph, &selected, hbm_offsets) {
            None => None,
            Some(p) => {
                let ghost pv = p@;
                let v = vec![p];
                assert(v@.map_values(|p: PiiGraph| p@) == seq![pv]);
                Some(v)
            },
        }
    } else {
        let v: Vec<PiiGraph> = Vec::new();
        assert(v@.map_values(|p: PiiGraph| p@) == Seq::<Seq<PiiNodeView>>::empty());
        Some(v)
    }
}


/// A conversion state for a selection of `n` entries is consistent: the PII
/// graph is well formed and holds one node per entry already added.
pub open spec fn sel_inv(st: SelState, n: nat) -> bool {
    &&& pii_wf(st.pii)
    &&& st.done.len() == n
    &&& st.pii.len() + count_false(st.done) == n
    &&& forall|q: int| 0 <= q < st.emap.len() ==> #[trigger] st.emap[q].1 < st.pii.len()
}

proof fn lemma_alist_find_range(m: Seq<(usize, usize)>, k: usize, i: int)
    ensures
        alist_find(m, k, i) == -1 || (i <= alist_find(m, k, i) < m.len() && m[alist_find(m, k, i)].0 == k),
    decreases m.len() - i,
{
    if !(i < 0 || i >= m.len()) && m[i].0 != k {
        lemma_alist_find_range(m, k, i + 1);
    }
}

proof fn lemma_add_entry_inv(
    g: SnapshotView,
    offs: Seq<(Option<usize>, i32)>,
    st: SelState,
    e: EntryView,
    children: Seq<usize>,
    idx: int,
    n: nat,
)
    requires
        sel_inv(st, n),
        n < usize::MAX,
        0 <= idx < n,
        !st.done[idx],
        forall|j: int| 0 <= j < children.len() ==> children[j] < st.pii.len(),
    ensures
        add_entry(g, offs, st, e, children, idx) matches Some(st2) ==> sel_inv(st2, n),
{
    lemma_count_false_set(st.done, idx);
    if can_add(st.pii, e.0, children) {
        lemma_add_node_keeps_wf(st.pii, e.0, e.2, children, hbm_offset_of(g, offs, e.1 as int));
        let st2 = add_entry(g, offs, st, e, children, idx)->0;
        lemma_alist_find_range(st.emap, e.1, 0);
        assert forall|q: int| 0 <= q < st2.emap.len() implies #[trigger] st2.emap[q].1 < st2.pii.len() by {
            if q < st.emap.len() && st2.emap[q] == st.emap[q] {
            }
        }
    }
}

proof fn lemma_leaves_inv(
    g: SnapshotView,
    offs: Seq<(Option<usize>, i32)>,
    sel: Seq<EntryView>,
    st: SelState,
    i: int,
)
    requires
        sel_inv(st, sel.len()),
        sel.len() < usize::MAX,
        0 <= i,
        forall|j: int| i <= j < sel.len() ==> !#[trigger] st.done[j],
    ensures
        leaves_phase(g, offs, sel, st, i) matches Some(s2) ==> sel_inv(s2, sel.len()),
    decreases sel.len() - i,
{
    if i < sel.len() {
        if sel[i].0.children.len() == 0 {
            lemma_add_entry_inv(g, offs, st, sel[i], Seq::empty(), i, sel.len());
            match add_entry(g, offs, st, sel[i], Seq::empty(), i) {
                None => {},
                Some(st2) => {
                    assert forall|j: int| i + 1 <= j < sel.len() implies !#[trigger] st2.done[j] by {
                        assert(st2.done[j] == st.done[j]);
                    }
                    lemma_leaves_inv(g, offs, sel, st2, i + 1);
                },
            }
        } else {
            lemma_leaves_inv(g, offs, sel, st, i + 1);
        }
    }
}

proof fn lemma_rounds_inv(g: SnapshotView, offs: Seq<(Option<usize>, i32)>, sel: Seq<EntryView>, st: SelState)
    requires
        sel_inv(st, sel.len()),
        sel.len() < usize::MAX,
    ensures
        rounds(g, offs, sel, st) matches Some(s2) ==> sel_inv(s2, sel.len()),
    decreases count_false(st.done),
{
    if !(st.done.len() != sel.len() || count_false(st.done) == 0) {
        lemma_pick_range(sel, st, 0);
        let i = pick(sel, st, 0);
        if i >= 0 {
            let ch = mapped_children(st.emap, sel[i].0);
            assert forall|j: int| 0 <= j < ch.len() implies ch[j] < st.pii.len() by {
                let c = sel[i].0.children[j];
                assert(alist_get(st.emap, c) is Some);
                lemma_alist_find_range(st.emap, c, 0);
            }
            lemma_add_entry_inv(g, offs, st, sel[i], ch, i, sel.len());
            match add_entry(g, offs, st, sel[i], ch, i) {
                None => {},
                Some(st2) => {
                    lemma_count_false_set(st.done, i);
                    lemma_rounds_inv(g, offs, sel, st2);
                },
            }
        }
    }
}

/// The PII graph that the fast extractor lays out from a selection is well
/// formed: nodes numbered in order, operands before users, concrete buffers.
pub proof fn lemma_select_pii_wf(g: SnapshotView, offs: Seq<(Option<usize>, i32)>, sel: Seq<EntryView>)
    requires
        sel.len() < usize::MAX,
    ensures
        select_pii(g, offs, sel) matches Some(p) ==> pii_wf(p),
{
    let init = SelState { pii: Seq::empty(), emap: Seq::empty(), done: all_false(sel.len()) };
    lemma_count_false_all_false(sel.len());
    lemma_leaves_inv(g, offs, sel, init, 0);
    match leaves_phase(g, offs, sel, init, 0) {
        None => {},
        Some(st) => {
            lemma_rounds_inv(g, offs, sel, st);
        },
    }
}


/// Every entry of the selection is an e-node of the class it names, recorded
/// with that class's metadata.
pub open spec fn entries_in_classes(g: SnapshotView, sel: Seq<EntryView>) -> bool {
    forall|i: int|
        0 <= i < sel.len() ==> {
            let e = #[trigger] sel[i];
            &&& e.1 < g.len()
            &&& g.class(e.1 as int).nodes.contains(e.0)
            &&& e.2 == g.class(e.1 as int).data
        }
}

/// Some entry of the selection selects `op`.
spec fn selects(sel: Seq<EntryView>, op: OpView) -> bool {
    exists|j: int| 0 <= j < sel.len() && (#[trigger] sel[j]).0 == op
}

/// Every e-node selected in `a` is still selected in `b`.
spec fn keeps_ops(a: Seq<EntryView>, b: Seq<EntryView>) -> bool {
    forall|op: OpView| #[trigger] selects(a, op) ==> selects(b, op)
}

proof fn lemma_find_op_selects(sel: Seq<EntryView>, op: OpView, i: int)
    requires
        0 <= i,
    ensures
        find_op(sel, op, i) >= 0 <==> exists|j: int| i <= j < sel.len() && (#[trigger] sel[j]).0 == op,
    decreases sel.len() - i,
{
    if i < sel.len() && sel[i].0 != op {
        lemma_find_op_selects(sel, op, i + 1);
        if exists|j: int| i <= j < sel.len() && (#[trigger] sel[j]).0 == op {
            let j = choose|j: int| i <= j < sel.len() && (#[trigger] sel[j]).0 == op;
            assert(j != i);
        }
    }
}

proof fn lemma_insert_in_classes(g: SnapshotView, sel: Seq<EntryView>, e: EntryView)
    requires
        entries_in_classes(g, sel),
        e.1 < g.len(),
        g.class(e.1 as int).nodes.contains(e.0),
        e.2 == g.class(e.1 as int).data,
    ensures
        entries_in_classes(g, sel_insert(sel, e)),
        keeps_ops(sel, sel_insert(sel, e)),
        selects(sel_insert(sel, e), e.0),
{
    lemma_find_op_range(sel, e.0, 0);
    let i = find_op(sel, e.0, 0);
    let r = sel_insert(sel, e);
    assert forall|k: int| 0 <= k < r.len() implies {
        let x = #[trigger] r[k];
        &&& x.1 < g.len()
        &&& g.class(x.1 as int).nodes.contains(x.0)
        &&& x.2 == g.class(x.1 as int).data
    } by {
        if r[k] != e {
            assert(r[k] == sel[k]);
        }
    }
    assert forall|op: OpView| #[trigger] selects(sel, op) implies selects(r, op) by {
        let j = choose|j: int| 0 <= j < sel.len() && (#[trigger] sel[j]).0 == op;
        if i >= 0 && j == i {
            assert(r[j].0 == op);
        } else {
            assert(r[j] == sel[j]);
        }
    }
    if i >= 0 {
        assert(r[i] == e);
    } else {
        assert(r[sel.len() as int] == e);
    }
}

proof fn lemma_search_selection_rec(
    g: SnapshotView,
    inputs: Set<usize>,
    ec: int,
    buf: Buffer,
    path: Seq<bool>,
    sel: Seq<EntryView>,
)
    requires
        g.len() <= usize::MAX,
        entries_in_classes(g, sel),
    ensures
        ({
            let r = search(g, inputs, ec, buf, path, sel);
            &&& entries_in_classes(g, r.1)
            &&& keeps_ops(sel, r.1)
            &&& r.0 ==> exists|k: int| 0 <= k < g.class(ec).nodes.len() && selects(r.1, #[trigger] g.class(ec).nodes[k])
        }),
    decreases count_false(path), 3int, 0int,
{
    if !(!(0 <= ec < path.len() && ec < g.len()) || path[ec]) {
        if memo_hit(g, sel, ec, buf) {
            let k = choose|k: int|
                0 <= k < g.class(ec).nodes.len() && buffers_of((#[trigger] g.class(ec).nodes[k]).kind) is Some
                    && find_op(sel, g.class(ec).nodes[k], 0) >= 0 && buf == buffers_of(g.class(ec).nodes[k].kind)->0[0];
            lemma_find_op_selects(sel, g.class(ec).nodes[k], 0);
            assert(selects(sel, g.class(ec).nodes[k]));
        } else {
            lemma_try_nodes_selection(g, inputs, ec, buf, path, sel, 0);
        }
    }
}

proof fn lemma_try_nodes_selection(
    g: SnapshotView,
    inputs: Set<usize>,
    ec: int,
    buf: Buffer,
    path: Seq<bool>,
    sel: Seq<EntryView>,
    k: int,
)
    requires
        g.len() <= usize::MAX,
        entries_in_classes(g, sel),
    ensures
        ({
            let r = try_nodes(g, inputs, ec, buf, path, sel, k);
            &&& entries_in_classes(g, r.1)
            &&& keeps_ops(sel, r.1)
            &&& r.0 ==> exists|q: int| 0 <= q < g.class(ec).nodes.len() && selects(r.1, #[trigger] g.class(ec).nodes[q])
        }),
    decreases count_false(path), 2int, g.class(ec).nodes.len() - k,
{
    if !(!(0 <= ec < path.len() && ec < g.len()) || path[ec] || k < 0 || k >= g.class(ec).nodes.len()) {
        let en = g.class(ec).nodes[k];
        let entry = (en, ec as usize, g.class(ec).data);
        assert(g.class(ec).nodes.contains(en));
        lemma_insert_in_classes(g, sel, entry);
        lemma_try_nodes_selection(g, inputs, ec, buf, path, sel, k + 1);
        if buffers_of(en.kind) is Some {
            lemma_try_children_selection(g, inputs, ec, buf, path, sel, en, 0);
            let (ok, sel2) = try_children(g, inputs, ec, buf, path, sel, en, 0);
            lemma_insert_in_classes(g, sel2, entry);
            let r2 = sel_insert(sel2, entry);
            assert forall|op: OpView| #[trigger] selects(sel, op) implies selects(r2, op) by {
                assert(selects(sel2, op));
            }
        }
    }
}

proof fn lemma_try_children_selection(
    g: SnapshotView,
    inputs: Set<usize>,
    ec: int,
    buf: Buffer,
    path: Seq<bool>,
    sel: Seq<EntryView>,
    en: OpView,
    i: int,
)
    requires
        g.len() <= usize::MAX,
        entries_in_classes(g, sel),
    ensures
        entries_in_classes(g, try_children(g, inputs, ec, buf, path, sel, en, i).1),
        keeps_ops(sel, try_children(g, inputs, ec, buf, path, sel, en, i).1),
    decreases count_false(path), 1int, en.children.len() - i,
{
    if !(!(0 <= ec < path.len()) || path[ec] || i < 0 || buffers_of(en.kind) is None) && i < en.children.len() {
        let bufs = buffers_of(en.kind)->0;
        let out = if bufs[0] != Buffer::ANY {
            bufs[1 + i]
        } else {
            buf
        };
        let path2 = path.update(ec, true);
        lemma_count_false_set(path, ec);
        lemma_search_selection_rec(g, inputs, en.children[i] as int, out, path2, sel);
        let (ok, sel2) = search(g, inputs, en.children[i] as int, out, path2, sel);
        if ok {
            lemma_try_children_selection(g, inputs, ec, buf, path, sel2, en, i + 1);
            let r = try_children(g, inputs, ec, buf, path, sel2, en, i + 1).1;
            assert forall|op: OpView| #[trigger] selects(sel, op) implies selects(r, op) by {
                assert(selects(sel2, op));
            }
        }
    }
}

/// What every search of the fast extractor keeps: an e-node selected before
/// stays selected, and every entry is an e-node of the class it names, with that
/// class's metadata. A successful search leaves an e-node of the searched class
/// selected.
pub proof fn lemma_search_selection(
    g: SnapshotView,
    inputs: Set<usize>,
    ec: int,
    buf: Buffer,
    path: Seq<bool>,
    sel: Seq<EntryView>,
)
    requires
        g.len() <= usize::MAX,
        entries_in_classes(g, sel),
    ensures
        ({
            let r = search(g, inputs, ec, buf, path, sel);
            &&& entries_in_classes(g, r.1)
            &&& forall|op: OpView| find_op(sel, op, 0) >= 0 ==> #[trigger] find_op(r.1, op, 0) >= 0
            &&& r.0 ==> exists|k: int|
                0 <= k < g.class(ec).nodes.len() && find_op(r.1, #[trigger] g.class(ec).nodes[k], 0) >= 0
        }),
{
    lemma_search_selection_rec(g, inputs, ec, buf, path, sel);
    let r = search(g, inputs, ec, buf, path, sel);
    assert forall|op: OpView| find_op(sel, op, 0) >= 0 implies #[trigger] find_op(r.1, op, 0) >= 0 by {
        lemma_find_op_selects(sel, op, 0);
        lemma_find_op_selects(r.1, op, 0);
        assert(selects(sel, op));
    }
    if r.0 {
        let k = choose|k: int| 0 <= k < g.class(ec).nodes.len() && selects(r.1, #[trigger] g.class(ec).nodes[k]);
        lemma_find_op_selects(r.1, g.class(ec).nodes[k], 0);
    }
}


proof fn lemma_try_nodes_failure_keeps(
    g: SnapshotView,
    inputs: Set<usize>,
    ec: int,
    buf: Buffer,
    path: Seq<bool>,
    sel: Seq<EntryView>,
    k: int,
)
    ensures
        !try_nodes(g, inputs, ec, buf, path, sel, k).0 ==> try_nodes(g, inputs, ec, buf, path, sel, k).1 == sel,
    decreases g.class(ec).nodes.len() - k,
{
    if !(!(0 <= ec < path.len() && ec < g.len()) || path[ec] || k < 0 || k >= g.class(ec).nodes.len()) {
        lemma_try_nodes_failure_keeps(g, inputs, ec, buf, path, sel, k + 1);
    }
}

/// A failed search leaves the selection exactly as it was: whatever was
/// selected while trying e-nodes that did not work out is dropped again, so
/// nothing outside the extraction that is finally found stays selected.
pub proof fn lemma_failed_search_keeps_selection(
    g: SnapshotView,
    inputs: Set<usize>,
    ec: int,
    buf: Buffer,
    path: Seq<bool>,
    sel: Seq<EntryView>,
)
    ensures
        !search(g, inputs, ec, buf, path, sel).0 ==> search(g, inputs, ec, buf, path, sel).1 == sel,
{
    lemma_try_nodes_failure_keeps(g, inputs, ec, buf, path, sel, 0);
}


/// The `q`-th e-node of the class of `ec`, tried on its own from the selection
/// `sel`, succeeds and leaves the selection `r`: the e-node of an input class
/// or a detected constant read from HBM is recorded; an instruction whose
/// output buffer fits has its operands searched from `sel`, then is recorded.
pub open spec fn attempt_gives(
    g: SnapshotView,
    inputs: Set<usize>,
    ec: int,
    buf: Buffer,
    path: Seq<bool>,
    sel: Seq<EntryView>,
    q: int,
    r: Seq<EntryView>,
) -> bool {
    let en = g.class(ec).nodes[q];
    let entry = (en, ec as usize, g.class(ec).data);
    let (ok, sel2) = try_children(g, inputs, ec, buf, path, sel, en, 0);
    ||| inputs.contains(ec as usize) && buf == Buffer::HBM && r == sel_insert(sel, entry)
    ||| g.class(ec).data.is_const && en.kind == OpKind::DetectedConst && buf == Buffer::HBM && r == sel_insert(
        sel,
        entry,
    )
    ||| buffers_of(en.kind) is Some && (buffers_of(en.kind)->0[0] == Buffer::ANY || buffers_of(en.kind)->0[0]
        == buf) && ok && r == sel_insert(sel2, entry)
}

proof fn lemma_try_nodes_success_one_attempt(
    g: SnapshotView,
    inputs: Set<usize>,
    ec: int,
    buf: Buffer,
    path: Seq<bool>,
    sel: Seq<EntryView>,
    k: int,
)
    ensures
        try_nodes(g, inputs, ec, buf, path, sel, k).0 ==> exists|q: int|
            0 <= q < g.class(ec).nodes.len() && #[trigger] attempt_gives(
                g,
                inputs,
                ec,
                buf,
                path,
                sel,
                q,
                try_nodes(g, inputs, ec, buf, path, sel, k).1,
            ),
    decreases g.class(ec).nodes.len() - k,
{
    if !(!(0 <= ec < path.len() && ec < g.len()) || path[ec] || k < 0 || k >= g.class(ec).nodes.len()) {
        lemma_try_nodes_success_one_attempt(g, inputs, ec, buf, path, sel, k + 1);
        let r = try_nodes(g, inputs, ec, buf, path, sel, k);
        let r1 = try_nodes(g, inputs, ec, buf, path, sel, k + 1);
        if r.0 && r != r1 {
            assert(attempt_gives(g, inputs, ec, buf, path, sel, k, r.1));
        }
    }
}

/// A successful search is one e-node's attempt made from the selection it was
/// given: either an instruction of the class already selected with the wanted
/// output buffer (the selection is then unchanged), or one e-node of the class
/// tried on its own from that selection (nothing left over from e-nodes tried
/// before it and given up).
pub proof fn lemma_search_success_one_attempt(
    g: SnapshotView,
    inputs: Set<usize>,
    ec: int,
    buf: Buffer,
    path: Seq<bool>,
    sel: Seq<EntryView>,
)
    ensures
        search(g, inputs, ec, buf, path, sel).0 ==> (memo_hit(g, sel, ec, buf) && search(
            g,
            inputs,
            ec,
            buf,
            path,
            sel,
        ).1 == sel) || exists|q: int|
            0 <= q < g.class(ec).nodes.len() && #[trigger] attempt_gives(
                g,
                inputs,
                ec,
                buf,
                path,
                sel,
                q,
                search(g, inputs, ec, buf, path, sel).1,
            ),
{
    lemma_try_nodes_success_one_attempt(g, inputs, ec, buf, path, sel, 0);
}

} // verus!
