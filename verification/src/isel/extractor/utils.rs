use vstd::prelude::*;

use std::collections::HashSet;

use crate::ir::egraph::{op_text, OpKind, OpView, TensorOp};
use crate::ir::pii::{can_add, lemma_add_node_keeps_wf, pii_wf, placed_buffer, PiiGraph, PiiNodeView};
use crate::ir::snapshot::{lookup, op_in_range, EGraphSnapshot, SnapshotView};
use crate::isel::extractor::fast::{count_false, lemma_count_false_set};
use crate::text::{join_strings, join_text};

verus! {

broadcast use vstd::std_specs::hash::group_hash_axioms;

/// Whether the HBM offset entry `entry` belongs to the class of `eclass`: its
/// class is that class, or its class holds an `AlphaHBM` wrapper whose child is
/// that class.
pub open spec fn offset_entry_matches(g: SnapshotView, entry: (Option<usize>, i32), eclass: int) -> bool {
    match entry.0 {
        None => false,
        Some(b) => {
            ||| g.find(b as int) == g.find(eclass)
            ||| exists|k: int|
                0 <= k < g.class(b as int).nodes.len() && (#[trigger] g.class(b as int).nodes[k]).kind
                    == OpKind::AlphaHBM && g.find(g.class(b as int).nodes[k].children[0] as int)
                    == g.find(eclass)
        },
    }
}

/// Offset of the first entry at or after `i` that belongs to the class of `ec`.
pub open spec fn hbm_offset_from(g: SnapshotView, offs: Seq<(Option<usize>, i32)>, ec: int, i: int) -> Option<i32>
    decreases offs.len() - i,
{
    if i < 0 || i >= offs.len() {
        None
    } else if offset_entry_matches(g, offs[i], ec) {
        Some(offs[i].1)
    } else {
        hbm_offset_from(g, offs, ec, i + 1)
    }
}

/// HBM offset of the class of `ec`: that of the first entry of the table that
/// belongs to the class, directly or through an `AlphaHBM` wrapper around it.
pub open spec fn hbm_offset_of(g: SnapshotView, offs: Seq<(Option<usize>, i32)>, ec: int) -> Option<i32> {
    hbm_offset_from(g, offs, ec, 0)
}

/// All class ids named by the offset table are ids of the e-graph.
pub open spec fn offsets_in_range(g: SnapshotView, hbm_offsets: Seq<(Option<usize>, i32)>) -> bool {
    forall|i: int|
        0 <= i < hbm_offsets.len() ==> ((#[trigger] hbm_offsets[i]).0 matches Some(b) ==> b < g.len())
}

/// HBM offset of the class of `eclass`: the offset of the first entry of the
/// table that belongs to that class (directly, or through an `AlphaHBM` wrapper
/// around it), or `None` when no entry does.
#[verifier::loop_isolation(false)]
pub fn get_hbm_offset(
    egraph: &EGraphSnapshot,
    hbm_offsets: &Vec<(Option<usize>, i32)>,
    eclass: usize,
) -> (r: Option<i32>)
    requires
        egraph.wf(),
        eclass < egraph@.len(),
        offsets_in_range(egraph@, hbm_offsets@),
    ensures
        r == hbm_offset_of(egraph@, hbm_offsets@, eclass as int),
{
    let g = egraph;
    let ec = g.find(eclass);
    let mut i: usize = 0;
    while i < hbm_offsets.len()
        invariant
            i <= hbm_offsets.len(),
            hbm_offset_of(g@, hbm_offsets@, eclass as int) == hbm_offset_from(g@, hbm_offsets@, eclass as int, i as int),
        decreases hbm_offsets.len() - i,
    {
        let (buf_ec, offset) = hbm_offsets[i];
        assert(hbm_offsets@[i as int].0 == buf_ec && hbm_offsets@[i as int].1 == offset);
        match buf_ec {
            None => {},
            Some(b0) => {
                assert(b0 < g@.len());
                let b = g.find(b0);
                if b == ec {
                    assert(offset_entry_matches(g@, hbm_offsets@[i as int], eclass as int));
                    return Some(offset);
                }
                let cls = g.class(b);
                let mut k: usize = 0;
                while k < cls.nodes.len()
                    invariant
                        k <= cls.nodes.len(),
                        forall|q: int|
                            0 <= q < k ==> !((#[trigger] g@.class(b0 as int).nodes[q]).kind == OpKind::AlphaHBM
                                && g@.find(g@.class(b0 as int).nodes[q].children[0] as int) == g@.find(
                                eclass as int,
                            )),
                    decreases cls.nodes.len() - k,
                {
                    let node = &cls.nodes[k];
                    assert(g@.class(b0 as int).nodes[k as int] == node@);
                    match node {
                        TensorOp::AlphaHBM(child) => {
                            assert(node@.children[0] == *child);
                            assert(*child < g@.len());
                            if g.find(*child) == ec {
                                assert(offset_entry_matches(g@, hbm_offsets@[i as int], eclass as int));
                                return Some(offset);
                            }
                        },
                        _ => {},
                    }
                    k = k + 1;
                }
                assert(!offset_entry_matches(g@, hbm_offsets@[i as int], eclass as int));
            },
        }
        i = i + 1;
    }
    None
}

/// `cs` lists the classes found constant in an order where each class has an
/// e-node whose children all occur earlier in the list.
pub open spec fn constants_supported(g: SnapshotView, inputs: Set<usize>, cs: Seq<usize>) -> bool {
    forall|i: int|
        0 <= i < cs.len() ==> {
            &&& g.is_canonical(#[trigger] cs[i] as int)
            &&& !inputs.contains(cs[i])
            &&& exists|k: int|
                0 <= k < g.classes[cs[i] as int].nodes.len() && forall|j: int|
                    0 <= j < (#[trigger] g.classes[cs[i] as int].nodes[k]).children.len()
                        ==> cs.take(i).contains(g.classes[cs[i] as int].nodes[k].children[j])
        }
}

/// No class outside `cs` (and outside the inputs) has an e-node whose children
/// are all in `cs`.
pub open spec fn constants_closed(g: SnapshotView, inputs: Set<usize>, cs: Seq<usize>) -> bool {
    forall|c: int, k: int|
        #![trigger g.classes[c].nodes[k]]
        g.is_canonical(c) && !inputs.contains(c as usize) && !cs.contains(c as usize) && 0 <= k
            < g.classes[c].nodes.len() ==> exists|j: int|
            0 <= j < g.classes[c].nodes[k].children.len() && !cs.contains(
                #[trigger] g.classes[c].nodes[k].children[j],
            )
}

/// The e-node `k` of class `c` has all its children among `cs`.
pub open spec fn node_ready(g: SnapshotView, cs: Seq<usize>, c: int, k: int) -> bool {
    forall|j: int|
        0 <= j < g.classes[c].nodes[k].children.len() ==> cs.contains(
            #[trigger] g.classes[c].nodes[k].children[j],
        )
}

/// A class that could become constant is still waiting in the worklist.
pub open spec fn pending_ok(
    g: SnapshotView,
    inputs: Set<usize>,
    cs: Seq<usize>,
    wl: Seq<usize>,
    head: int,
    c: int,
) -> bool {
    (g.is_canonical(c) && !inputs.contains(c as usize) && !cs.contains(c as usize) && exists|k: int|
        0 <= k < g.classes[c].nodes.len() && #[trigger] node_ready(g, cs, c, k)) ==> exists|q: int|
        head <= q < wl.len() && wl[q] == c
}

proof fn lemma_pending_shift(
    g: SnapshotView,
    inputs: Set<usize>,
    cs: Seq<usize>,
    wl: Seq<usize>,
    head: int,
    next: int,
    e: usize,
)
    requires
        0 <= head < wl.len(),
        next == head + 1,
        wl[head] == e,
        g.parents_complete() ==> forall|x: int| pending_ok(g, inputs, cs, wl, head, x),
    ensures
        g.parents_complete() ==> forall|x: int| x != e ==> pending_ok(g, inputs, cs, wl, next, x),
        g.parents_complete() && cs.contains(e) ==> forall|x: int| pending_ok(g, inputs, cs, wl, next, x),
{
    if g.parents_complete() {
        assert forall|x: int| x != e || cs.contains(e) implies pending_ok(g, inputs, cs, wl, next, x) by {
            assert(pending_ok(g, inputs, cs, wl, head, x));
            if g.is_canonical(x) && !inputs.contains(x as usize) && !cs.contains(x as usize) && exists|k: int|
                0 <= k < g.classes[x].nodes.len() && #[trigger] node_ready(g, cs, x, k) {
                let q = choose|q: int| head <= q < wl.len() && wl[q] == x;
                assert(q != head);
            }
        }
    }
}

/// A list of distinct ids below `n` has at most `n` entries.
proof fn lemma_distinct_bounded(s: Seq<usize>, n: nat)
    requires
        s.no_duplicates(),
        forall|i: int| 0 <= i < s.len() ==> s[i] < n,
    ensures
        s.len() <= n,
{
    let t = s.map_values(|x: usize| x as int);
    assert(t.no_duplicates()) by {
        assert forall|i: int, j: int| 0 <= i < t.len() && 0 <= j < t.len() && i != j implies t[i] != t[j] by {
            assert(s[i] != s[j]);
        }
    }
    t.unique_seq_to_set();
    vstd::set_lib::lemma_int_range(0, n as int);
    assert(t.to_set().subset_of(vstd::set_lib::set_int_range(0, n as int))) by {
        assert forall|x: int| t.to_set().contains(x) implies vstd::set_lib::set_int_range(0, n as int).contains(x) by {
            let i = choose|i: int| 0 <= i < t.len() && t[i] == x;
            assert(s[i] < n);
        }
    }
    vstd::set_lib::lemma_len_subset(t.to_set(), vstd::set_lib::set_int_range(0, n as int));
}

/// Worklist search for compile-time constants: a class (not an input) is
/// constant when one of its e-nodes has only constant children. Returns the
/// constant classes, each listed after the classes its witnessing e-node uses;
/// when the parent lists of the snapshot are complete, every class that could
/// be derived constant is listed. This only detects: the snapshot is read-only,
/// so no class is marked here. Marking a returned class constant and adding
/// its `DetectedConst` e-node (carrying the text `constant_reprs` gives) is
/// done on the e-graph itself, by whoever owns it.
pub fn detect_constants(egraph: &EGraphSnapshot, inputs: &HashSet<usize>) -> (cs: Vec<usize>)
    requires
        egraph.wf(),
    ensures
        cs@.no_duplicates(),
        constants_supported(egraph@, inputs@, cs@),
        egraph@.parents_complete() ==> constants_closed(egraph@, inputs@, cs@),
{
    let g = egraph;
    let n = g.len();
    let mut worklist: Vec<usize> = Vec::new();
    let mut c: usize = 0;
    while c < n
        invariant
            g.wf(),
            n == g@.len(),
            c <= n,
            forall|q: int| 0 <= q < worklist.len() ==> #[trigger] worklist@[q] < n && g@.is_canonical(worklist@[q] as int),
            forall|x: usize| x < c && g@.is_canonical(x as int) ==> #[trigger] worklist@.contains(x),
        decreases n - c,
    {
        let ghost before = worklist@;
        if g.leaders[c] == c {
            worklist.push(c);
            assert(worklist@[worklist.len() - 1] == c);
            assert forall|x: usize| before.contains(x) implies worklist@.contains(x) by {
                let q = choose|q: int| 0 <= q < before.len() && before[q] == x;
                assert(worklist@[q] == x);
            }
            assert(worklist@.contains(c));
        }
        assert forall|x: usize| x <= c && g@.is_canonical(x as int) implies #[trigger] worklist@.contains(x) by {
            if x == c {
                assert(g.leaders@[c as int] == c);
            } else {
                assert(before.contains(x));
            }
        }
        c = c + 1;
    }
    proof {
        assert forall|x: int| pending_ok(g@, inputs@, Seq::<usize>::empty(), worklist@, 0, x) by {
            if g@.is_canonical(x) {
                assert(worklist@.contains(x as usize));
                let q = choose|q: int| 0 <= q < worklist.len() && worklist@[q] == x as usize;
            }
        }
    }
    let mut is_const: Vec<bool> = Vec::new();
    while is_const.len() < n
        invariant
            is_const.len() <= n,
            forall|x: int| 0 <= x < is_const.len() ==> !is_const@[x],
        decreases n - is_const.len(),
    {
        is_const.push(false);
    }
    let mut cs: Vec<usize> = Vec::new();
    let mut head: usize = 0;
    while head < worklist.len()
        invariant
            g.wf(),
            n == g@.len(),
            is_const.len() == n,
            forall|x: int| 0 <= x < n ==> (#[trigger] is_const@[x] <==> cs@.contains(x as usize)),
            cs@.no_duplicates(),
            forall|i: int| 0 <= i < cs.len() ==> #[trigger] cs@[i] < n,
            cs.len() <= n,
            constants_supported(g@, inputs@, cs@),
            head <= worklist.len(),
            forall|q: int| 0 <= q < worklist.len() ==> #[trigger] worklist@[q] < n && g@.is_canonical(worklist@[q] as int),
            g@.parents_complete() ==> forall|x: int| pending_ok(g@, inputs@, cs@, worklist@, head as int, x),
        decreases n - cs.len(), worklist.len() - head,
    {
        let e = worklist[head];
        proof {
            lemma_pending_shift(g@, inputs@, cs@, worklist@, head as int, head + 1, e);
        }
        head = head + 1;
        if is_const[e] {
            assert(cs@.contains(e));
            continue;
        }
        let ghost cs0 = cs@;
        let ghost wl0 = worklist@;
        let is_input = inputs.contains(&e);
        let cls = &g.classes[e];
        assert(cls@ == g@.classes[e as int]);
        let mut k: usize = 0;
        while k < cls.nodes.len()
            invariant
                g.wf(),
                n == g@.len(),
                e < n,
                g@.is_canonical(e as int),
                cls@ == g@.classes[e as int],
                is_input == inputs@.contains(e),
                is_const.len() == n,
                forall|x: int| 0 <= x < n ==> (#[trigger] is_const@[x] <==> cs@.contains(x as usize)),
                cs@.no_duplicates(),
                forall|i: int| 0 <= i < cs.len() ==> #[trigger] cs@[i] < n,
                constants_supported(g@, inputs@, cs@),
                head <= worklist.len(),
                forall|q: int| 0 <= q < worklist.len() ==> #[trigger] worklist@[q] < n && g@.is_canonical(worklist@[q] as int),
                k <= cls.nodes.len(),
                !cs0.contains(e),
                cs.len() <= n,
                g@.parents_complete() ==> forall|x: int| x != e ==> pending_ok(g@, inputs@, cs0, wl0, head as int, x),
                !is_const@[e as int] ==> cs@ == cs0 && worklist@ == wl0,
                is_const@[e as int] ==> cs@ == cs0.push(e),
                !is_const@[e as int] ==> forall|q: int| 0 <= q < k ==> is_input || !node_ready(g@, cs@, e as int, q),
                g@.parents_complete() ==> forall|x: int| x != e ==> pending_ok(g@, inputs@, cs@, worklist@, head as int, x),
            decreases cls.nodes.len() - k,
        {
            let node = &cls.nodes[k];
            assert(g@.classes[e as int].nodes[k as int] == node@);
            let ch = node.children();
            let mut all = true;
            let mut j: usize = 0;
            while j < ch.len()
                invariant
                    j <= ch.len(),
                    e < g@.classes.len(),
                    k < g@.classes[e as int].nodes.len(),
                    ch@ == g@.classes[e as int].nodes[k as int].children,
                    is_const.len() == n,
                    forall|q: int| 0 <= q < ch.len() ==> #[trigger] ch@[q] < n,
                    all == forall|q: int| 0 <= q < j ==> #[trigger] is_const@[ch@[q] as int],
                decreases ch.len() - j,
            {
                if !is_const[ch[j]] {
                    all = false;
                }
                j = j + 1;
            }
            assert(all == node_ready(g@, cs@, e as int, k as int)) by {
                if all {
                    assert forall|q: int| 0 <= q < ch.len() implies cs@.contains(#[trigger] ch@[q]) by {
                        assert(is_const@[ch@[q] as int]);
                    }
                } else {
                    let q = choose|q: int| 0 <= q < ch.len() && !is_const@[ch@[q] as int];
                    assert(!cs@.contains(ch@[q]));
                }
            }
            if all && !is_input {
                if !is_const[e] {
                    let ghost cs_before = cs@;
                    let ghost wl_before = worklist@;
                    is_const.set(e, true);
                    cs.push(e);
                    proof {
                        assert(cs@.take(cs_before.len() as int) == cs_before);
                        assert forall|i: int| 0 <= i < cs_before.len() implies cs@.take(i) == cs_before.take(i) by {}
                        assert forall|i: int| 0 <= i < cs.len() implies {
                            &&& g@.is_canonical(#[trigger] cs@[i] as int)
                            &&& !inputs@.contains(cs@[i])
                            &&& exists|k2: int|
                                0 <= k2 < g@.classes[cs@[i] as int].nodes.len() && forall|j2: int|
                                    0 <= j2 < (#[trigger] g@.classes[cs@[i] as int].nodes[k2]).children.len()
                                        ==> cs@.take(i).contains(g@.classes[cs@[i] as int].nodes[k2].children[j2])
                        } by {
                            if i == cs_before.len() {
                                assert(cs@.take(i) == cs_before);
                                assert(node_ready(g@, cs_before, e as int, k as int));
                                assert forall|j2: int|
                                    0 <= j2 < g@.classes[e as int].nodes[k as int].children.len()
                                    implies cs@.take(i).contains(g@.classes[e as int].nodes[k as int].children[j2]) by {
                                    assert(cs_before.contains(g@.classes[e as int].nodes[k as int].children[j2]));
                                }
                            } else {
                                assert(cs@[i] == cs_before[i]);
                            }
                        }
                        assert(constants_supported(g@, inputs@, cs@));
                        assert forall|x: int| 0 <= x < n implies (#[trigger] is_const@[x] <==> cs@.contains(x as usize)) by {
                            if x == e {
                                assert(cs@[cs.len() - 1] == e);
                            } else {
                                if cs@.contains(x as usize) {
                                    let i = choose|i: int| 0 <= i < cs.len() && cs@[i] == x as usize;
                                    assert(i < cs_before.len());
                                    assert(cs_before[i] == x);
                                }
                                if cs_before.contains(x as usize) {
                                    let i = choose|i: int| 0 <= i < cs_before.len() && cs_before[i] == x as usize;
                                    assert(cs@[i] == x);
                                }
                            }
                        }
                        assert forall|i: int, i2: int| 0 <= i < cs.len() && 0 <= i2 < cs.len() && i != i2 implies cs@[i] != cs@[i2] by {
                            if i == cs_before.len() || i2 == cs_before.len() {
                                assert(!cs_before.contains(e));
                            }
                        }
                        lemma_distinct_bounded(cs@, n as nat);

                    if g@.parents_complete() {
                        assert forall|x: int| x != e implies (pending_ok(g@, inputs@, cs@, worklist@, head as int, x)
                            || exists|p: int| 0 <= p < g@.classes[e as int].parents.len() && g@.find(g@.classes[e as int].parents[p] as int) == x) by {
                            if g@.is_canonical(x) && !inputs@.contains(x as usize) && !cs@.contains(x as usize)
                                && exists|k2: int| 0 <= k2 < g@.classes[x].nodes.len() && #[trigger] node_ready(g@, cs@, x, k2) {
                                let k2 = choose|k2: int| 0 <= k2 < g@.classes[x].nodes.len() && #[trigger] node_ready(g@, cs@, x, k2);
                                if !(exists|q: int| head <= q < worklist.len() && worklist@[q] == x) {
                                    // before e became constant the node was not ready: its missing child is e
                                    assert(!cs0.contains(x as usize));
                                    assert(pending_ok(g@, inputs@, cs0, wl0, head as int, x));
                                    assert(!(exists|k3: int| 0 <= k3 < g@.classes[x].nodes.len() && #[trigger] node_ready(g@, cs0, x, k3)));
                                    assert(!node_ready(g@, cs0, x, k2));
                                    let j2 = choose|j2: int| 0 <= j2 < g@.classes[x].nodes[k2].children.len()
                                        && !cs0.contains(#[trigger] g@.classes[x].nodes[k2].children[j2]);
                                    assert(cs@.contains(g@.classes[x].nodes[k2].children[j2]));
                                    assert(cs@ == cs0.push(e));
                                    assert(g@.classes[x].nodes[k2].children[j2] == e);
                                    assert(g@.is_canonical(g@.classes[x].nodes[k2].children[j2] as int));
                                }
                            }
                        }
                    }
                
                    }
                }
                let ghost cs_now = cs@;
                let mut p: usize = 0;
                while p < cls.parents.len()
                    invariant
                        g.wf(),
                        n == g@.len(),
                        e < n,
                        g@.is_canonical(e as int),
                        cls@ == g@.classes[e as int],
                        cs@ == cs_now,
                        head <= worklist.len(),
                        p <= cls.parents.len(),
                        forall|q: int| 0 <= q < worklist.len() ==> #[trigger] worklist@[q] < n && g@.is_canonical(worklist@[q] as int),
                        g@.parents_complete() ==> forall|x: int| x != e ==> (pending_ok(g@, inputs@, cs@, worklist@, head as int, x)
                            || exists|p2: int| p <= p2 < cls.parents.len() && g@.find(g@.classes[e as int].parents[p2] as int) == x),
                    decreases cls.parents.len() - p,
                {
                    assert(g@.classes[e as int].parents[p as int] < n);
                    let par = g.find(cls.parents[p]);
                    let ghost wl_prev = worklist@;
                    worklist.push(par);
                    proof {
                        if g@.parents_complete() {
                            assert forall|x: int| x != e implies (pending_ok(g@, inputs@, cs@, worklist@, head as int, x)
                                || exists|p2: int| p + 1 <= p2 < cls.parents.len() && g@.find(g@.classes[e as int].parents[p2] as int) == x) by {
                                if pending_ok(g@, inputs@, cs@, wl_prev, head as int, x) {
                                    if exists|q: int| head <= q < wl_prev.len() && wl_prev[q] == x {
                                        let q = choose|q: int| head <= q < wl_prev.len() && wl_prev[q] == x;
                                        assert(worklist@[q] == x);
                                    }
                                } else {
                                    let p2 = choose|p2: int| p <= p2 < cls.parents.len() && g@.find(g@.classes[e as int].parents[p2] as int) == x;
                                    if p2 == p {
                                        assert(worklist@[wl_prev.len() as int] == x);
                                    }
                                }
                            }
                        }
                    }
                    p = p + 1;
                }
            }
            k = k + 1;
        }
        proof {
            if g@.parents_complete() {
                assert forall|x: int| pending_ok(g@, inputs@, cs@, worklist@, head as int, x) by {
                    if x == e {
                        if !is_const@[e as int] && !is_input {
                            assert(forall|q: int| 0 <= q < g@.classes[e as int].nodes.len() ==> !node_ready(g@, cs@, e as int, q));
                        }
                        if is_const@[e as int] {
                            assert(cs@.contains(e));
                        }
                    }
                }
            }
        }
    }
    proof {
        if g@.parents_complete() {
            assert forall|x: int, k: int|
                #![trigger g@.classes[x].nodes[k]]
                g@.is_canonical(x) && !inputs@.contains(x as usize) && !cs@.contains(x as usize) && 0 <= k
                    < g@.classes[x].nodes.len() implies exists|j: int|
                    0 <= j < g@.classes[x].nodes[k].children.len() && !cs@.contains(
                        #[trigger] g@.classes[x].nodes[k].children[j],
                    ) by {
                assert(pending_ok(g@, inputs@, cs@, worklist@, head as int, x));
                assert(!node_ready(g@, cs@, x, k));
            }
        }
    }
    cs
}


/// Operators that may appear in the printed representative of a constant: the
/// IR operators (`Op*` e-nodes), as opposed to instructions, pattern variables,
/// alpha wrappers and detected constants.
pub open spec fn repr_kind(k: OpKind) -> bool {
    match k {
        OpKind::OpAdd | OpKind::OpBitcvt | OpKind::OpBroadcast | OpKind::OpConcat | OpKind::OpConstant
        | OpKind::OpConvert | OpKind::OpCopy | OpKind::OpDivide | OpKind::OpDot | OpKind::OpExp | OpKind::OpEye
        | OpKind::OpOr | OpKind::OpReduceSum | OpKind::OpReshape | OpKind::OpShiftLeft
        | OpKind::OpShiftRightLogical | OpKind::OpSlice | OpKind::OpXor | OpKind::OpTranspose => true,
        _ => false,
    }
}

/// Printed representative of class `c` built from IR operators only, trying
/// its e-nodes in order; ids marked in `visited` (the classes on the current
/// path) are not entered again.
pub open spec fn class_repr(g: SnapshotView, c: int, visited: Seq<bool>) -> Option<Seq<char>>
    decreases count_false(visited), 0int, 0int,
{
    if !(0 <= c < visited.len() && c < g.len()) || visited[c] {
        None
    } else {
        proof {
            lemma_count_false_set(visited, c);
        }
        nodes_repr(g, c, visited.update(c, true), 0)
    }
}

/// The representative given by the first e-node of class `c`, from the `k`-th
/// on, that has one.
pub open spec fn nodes_repr(g: SnapshotView, c: int, visited: Seq<bool>, k: int) -> Option<Seq<char>>
    decreases count_false(visited), 3int, g.class(c).nodes.len() - k,
{
    if k < 0 || k >= g.class(c).nodes.len() {
        None
    } else {
        match node_repr(g, g.class(c).nodes[k], visited) {
            Some(s) => Some(s),
            None => nodes_repr(g, c, visited, k + 1),
        }
    }
}

/// Representative of one e-node: `op()` for a leaf, `op(r1, r2, ...)` otherwise.
pub open spec fn node_repr(g: SnapshotView, en: OpView, visited: Seq<bool>) -> Option<Seq<char>>
    decreases count_false(visited), 2int, 0int,
{
    if !repr_kind(en.kind) {
        None
    } else if en.children.len() == 0 {
        Some(op_text(en) + "()"@)
    } else {
        match children_repr(g, en, visited, 0) {
            Some(parts) => Some(op_text(en) + "("@ + join_text(parts, ", "@) + ")"@),
            None => None,
        }
    }
}

/// Representatives of the children of `en` from the `i`-th on; `None` as soon
/// as one has none.
pub open spec fn children_repr(g: SnapshotView, en: OpView, visited: Seq<bool>, i: int) -> Option<
    Seq<Seq<char>>,
>
    decreases count_false(visited), 1int, en.children.len() - i,
{
    if i < 0 || i >= en.children.len() {
        Some(Seq::empty())
    } else {
        match class_repr(g, en.children[i] as int, visited) {
            None => None,
            Some(s) => match children_repr(g, en, visited, i + 1) {
                None => None,
                Some(rest) => Some(seq![s] + rest),
            },
        }
    }
}

/// Model of an optional string.
pub open spec fn opt_text(o: Option<String>) -> Option<Seq<char>> {
    match o {
        Some(s) => Some(s@),
        None => None,
    }
}

/// Operator-only representative of the class of `eclass` (see `class_repr`);
/// `visited` is left as it was.
fn op_repr(egraph: &EGraphSnapshot, eclass: usize, visited: &mut Vec<bool>) -> (r: Option<String>)
    requires
        egraph.wf(),
        eclass < egraph@.len(),
        old(visited)@.len() == egraph@.len(),
    ensures
        final(visited)@ == old(visited)@,
        opt_text(r) == class_repr(egraph@, eclass as int, old(visited)@),
    decreases count_false(old(visited)@), 0int,
{
    let ghost v0 = visited@;
    if visited[eclass] {
        return None;
    }
    proof {
        lemma_count_false_set(v0, eclass as int);
    }
    visited.set(eclass, true);
    let ghost v1 = visited@;
    let cls = egraph.class(eclass);
    let mut k: usize = 0;
    while k < cls.nodes.len()
        invariant
            egraph.wf(),
            eclass < egraph@.len(),
            cls@ == egraph@.class(eclass as int),
            v0.len() == egraph@.len(),
            !v0[eclass as int],
            v1 == v0.update(eclass as int, true),
            visited@ == v1,
            count_false(v1) < count_false(v0),
            v0 == old(visited)@,
            k <= cls.nodes.len(),
            class_repr(egraph@, eclass as int, v0) == nodes_repr(egraph@, eclass as int, v1, k as int),
        decreases cls.nodes.len() - k,
    {
        let en = &cls.nodes[k];
        assert(egraph@.class(eclass as int).nodes[k as int] == en@);
        assert(op_in_range(egraph@, en@));
        match op_repr_en(egraph, en, visited) {
            Some(s) => {
                visited.set(eclass, false);
                assert(visited@ =~= v0);
                return Some(s);
            },
            None => {},
        }
        k = k + 1;
    }
    visited.set(eclass, false);
    assert(visited@ =~= v0);
    None
}

/// Operator-only representative of one e-node (see `node_repr`).
fn op_repr_en(egraph: &EGraphSnapshot, en: &TensorOp, visited: &mut Vec<bool>) -> (r: Option<String>)
    requires
        egraph.wf(),
        op_in_range(egraph@, en@),
        old(visited)@.len() == egraph@.len(),
    ensures
        final(visited)@ == old(visited)@,
        opt_text(r) == node_repr(egraph@, en@, old(visited)@),
    decreases count_false(old(visited)@), 1int,
{
    let ghost v0 = visited@;
    let k = en.kind();
    let accepted = match k {
        OpKind::OpAdd | OpKind::OpBitcvt | OpKind::OpBroadcast | OpKind::OpConcat | OpKind::OpConstant
        | OpKind::OpConvert | OpKind::OpCopy | OpKind::OpDivide | OpKind::OpDot | OpKind::OpExp | OpKind::OpEye
        | OpKind::OpOr | OpKind::OpReduceSum | OpKind::OpReshape | OpKind::OpShiftLeft
        | OpKind::OpShiftRightLogical | OpKind::OpSlice | OpKind::OpXor | OpKind::OpTranspose => true,
        _ => false,
    };
    if !accepted {
        return None;
    }
    let label = en.to_text();
    let ch = en.children();
    if ch.len() == 0 {
        let mut s = label;
        s.append("()");
        return Some(s);
    }
    let mut parts: Vec<String> = Vec::new();
    let mut i: usize = 0;
    while i < ch.len()
        invariant
            egraph.wf(),
            op_in_range(egraph@, en@),
            ch@ == en@.children,
            visited@ == v0,
            v0 == old(visited)@,
            v0.len() == egraph@.len(),
            i <= ch.len(),
            children_repr(egraph@, en@, v0, 0) == match children_repr(egraph@, en@, v0, i as int) {
                Some(rest) => Some(parts@.map_values(|p: String| p@) + rest),
                None => None::<Seq<Seq<char>>>,
            },
        decreases ch.len() - i,
    {
        assert(ch@[i as int] < egraph@.len());
        match op_repr(egraph, ch[i], visited) {
            Some(s) => {
                let ghost pv = parts@.map_values(|p: String| p@);
                let ghost sv = s@;
                parts.push(s);
                assert(parts@.map_values(|p: String| p@) == pv.push(sv));
                proof {
                    match children_repr(egraph@, en@, v0, i + 1) {
                        Some(rest) => {
                            assert(pv + (seq![sv] + rest) == pv.push(sv) + rest);
                        },
                        None => {},
                    }
                }
            },
            None => {
                return None;
            },
        }
        i = i + 1;
    }
    assert(children_repr(egraph@, en@, v0, i as int) == Some(Seq::<Seq<char>>::empty()));
    assert(parts@.map_values(|p: String| p@) + Seq::<Seq<char>>::empty() == parts@.map_values(|p: String| p@));
    let joined = join_strings(&parts, ", ");
    let mut s = label;
    s.append("(");
    s.append(joined.as_str());
    s.append(")");
    Some(s)
}

/// Operator-only printed representative of each of the given classes, in
/// order (`None` for a class that has none); this is the text a detected
/// constant is annotated with.
pub fn constant_reprs(egraph: &EGraphSnapshot, constants: &Vec<usize>) -> (r: Vec<Option<String>>)
    requires
        egraph.wf(),
        forall|i: int| 0 <= i < constants.len() ==> constants@[i] < egraph@.len(),
    ensures
        r.len() == constants.len(),
        forall|i: int|
            0 <= i < constants.len() ==> opt_text(#[trigger] r@[i]) == class_repr(
                egraph@,
                constants@[i] as int,
                Seq::new(egraph@.len(), |j: int| false),
            ),
{
    let n = egraph.len();
    let mut visited: Vec<bool> = Vec::new();
    while visited.len() < n
        invariant
            visited.len() <= n,
            forall|j: int| 0 <= j < visited.len() ==> !visited@[j],
        decreases n - visited.len(),
    {
        visited.push(false);
    }
    assert(visited@ =~= Seq::new(egraph@.len(), |j: int| false));
    let mut r: Vec<Option<String>> = Vec::new();
    let mut i: usize = 0;
    while i < constants.len()
        invariant
            egraph.wf(),
            n == egraph@.len(),
            visited@ == Seq::new(egraph@.len(), |j: int| false),
            forall|q: int| 0 <= q < constants.len() ==> constants@[q] < egraph@.len(),
            i <= constants.len(),
            r.len() == i,
            forall|q: int|
                0 <= q < i ==> opt_text(#[trigger] r@[q]) == class_repr(
                    egraph@,
                    constants@[q] as int,
                    Seq::new(egraph@.len(), |j: int| false),
                ),
        decreases constants.len() - i,
    {
        let s = op_repr(egraph, constants[i], &mut visited);
        r.push(s);
        i = i + 1;
    }
    r
}


/// Conversion state after some nodes of an extracted expression: the e-class
/// of each node, and the PII graph built so far (one node per expression node).
pub type RecState = (Seq<usize>, Seq<PiiNodeView>);

/// Converts one more expression node `en`: its children (indices of earlier
/// nodes) are mapped to their e-classes, the class holding the mapped e-node is
/// looked up, and a PII node is appended with that class's metadata and HBM
/// offset. `None` when a child is not an earlier node, no class holds the
/// e-node, or the PII graph refuses the node.
pub open spec fn rec_step(
    g: SnapshotView,
    offs: Seq<(Option<usize>, i32)>,
    st: RecState,
    en: OpView,
) -> Option<RecState> {
    let cl = st.0;
    let pg = st.1;
    if !(forall|j: int| 0 <= j < en.children.len() ==> #[trigger] en.children[j] < cl.len()) {
        None
    } else {
        let mapped = OpView { children: en.children.map_values(|c: usize| cl[c as int]), ..en };
        match lookup(g, mapped) {
            None => None,
            Some(c) => if can_add(pg, mapped, en.children) {
                Some(
                    (
                        cl.push(c as usize),
                        pg.push(
                            PiiNodeView {
                                id: pg.len() as usize,
                                op: mapped,
                                info: g.class(c).data,
                                buffer: placed_buffer(pg, mapped, en.children),
                                hbm_offset: hbm_offset_of(g, offs, c),
                                children: en.children,
                            },
                        ),
                    ),
                )
            } else {
                None
            },
        }
    }
}

/// Conversion state after the first `n` nodes of `expr`.
pub open spec fn rec_pii(
    g: SnapshotView,
    offs: Seq<(Option<usize>, i32)>,
    expr: Seq<OpView>,
    n: int,
) -> Option<RecState>
    decreases n,
{
    if n <= 0 {
        Some((Seq::empty(), Seq::empty()))
    } else {
        match rec_pii(g, offs, expr, n - 1) {
            None => None,
            Some(st) => rec_step(g, offs, st, expr[n - 1]),
        }
    }
}

proof fn lemma_rec_pii_fails_after(
    g: SnapshotView,
    offs: Seq<(Option<usize>, i32)>,
    expr: Seq<OpView>,
    m: int,
    n: int,
)
    requires
        0 <= m <= n,
        rec_pii(g, offs, expr, m) is None,
    ensures
        rec_pii(g, offs, expr, n) is None,
    decreases n - m,
{
    if m < n {
        lemma_rec_pii_fails_after(g, offs, expr, m, n - 1);
    }
}

/// Converts an extracted expression (nodes in topological order, children
/// given as indices of earlier nodes) into a PII graph, one node per
/// expression node (see `rec_pii`); `None` where the conversion fails.
pub fn recexpr_to_pii(
    egraph: &EGraphSnapshot,
    expr: &Vec<TensorOp>,
    hbm_offsets: &Vec<(Option<usize>, i32)>,
) -> (r: Option<PiiGraph>)
    requires
        egraph.wf(),
        offsets_in_range(egraph@, hbm_offsets@),
    ensures
        match rec_pii(egraph@, hbm_offsets@, expr@.map_values(|e: TensorOp| e@), expr.len() as int) {
            None => r is None,
            Some(st) => r matches Some(p) && p@ == st.1,
        },
{
    let ghost ev = expr@.map_values(|e: TensorOp| e@);
    let mut pii = PiiGraph { nodes: Vec::new() };
    let mut classes: Vec<usize> = Vec::new();
    let mut idx: usize = 0;
    while idx < expr.len()
        invariant
            egraph.wf(),
            offsets_in_range(egraph@, hbm_offsets@),
            ev == expr@.map_values(|e: TensorOp| e@),
            idx <= expr.len(),
            classes.len() == idx,
            pii@.len() == idx,
            rec_pii(egraph@, hbm_offsets@, ev, idx as int) == Some((classes@, pii@)),
            forall|q: int| 0 <= q < idx ==> classes@[q] < egraph@.len(),
        decreases expr.len() - idx,
    {
        let en = &expr[idx];
        assert(ev[idx as int] == en@);
        let ch = en.children();
        let mut mapped_ch: Vec<usize> = Vec::new();
        let mut j: usize = 0;
        while j < ch.len()
            invariant
                ch@ == en@.children,
                idx < expr.len(),
                ev == expr@.map_values(|e: TensorOp| e@),
                ev[idx as int] == en@,
                rec_pii(egraph@, hbm_offsets@, ev, idx as int) == Some((classes@, pii@)),
                classes.len() == idx,
                j <= ch.len(),
                forall|q: int| 0 <= q < j ==> #[trigger] ch@[q] < idx,
                mapped_ch@ == ch@.take(j as int).map_values(|c: usize| classes@[c as int]),
            decreases ch.len() - j,
        {
            if ch[j] >= idx {
                proof {
                    assert(rec_step(egraph@, hbm_offsets@, (classes@, pii@), en@) is None);
                    lemma_rec_pii_fails_after(egraph@, hbm_offsets@, ev, idx + 1, expr.len() as int);
                }
                return None;
            }
            mapped_ch.push(classes[ch[j]]);
            assert(ch@.take(j + 1) == ch@.take(j as int).push(ch@[j as int]));
            j = j + 1;
        }
        assert(ch@.take(ch.len() as int) == ch@);
        let mapped = en.with_children(&mapped_ch);
        let ghost mv = OpView { children: en@.children.map_values(|c: usize| classes@[c as int]), ..en@ };
        assert(mapped@ == mv);
        match egraph.lookup(&mapped) {
            None => {
                proof {
                    lemma_rec_pii_fails_after(egraph@, hbm_offsets@, ev, idx + 1, expr.len() as int);
                }
                return None;
            },
            Some(c) => {
                let data = egraph.class(c).data.clone();
                let off = get_hbm_offset(egraph, hbm_offsets, c);
                let ghost pg = pii@;
                match pii.try_add_node(mapped, data, ch, off) {
                    None => {
                        proof {
                            lemma_rec_pii_fails_after(egraph@, hbm_offsets@, ev, idx + 1, expr.len() as int);
                        }
                        return None;
                    },
                    Some(_) => {
                        classes.push(c);
                        assert(rec_pii(egraph@, hbm_offsets@, ev, idx + 1) == Some((classes@, pii@)));
                    },
                }
            },
        }
        idx = idx + 1;
    }
    Some(pii)
}


/// Converting an extracted expression gives a well-formed PII graph (nodes
/// numbered in order, operands before users, concrete buffers) with one node
/// per expression node.
pub proof fn lemma_rec_pii_wf(
    g: SnapshotView,
    offs: Seq<(Option<usize>, i32)>,
    expr: Seq<OpView>,
    n: int,
)
    requires
        0 <= n <= expr.len(),
        expr.len() <= usize::MAX,
    ensures
        rec_pii(g, offs, expr, n) matches Some(st) ==> pii_wf(st.1) && st.1.len() == n && st.0.len() == n,
    decreases n,
{
    if n > 0 {
        lemma_rec_pii_wf(g, offs, expr, n - 1);
        match rec_pii(g, offs, expr, n - 1) {
            None => {},
            Some(st) => {
                let en = expr[n - 1];
                let cl = st.0;
                if forall|j: int| 0 <= j < en.children.len() ==> #[trigger] en.children[j] < cl.len() {
                    let mapped = OpView { children: en.children.map_values(|c: usize| cl[c as int]), ..en };
                    match lookup(g, mapped) {
                        None => {},
                        Some(c) => {
                            if can_add(st.1, mapped, en.children) {
                                lemma_add_node_keeps_wf(
                                    st.1,
                                    mapped,
                                    g.class(c).data,
                                    en.children,
                                    hbm_offset_of(g, offs, c),
                                );
                            }
                        },
                    }
                }
            },
        }
    }
}


/// IR operators: every operator but the accelerator's instructions, the alpha
/// wrapper of a kernel output, detected constants and pattern variables.
pub open spec fn is_ir_operator(k: OpKind) -> bool {
    !(k == OpKind::LoadRm || k == OpKind::LoadCm || k == OpKind::StoreRm || k == OpKind::StoreCm || k == OpKind::Mov
        || k == OpKind::Gemm || k == OpKind::Softmax || k == OpKind::AlphaHBM || k == OpKind::DetectedConst || k
        == OpKind::Var)
}

proof fn lemma_children_repr_some(g: SnapshotView, en: OpView, visited: Seq<bool>, i: int)
    requires
        0 <= i,
        forall|j: int| i <= j < en.children.len() ==> (#[trigger] class_repr(g, en.children[j] as int, visited)) is Some,
    ensures
        children_repr(g, en, visited, i) is Some,
    decreases en.children.len() - i,
{
    if i < en.children.len() {
        lemma_children_repr_some(g, en, visited, i + 1);
        assert(class_repr(g, en.children[i] as int, visited) is Some);
    }
}

proof fn lemma_nodes_repr_some(g: SnapshotView, c: int, visited: Seq<bool>, j: int, k: int)
    requires
        0 <= j <= k < g.class(c).nodes.len(),
        node_repr(g, g.class(c).nodes[k], visited) is Some,
    ensures
        nodes_repr(g, c, visited, j) is Some,
    decreases k - j,
{
    if j < k && node_repr(g, g.class(c).nodes[j], visited) is None {
        lemma_nodes_repr_some(g, c, visited, j + 1, k);
    }
}

/// Every IR operator whose child classes all have representatives gives its
/// class a representative: a class, entered for the first time, that holds
/// such an e-node gets one (its first e-node that has one gives it).
pub proof fn lemma_ir_operator_gives_repr(g: SnapshotView, c: int, visited: Seq<bool>, k: int)
    requires
        0 <= c < visited.len(),
        c < g.len(),
        !visited[c],
        0 <= k < g.class(c).nodes.len(),
        is_ir_operator(g.class(c).nodes[k].kind),
        forall|i: int|
            0 <= i < g.class(c).nodes[k].children.len() ==> (#[trigger] class_repr(
                g,
                g.class(c).nodes[k].children[i] as int,
                visited.update(c, true),
            )) is Some,
    ensures
        class_repr(g, c, visited) is Some,
{
    let en = g.class(c).nodes[k];
    let v2 = visited.update(c, true);
    lemma_children_repr_some(g, en, v2, 0);
    assert(node_repr(g, en, v2) is Some);
    lemma_nodes_repr_some(g, c, v2, 0, k);
}

/// Only IR operators have representatives: instructions, alpha wrappers,
/// detected constants and pattern variables never do.
pub proof fn lemma_only_ir_operators_repr(g: SnapshotView, en: OpView, visited: Seq<bool>)
    requires
        !is_ir_operator(en.kind),
    ensures
        node_repr(g, en, visited) is None,
{
}

} // verus!
