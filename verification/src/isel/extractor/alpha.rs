use vstd::prelude::*;

use crate::ir::egraph::{OpKind, TensorOp};
use crate::ir::snapshot::{EGraphSnapshot, SnapshotView};

verus! {

/// Canonical ids of the children of the `AlphaHBM` e-nodes of class `c`, from
/// its `k`-th e-node on, in order.
pub open spec fn alpha_children_from(g: SnapshotView, c: int, k: int) -> Seq<usize>
    decreases g.class(c).nodes.len() - k,
{
    if k < 0 || k >= g.class(c).nodes.len() {
        Seq::empty()
    } else {
        let en = g.class(c).nodes[k];
        let rest = alpha_children_from(g, c, k + 1);
        if en.kind == OpKind::AlphaHBM {
            seq![g.find(en.children[0] as int) as usize] + rest
        } else {
            rest
        }
    }
}

/// Canonical ids of the children of the `AlphaHBM` e-nodes of class `c`.
pub open spec fn alpha_children(g: SnapshotView, c: int) -> Seq<usize> {
    alpha_children_from(g, c, 0)
}

/// The class that alpha extraction starts from: the child of the single
/// `AlphaHBM` e-node of the root's class. `Ok(None)` when the root has no
/// such e-node (nothing is extracted); `Err(n)` with their number `n` when it
/// has several, which alpha injectivity rules out.
pub fn alpha_root(egraph: &EGraphSnapshot, root: usize) -> (r: Result<Option<usize>, usize>)
    requires
        egraph.wf(),
        root < egraph@.len(),
    ensures
        ({
            let a = alpha_children(egraph@, root as int);
            &&& a.len() == 0 ==> r == Ok::<Option<usize>, usize>(None)
            &&& a.len() == 1 ==> r == Ok::<Option<usize>, usize>(Some(a[0]))
            &&& a.len() > 1 ==> r == Err::<Option<usize>, usize>(a.len() as usize)
        }),
{
    let g = egraph;
    let cls = g.class(root);
    let ghost c = g@.find(root as int);
    let mut found: Vec<usize> = Vec::new();
    let mut k: usize = cls.nodes.len();
    while k > 0
        invariant
            g.wf(),
            root < g@.len(),
            cls@ == g@.class(root as int),
            k <= cls.nodes.len(),
            found@ == alpha_children_from(g@, root as int, k as int).reverse(),
        decreases k,
    {
        k = k - 1;
        let en = &cls.nodes[k];
        assert(g@.class(root as int).nodes[k as int] == en@);
        match en {
            TensorOp::AlphaHBM(child) => {
                assert(en@.children[0] == *child);
                assert(*child < g@.len());
                let f = g.find(*child);
                found.push(f);
                assert(found@ == alpha_children_from(g@, root as int, k as int).reverse()) by {
                    let rest = alpha_children_from(g@, root as int, k + 1);
                    assert((seq![f] + rest).reverse() =~= rest.reverse().push(f));
                }
            },
            _ => {
                assert(found@ == alpha_children_from(g@, root as int, k as int).reverse());
            },
        }
    }
    let ghost a = alpha_children(g@, root as int);
    assert(found@ == a.reverse());
    if found.len() > 1 {
        return Err(found.len());
    }
    if found.len() == 0 {
        assert(a.len() == 0);
        return Ok(None);
    }
    assert(a.len() == 1);
    assert(a[0] == a.reverse()[0]);
    Ok(Some(found[0]))
}

/// Sum of a sequence of costs.
pub open spec fn cost_sum(s: Seq<usize>) -> int
    decreases s.len(),
{
    if s.len() == 0 {
        0
    } else {
        cost_sum(s.drop_last()) + s.last()
    }
}

/// Cost of an e-node when every e-node costs one: one plus the costs of its
/// children; `None` when that does not fit in a `usize`.
pub fn unit_cost(child_costs: &Vec<usize>) -> (r: Option<usize>)
    ensures
        r matches Some(c) ==> c == 1 + cost_sum(child_costs@),
        r is None <==> 1 + cost_sum(child_costs@) > usize::MAX,
{
    let mut total: usize = 1;
    let mut i: usize = 0;
    while i < child_costs.len()
        invariant
            i <= child_costs.len(),
            total == 1 + cost_sum(child_costs@.take(i as int)),
        decreases child_costs.len() - i,
    {
        assert(child_costs@.take(i + 1).drop_last() == child_costs@.take(i as int));
        match total.checked_add(child_costs[i]) {
            Some(t) => {
                total = t;
            },
            None => {
                proof {
                    lemma_cost_sum_prefix(child_costs@, i + 1);
                }
                return None;
            },
        }
        i = i + 1;
    }
    assert(child_costs@.take(i as int) == child_costs@);
    Some(total)
}

/// A prefix of a sequence of costs sums to no more than the whole.
proof fn lemma_cost_sum_prefix(s: Seq<usize>, n: int)
    requires
        0 <= n <= s.len(),
    ensures
        cost_sum(s.take(n)) <= cost_sum(s),
    decreases s.len() - n,
{
    if n < s.len() {
        lemma_cost_sum_prefix(s, n + 1);
        assert(s.take(n + 1).drop_last() == s.take(n));
    } else {
        assert(s.take(n) == s);
    }
}

} // verus!
