use vstd::prelude::*;

use crate::ir::egraph::{InfoView, OpView, TensorInfo, TensorOp};

verus! {

/// One equivalence class of an e-graph: its canonical id, its e-nodes, its
/// metadata and the (possibly non-canonical) ids of the classes of e-nodes that
/// use it as a child.
#[derive(Debug)]
pub struct EClass {
    pub id: usize,
    pub nodes: Vec<TensorOp>,
    pub data: TensorInfo,
    pub parents: Vec<usize>,
}

/// Model of an e-class.
pub struct EClassView {
    pub id: usize,
    pub nodes: Seq<OpView>,
    pub data: InfoView,
    pub parents: Seq<usize>,
}

impl View for EClass {
    type V = EClassView;

    open spec fn view(&self) -> EClassView {
        EClassView {
            id: self.id,
            nodes: self.nodes@.map_values(|n: TensorOp| n@),
            data: self.data@,
            parents: self.parents@,
        }
    }
}

/// A read-only copy of an e-graph, indexed by e-class id: `leaders[i]` is the
/// canonical id of id `i` (the result of `find`), and `classes[c]` is the class
/// whose canonical id is `c` (entries at non-canonical ids are not used).
#[derive(Debug)]
pub struct EGraphSnapshot {
    pub leaders: Vec<usize>,
    pub classes: Vec<EClass>,
}

/// Model of an e-graph snapshot.
pub struct SnapshotView {
    pub leaders: Seq<usize>,
    pub classes: Seq<EClassView>,
}

impl View for EGraphSnapshot {
    type V = SnapshotView;

    open spec fn view(&self) -> SnapshotView {
        SnapshotView {
            leaders: self.leaders@,
            classes: self.classes@.map_values(|c: EClass| c@),
        }
    }
}

impl SnapshotView {
    /// Number of e-class ids.
    pub open spec fn len(self) -> nat {
        self.leaders.len()
    }

    /// Canonical id of `i`.
    pub open spec fn find(self, i: int) -> int {
        self.leaders[i] as int
    }

    pub open spec fn is_canonical(self, i: int) -> bool {
        0 <= i < self.len() && self.find(i) == i
    }

    /// The class that id `i` belongs to.
    pub open spec fn class(self, i: int) -> EClassView {
        self.classes[self.find(i)]
    }

    /// Ids are in range, `find` is idempotent, canonical classes carry their own
    /// id, and every child and parent id is in range.
    pub open spec fn wf(self) -> bool {
        &&& self.classes.len() == self.leaders.len()
        &&& forall|i: int|
            0 <= i < self.len() ==> {
                &&& #[trigger] self.leaders[i] < self.len()
                &&& self.leaders[self.leaders[i] as int] == self.leaders[i]
            }
        &&& forall|c: int|
            #![trigger self.classes[c]]
            self.is_canonical(c) ==> {
                &&& self.classes[c].id == c
                &&& forall|k: int, j: int|
                    0 <= k < self.classes[c].nodes.len() && 0 <= j
                        < self.classes[c].nodes[k].children.len() ==> #[trigger] self.classes[c].nodes[k].children[j]
                        < self.len()
                &&& forall|p: int|
                    0 <= p < self.classes[c].parents.len() ==> #[trigger] self.classes[c].parents[p]
                        < self.len()
            }
    }

    /// Every e-node that uses a canonical class `x` as a child is recorded among
    /// the parents of `x` (as an id whose canonical form is the node's class).
    pub open spec fn parents_complete(self) -> bool {
        forall|c: int, k: int, j: int|
            #![trigger self.classes[c].nodes[k].children[j]]
            self.is_canonical(c) && 0 <= k < self.classes[c].nodes.len() && 0 <= j
                < self.classes[c].nodes[k].children.len() && self.is_canonical(
                self.classes[c].nodes[k].children[j] as int,
            ) ==> exists|p: int|
                0 <= p < self.classes[self.classes[c].nodes[k].children[j] as int].parents.len()
                    && self.find(
                    #[trigger] self.classes[self.classes[c].nodes[k].children[j] as int].parents[p] as int,
                ) == c
    }
}

/// `op` with its children replaced by their canonical ids.
pub open spec fn canonical_op(g: SnapshotView, op: OpView) -> OpView {
    OpView { children: op.children.map_values(|c: usize| g.find(c as int) as usize), ..op }
}

/// All children of `op` are ids of the graph.
pub open spec fn op_in_range(g: SnapshotView, op: OpView) -> bool {
    forall|j: int| 0 <= j < op.children.len() ==> #[trigger] op.children[j] < g.len()
}

/// Class `c` is canonical and holds an e-node equal to `op` up to canonical children.
pub open spec fn class_holds(g: SnapshotView, c: int, op: OpView) -> bool {
    g.is_canonical(c) && exists|k: int|
        0 <= k < g.classes[c].nodes.len() && canonical_op(g, #[trigger] g.classes[c].nodes[k])
            == canonical_op(g, op)
}

/// The first class at or after `c` holding `op`.
pub open spec fn lookup_from(g: SnapshotView, op: OpView, c: int) -> Option<int>
    decreases g.len() - c,
{
    if c < 0 || c >= g.len() {
        None
    } else if class_holds(g, c, op) {
        Some(c)
    } else {
        lookup_from(g, op, c + 1)
    }
}

pub proof fn lemma_lookup_from_canonical(g: SnapshotView, op: OpView, c: int)
    ensures
        lookup_from(g, op, c) matches Some(x) ==> g.is_canonical(x),
    decreases g.len() - c,
{
    if !(c < 0 || c >= g.len()) && !class_holds(g, c, op) {
        lemma_lookup_from_canonical(g, op, c + 1);
    }
}

/// The class of the e-node `op` (children compared by canonical id); `None`
/// when no class holds it or a child is not an id of the graph.
pub open spec fn lookup(g: SnapshotView, op: OpView) -> Option<int> {
    if op_in_range(g, op) {
        lookup_from(g, op, 0)
    } else {
        None
    }
}

impl EGraphSnapshot {
    /// `op` with canonical children.
    pub fn canonicalize(&self, op: &TensorOp) -> (r: TensorOp)
        requires
            self.wf(),
            op_in_range(self@, op@),
        ensures
            r@ == canonical_op(self@, op@),
    {
        let ch = op.children();
        let mut mapped: Vec<usize> = Vec::new();
        let mut j: usize = 0;
        while j < ch.len()
            invariant
                self.wf(),
                ch@ == op@.children,
                op_in_range(self@, op@),
                j <= ch.len(),
                mapped@ == op@.children.map_values(|c: usize| self@.find(c as int) as usize).take(j as int),
            decreases ch.len() - j,
        {
            let f = self.find(ch[j]);
            mapped.push(f);
            assert(op@.children.map_values(|c: usize| self@.find(c as int) as usize).take(j + 1)
                == op@.children.map_values(|c: usize| self@.find(c as int) as usize).take(j as int).push(f));
            j = j + 1;
        }
        assert(op@.children.map_values(|c: usize| self@.find(c as int) as usize).take(ch.len() as int)
            == op@.children.map_values(|c: usize| self@.find(c as int) as usize));
        let r = op.with_children(&mapped);
        assert(r@ == canonical_op(self@, op@));
        r
    }

    /// The class holding the e-node `op` (see `lookup`).
    pub fn lookup(&self, op: &TensorOp) -> (r: Option<usize>)
        requires
            self.wf(),
        ensures
            r matches Some(c) ==> lookup(self@, op@) == Some(c as int) && self@.is_canonical(c as int),
            r is None ==> lookup(self@, op@) is None,
    {
        proof {
            lemma_lookup_from_canonical(self@, op@, 0);
        }
        let ch = op.children();
        let n = self.len();
        let mut j: usize = 0;
        while j < ch.len()
            invariant
                ch@ == op@.children,
                n == self@.len(),
                j <= ch.len(),
                forall|q: int| 0 <= q < j ==> op@.children[q] < self@.len(),
            decreases ch.len() - j,
        {
            if ch[j] >= n {
                return None;
            }
            j = j + 1;
        }
        let target = self.canonicalize(op);
        let mut c: usize = 0;
        while c < n
            invariant
                self.wf(),
                n == self@.len(),
                op_in_range(self@, op@),
                target@ == canonical_op(self@, op@),
                c <= n,
                lookup_from(self@, op@, 0) == lookup_from(self@, op@, c as int),
            decreases n - c,
        {
            if self.leaders[c] == c {
                let cls = &self.classes[c];
                assert(cls@ == self@.classes[c as int]);
                let mut k: usize = 0;
                while k < cls.nodes.len()
                    invariant
                        self.wf(),
                        c < n,
                        n == self@.len(),
                        self@.is_canonical(c as int),
                        op_in_range(self@, op@),
                        lookup_from(self@, op@, 0) == lookup_from(self@, op@, c as int),
                        cls@ == self@.classes[c as int],
                        target@ == canonical_op(self@, op@),
                        k <= cls.nodes.len(),
                        forall|q: int| 0 <= q < k ==> canonical_op(self@, #[trigger] self@.classes[c as int].nodes[q])
                            != canonical_op(self@, op@),
                    decreases cls.nodes.len() - k,
                {
                    let node = &cls.nodes[k];
                    assert(self@.classes[c as int].nodes[k as int] == node@);
                    assert(op_in_range(self@, node@));
                    let cn = self.canonicalize(node);
                    if cn.same(&target) {
                        assert(class_holds(self@, c as int, op@));
                        return Some(c);
                    }
                    k = k + 1;
                }
                assert(!class_holds(self@, c as int, op@));
            }
            c = c + 1;
        }
        None
    }
}

/// Id `i` has an id of the graph as leader, and that leader leads itself.
pub open spec fn leader_ok(g: SnapshotView, i: int) -> bool {
    &&& g.leaders[i] < g.len()
    &&& g.leaders[g.leaders[i] as int] == g.leaders[i]
}

/// Class `c`, if canonical, carries its own id and refers only to ids of the graph.
pub open spec fn class_ok(g: SnapshotView, c: int) -> bool {
    g.is_canonical(c) ==> {
        &&& g.classes[c].id == c
        &&& forall|k: int, j: int|
            0 <= k < g.classes[c].nodes.len() && 0 <= j < g.classes[c].nodes[k].children.len()
                ==> #[trigger] g.classes[c].nodes[k].children[j] < g.len()
        &&& forall|p: int| 0 <= p < g.classes[c].parents.len() ==> #[trigger] g.classes[c].parents[p] < g.len()
    }
}

impl EGraphSnapshot {
    pub open spec fn wf(&self) -> bool {
        self@.wf()
    }

    /// Whether the snapshot is well formed (see `SnapshotView::wf`).
    pub fn check_wf(&self) -> (r: bool)
        ensures
            r == self.wf(),
    {
        let n = self.leaders.len();
        if self.classes.len() != n {
            return false;
        }
        let mut i: usize = 0;
        while i < n
            invariant
                n == self@.len(),
                self.classes.len() == n,
                i <= n,
                forall|q: int| 0 <= q < i ==> leader_ok(self@, q),
            decreases n - i,
        {
            let l = self.leaders[i];
            if l >= n || self.leaders[l] != l {
                assert(!leader_ok(self@, i as int));
                assert(!self@.wf()) by {
                    assert(!(self@.leaders[i as int] < self@.len() && self@.leaders[self@.leaders[i as int] as int]
                        == self@.leaders[i as int]));
                }
                return false;
            }
            i = i + 1;
        }
        let mut c: usize = 0;
        while c < n
            invariant
                n == self@.len(),
                self.classes.len() == n,
                forall|q: int| 0 <= q < n ==> leader_ok(self@, q),
                c <= n,
                forall|q: int| 0 <= q < c ==> class_ok(self@, q),
            decreases n - c,
        {
            if self.leaders[c] == c {
                let cls = &self.classes[c];
                assert(cls@ == self@.classes[c as int]);
                if cls.id != c {
                    assert(!class_ok(self@, c as int));
                    assert(!self@.wf()) by {
                        assert(self@.is_canonical(c as int));
                        assert(self@.classes[c as int].id != c);
                    }
                    return false;
                }
                let mut k: usize = 0;
                while k < cls.nodes.len()
                    invariant
                        n == self@.len(),
                        self.classes.len() == n,
                        c < n,
                        self@.is_canonical(c as int),
                        cls@ == self@.classes[c as int],
                        k <= cls.nodes.len(),
                        forall|k2: int, j: int|
                            0 <= k2 < k && 0 <= j < self@.classes[c as int].nodes[k2].children.len()
                                ==> #[trigger] self@.classes[c as int].nodes[k2].children[j] < n,
                    decreases cls.nodes.len() - k,
                {
                    let ch = cls.nodes[k].children();
                    assert(ch@ == self@.classes[c as int].nodes[k as int].children);
                    let mut j: usize = 0;
                    while j < ch.len()
                        invariant
                            n == self@.len(),
                            self.classes.len() == n,
                            c < n,
                            self@.is_canonical(c as int),
                            k < self@.classes[c as int].nodes.len(),
                            ch@ == self@.classes[c as int].nodes[k as int].children,
                            j <= ch.len(),
                            forall|j2: int| 0 <= j2 < j ==> #[trigger] ch@[j2] < n,
                        decreases ch.len() - j,
                    {
                        if ch[j] >= n {
                            assert(!self@.wf()) by {
                                assert(self@.is_canonical(c as int));
                                assert(!(self@.classes[c as int].nodes[k as int].children[j as int] < self@.len()));
                            }
                            return false;
                        }
                        j = j + 1;
                    }
                    assert forall|k2: int, j2: int|
                        0 <= k2 < k + 1 && 0 <= j2 < self@.classes[c as int].nodes[k2].children.len()
                            implies #[trigger] self@.classes[c as int].nodes[k2].children[j2] < n by {
                        if k2 == k {
                            assert(ch@[j2] < n);
                        }
                    }
                    k = k + 1;
                }
                let mut p: usize = 0;
                while p < cls.parents.len()
                    invariant
                        n == self@.len(),
                        c < n,
                        self@.is_canonical(c as int),
                        cls@ == self@.classes[c as int],
                        p <= cls.parents.len(),
                        forall|p2: int| 0 <= p2 < p ==> #[trigger] self@.classes[c as int].parents[p2] < n,
                    decreases cls.parents.len() - p,
                {
                    if cls.parents[p] >= n {
                        assert(!self@.wf()) by {
                            assert(self@.is_canonical(c as int));
                            assert(!(self@.classes[c as int].parents[p as int] < self@.len()));
                        }
                        return false;
                    }
                    p = p + 1;
                }
                assert(class_ok(self@, c as int));
            }
            assert(class_ok(self@, c as int));
            c = c + 1;
        }
        assert(self@.wf()) by {
            assert forall|i: int| 0 <= i < self@.len() implies {
                &&& #[trigger] self@.leaders[i] < self@.len()
                &&& self@.leaders[self@.leaders[i] as int] == self@.leaders[i]
            } by {
                assert(leader_ok(self@, i));
            }
            assert forall|c2: int| #![trigger self@.classes[c2]] self@.is_canonical(c2) implies {
                &&& self@.classes[c2].id == c2
                &&& forall|k: int, j: int|
                    0 <= k < self@.classes[c2].nodes.len() && 0 <= j < self@.classes[c2].nodes[k].children.len()
                        ==> #[trigger] self@.classes[c2].nodes[k].children[j] < self@.len()
                &&& forall|p: int|
                    0 <= p < self@.classes[c2].parents.len() ==> #[trigger] self@.classes[c2].parents[p] < self@.len()
            } by {
                assert(class_ok(self@, c2));
            }
        }
        true
    }

    /// Canonical id of `id`.
    pub fn find(&self, id: usize) -> (r: usize)
        requires
            self.wf(),
            id < self@.len(),
        ensures
            r == self@.find(id as int),
            self@.is_canonical(r as int),
    {
        self.leaders[id]
    }

    /// The class that `id` belongs to.
    pub fn class(&self, id: usize) -> (r: &EClass)
        requires
            self.wf(),
            id < self@.len(),
        ensures
            r@ == self@.class(id as int),
            r.id == self@.find(id as int),
    {
        let c = self.leaders[id];
        &self.classes[c]
    }

    /// Number of e-class ids.
    pub fn len(&self) -> (r: usize)
        ensures
            r == self@.len(),
    {
        self.leaders.len()
    }
}

} // verus!
