use vstd::prelude::*;

use crate::cost::json::{parse_json, parsed_json, JsonItem};
use crate::ir::egraph::{op_text, OpKind, OpView, TensorOp};
use crate::ir::pii::{can_add, lemma_add_node_keeps_wf, pii_wf, placed_buffer, PiiGraph, PiiNodeView};
use crate::ir::snapshot::{EGraphSnapshot, SnapshotView};
use crate::isel::extractor::fast::{count_false, lemma_count_false_set};
use crate::isel::extractor::utils::{get_hbm_offset, hbm_offset_of, offsets_in_range};
use crate::text::{
    all_digits, last_index, lemma_digits_lack, lemma_last_index_join, lemma_nat_text_digits,
    lemma_nat_text_parses, nat_text, nat_to_string, parse_usize, split_at_last, str_eq, unsigned_value,
};

verus! {

/// Cost of an e-node for the SmoothE extractor: loads and stores 10, moves 5,
/// matrix multiplications 100, softmax 50, anything else 1.
pub open spec fn instruction_cost(k: OpKind) -> nat {
    match k {
        OpKind::LoadRm | OpKind::LoadCm | OpKind::StoreRm | OpKind::StoreCm => 10,
        OpKind::Mov => 5,
        OpKind::Gemm => 100,
        OpKind::Softmax => 50,
        _ => 1,
    }
}

/// Cost of an e-node for the SmoothE extractor (see `instruction_cost`).
pub fn get_instruction_cost(node: &TensorOp) -> (r: u32)
    ensures
        r == instruction_cost(node@.kind),
{
    match node {
        TensorOp::LoadRm(..) => 10,
        TensorOp::LoadCm(..) => 10,
        TensorOp::StoreRm(..) => 10,
        TensorOp::StoreCm(..) => 10,
        TensorOp::Mov(..) => 5,
        TensorOp::Gemm(..) => 100,
        TensorOp::Softmax(..) => 50,
        _ => 1,
    }
}

/// The e-node a SmoothE node id `<eclass>.<index>` names: the canonical class
/// of `<eclass>` and the index of one of its e-nodes. `None` when the id does
/// not have that form, a part is not a number, the class is not an id of the
/// graph, or the class has no e-node at that index.
pub open spec fn selected_node(g: SnapshotView, s: Seq<char>) -> Option<(usize, usize)> {
    let k = last_index(s, '.');
    if k < 0 {
        None
    } else {
        match (unsigned_value(s.subrange(0, k)), unsigned_value(s.subrange(k + 1, s.len() as int))) {
            (Some(c), Some(i)) => if c < g.len() && i < g.class(c as int).nodes.len() {
                Some((g.find(c as int) as usize, i as usize))
            } else {
                None
            },
            _ => None,
        }
    }
}

/// Reads a SmoothE node id (see `selected_node`).
pub fn parse_selected_node_id(egraph: &EGraphSnapshot, node_id: &str) -> (r: Option<(usize, usize)>)
    requires
        egraph.wf(),
    ensures
        r == selected_node(egraph@, node_id@),
{
    let n = egraph.len();
    let ghost s = node_id@;
    let ghost k = last_index(s, '.');
    let (class, node_idx) = match split_at_last(node_id, '.') {
        Some(p) => p,
        None => return None,
    };
    let c = match parse_usize(class) {
        Some(c) => c,
        None => {
            assert(selected_node(egraph@, s) is None);
            return None;
        },
    };
    let i = match parse_usize(node_idx) {
        Some(i) => i,
        None => {
            if c < n {
                let cls = egraph.class(c);
                assert(egraph@.class(c as int).nodes.len() == cls.nodes.len());
            }
            return None;
        },
    };
    if c >= n {
        return None;
    }
    let cls = egraph.class(c);
    if i >= cls.nodes.len() {
        return None;
    }
    assert(k >= 0);
    assert(unsigned_value(s.subrange(0, k)) == Some(c as nat));
    assert(unsigned_value(s.subrange(k + 1, s.len() as int)) == Some(i as nat));
    Some((egraph.find(c), i))
}

/// The e-node chosen in each class after reading the first `n` selected node
/// ids: a later id for the same class replaces an earlier one. `None` when one
/// of these ids does not name an e-node.
pub open spec fn choices_upto(g: SnapshotView, sel: Seq<Seq<char>>, n: int) -> Option<Seq<Option<usize>>>
    decreases n,
{
    if n <= 0 {
        Some(Seq::new(g.len(), |i: int| None))
    } else {
        match choices_upto(g, sel, n - 1) {
            None => None,
            Some(ch) => match selected_node(g, sel[n - 1]) {
                None => None,
                Some(p) => Some(ch.update(p.0 as int, Some(p.1))),
            },
        }
    }
}

proof fn lemma_choices_len(g: SnapshotView, sel: Seq<Seq<char>>, n: int)
    requires
        g.wf(),
    ensures
        choices_upto(g, sel, n) matches Some(ch) ==> ch.len() == g.len(),
    decreases n,
{
    if n > 0 {
        lemma_choices_len(g, sel, n - 1);
    }
}

proof fn lemma_choices_fail_after(g: SnapshotView, sel: Seq<Seq<char>>, m: int, n: int)
    requires
        0 <= m <= n,
        choices_upto(g, sel, m) is None,
    ensures
        choices_upto(g, sel, n) is None,
    decreases n - m,
{
    if m < n {
        lemma_choices_fail_after(g, sel, m, n - 1);
    }
}

/// Chosen e-node index per class for the selected node ids (see `choices_upto`).
fn selected_choices(egraph: &EGraphSnapshot, selected_node_ids: &Vec<String>) -> (r: Option<Vec<Option<usize>>>)
    requires
        egraph.wf(),
    ensures
        ({
            let sel = selected_node_ids@.map_values(|s: String| s@);
            match choices_upto(egraph@, sel, sel.len() as int) {
                None => r is None,
                Some(ch) => r matches Some(v) && v@ == ch,
            }
        }),
{
    let ghost sel = selected_node_ids@.map_values(|s: String| s@);
    let n = egraph.len();
    let mut choices: Vec<Option<usize>> = Vec::new();
    while choices.len() < n
        invariant
            choices.len() <= n,
            forall|j: int| 0 <= j < choices.len() ==> choices@[j] is None,
        decreases n - choices.len(),
    {
        choices.push(None);
    }
    assert(choices@ =~= Seq::new(egraph@.len(), |i: int| None::<usize>));
    let mut i: usize = 0;
    while i < selected_node_ids.len()
        invariant
            egraph.wf(),
            sel == selected_node_ids@.map_values(|s: String| s@),
            i <= selected_node_ids.len(),
            choices_upto(egraph@, sel, i as int) == Some(choices@),
            choices.len() == egraph@.len(),
        decreases selected_node_ids.len() - i,
    {
        assert(sel[i as int] == selected_node_ids@[i as int]@);
        match parse_selected_node_id(egraph, selected_node_ids[i].as_str()) {
            None => {
                proof {
                    lemma_choices_fail_after(egraph@, sel, i + 1, sel.len() as int);
                }
                return None;
            },
            Some((c, k)) => {
                choices.set(c, Some(k));
            },
        }
        i = i + 1;
    }
    Some(choices)
}

/// Build state: the PII node of each class already built, and the PII graph.
pub type BuildState = (Seq<Option<usize>>, Seq<PiiNodeView>);

/// Builds the PII node of the class of `ec` from the chosen e-nodes, children
/// first, each class once; the classes in `path` are those being built above
/// (reaching one again is a cycle). `None` on a cycle, on a reachable class
/// without a chosen e-node, or when the PII graph refuses a node.
pub open spec fn build_node(
    g: SnapshotView,
    choices: Seq<Option<usize>>,
    offs: Seq<(Option<usize>, i32)>,
    ec: int,
    path: Seq<bool>,
    st: BuildState,
) -> Option<(usize, BuildState)>
    decreases count_false(path), 0int, 0int,
{
    if !(0 <= ec < g.len()) {
        None
    } else {
        let c = g.find(ec);
        if !(0 <= c < path.len() && c < st.0.len() && c < choices.len()) {
            None
        } else if st.0[c] is Some {
            Some((st.0[c]->0, st))
        } else if path[c] {
            None
        } else {
            match choices[c] {
                None => None,
                Some(k) => if k >= g.classes[c].nodes.len() {
                    None
                } else {
                    let en = g.classes[c].nodes[k as int];
                    proof {
                        lemma_count_false_set(path, c);
                    }
                    match build_children(g, choices, offs, en, 0, path.update(c, true), st) {
                        None => None,
                        Some(r) => {
                            let ids = r.0;
                            let st2 = r.1;
                            if can_add(st2.1, en, ids) {
                                let id = st2.1.len() as usize;
                                let node = PiiNodeView {
                                    id,
                                    op: en,
                                    info: g.classes[c].data,
                                    buffer: placed_buffer(st2.1, en, ids),
                                    hbm_offset: hbm_offset_of(g, offs, c),
                                    children: ids,
                                };
                                Some((id, (st2.0.update(c, Some(id)), st2.1.push(node))))
                            } else {
                                None
                            }
                        },
                    }
                },
            }
        }
    }
}

/// Builds the PII nodes of the children of `en` from the `i`-th on, in order
/// (see `build_node`), and returns their ids.
pub open spec fn build_children(
    g: SnapshotView,
    choices: Seq<Option<usize>>,
    offs: Seq<(Option<usize>, i32)>,
    en: OpView,
    i: int,
    path: Seq<bool>,
    st: BuildState,
) -> Option<(Seq<usize>, BuildState)>
    decreases count_false(path), 1int, en.children.len() - i,
{
    if i < 0 || i >= en.children.len() {
        Some((Seq::empty(), st))
    } else {
        match build_node(g, choices, offs, en.children[i] as int, path, st) {
            None => None,
            Some(r) => match build_children(g, choices, offs, en, i + 1, path, r.1) {
                None => None,
                Some(rest) => Some((seq![r.0] + rest.0, rest.1)),
            },
        }
    }
}

fn build_selected_pii_node(
    egraph: &EGraphSnapshot,
    eclass: usize,
    choices: &Vec<Option<usize>>,
    hbm_offsets: &Vec<(Option<usize>, i32)>,
    pii: &mut PiiGraph,
    eclass_to_pii: &mut Vec<Option<usize>>,
    visiting: &mut Vec<bool>,
) -> (r: Option<usize>)
    requires
        egraph.wf(),
        offsets_in_range(egraph@, hbm_offsets@),
        eclass < egraph@.len(),
        choices.len() == egraph@.len(),
        old(eclass_to_pii).len() == egraph@.len(),
        old(visiting).len() == egraph@.len(),
    ensures
        match build_node(
            egraph@,
            choices@,
            hbm_offsets@,
            eclass as int,
            old(visiting)@,
            (old(eclass_to_pii)@, old(pii)@),
        ) {
            None => r is None,
            Some(res) => r == Some(res.0) && final(eclass_to_pii)@ == res.1.0 && final(pii)@ == res.1.1,
        },
        r is Some ==> final(visiting)@ == old(visiting)@ && final(eclass_to_pii)@.len() == old(
            eclass_to_pii,
        )@.len(),
    decreases count_false(old(visiting)@), 0int,
{
    let g = egraph;
    let c = g.find(eclass);
    match eclass_to_pii[c] {
        Some(id) => {
            return Some(id);
        },
        None => {},
    }
    if visiting[c] {
        return None;
    }
    let k = match choices[c] {
        Some(k) => k,
        None => return None,
    };
    let cls = g.class(c);
    if k >= cls.nodes.len() {
        return None;
    }
    let en = &cls.nodes[k];
    assert(g@.classes[c as int].nodes[k as int] == en@);
    let ghost v0 = visiting@;
    let ghost m0 = eclass_to_pii@;
    let ghost p0 = pii@;
    proof {
        lemma_count_false_set(v0, c as int);
    }
    visiting.set(c, true);
    let ghost v1 = visiting@;
    let ch = en.children();
    let mut ids: Vec<usize> = Vec::new();
    let mut i: usize = 0;
    while i < ch.len()
        invariant
            g.wf(),
            offsets_in_range(g@, hbm_offsets@),
            c < g@.len(),
            g@.is_canonical(c as int),
            g == egraph,
            eclass < g@.len(),
            c == g@.find(eclass as int),
            m0 == old(eclass_to_pii)@,
            p0 == old(pii)@,
            m0.len() == g@.len(),
            m0[c as int] is None,
            !v0[c as int],
            choices@[c as int] == Some(k),
            k < g@.classes[c as int].nodes.len(),
            en@ == g@.classes[c as int].nodes[k as int],
            ch@ == en@.children,
            choices.len() == g@.len(),
            eclass_to_pii.len() == g@.len(),
            v1 == v0.update(c as int, true),
            visiting@ == v1,
            v0.len() == g@.len(),
            v0 == old(visiting)@,
            count_false(v1) < count_false(old(visiting)@),
            i <= ch.len(),
            build_children(g@, choices@, hbm_offsets@, en@, 0, v1, (m0, p0)) == match build_children(
                g@,
                choices@,
                hbm_offsets@,
                en@,
                i as int,
                v1,
                (eclass_to_pii@, pii@),
            ) {
                Some(rest) => Some((ids@ + rest.0, rest.1)),
                None => None,
            },
        decreases ch.len() - i,
    {
        assert(g@.classes[c as int].nodes[k as int].children[i as int] < g@.len());
        let ghost st_i = (eclass_to_pii@, pii@);
        match build_selected_pii_node(g, ch[i], choices, hbm_offsets, pii, eclass_to_pii, visiting) {
            None => {
                assert(build_children(g@, choices@, hbm_offsets@, en@, i as int, v1, st_i) is None);
                assert(build_children(g@, choices@, hbm_offsets@, en@, 0, v1, (m0, p0)) is None);
                assert(build_node(g@, choices@, hbm_offsets@, eclass as int, v0, (m0, p0)) is None);
                return None;
            },
            Some(id) => {
                let ghost ids0 = ids@;
                ids.push(id);
                proof {
                    match build_children(g@, choices@, hbm_offsets@, en@, i + 1, v1, (eclass_to_pii@, pii@)) {
                        Some(rest) => {
                            assert(ids0 + (seq![id] + rest.0) == ids@ + rest.0);
                        },
                        None => {},
                    }
                }
            },
        }
        i = i + 1;
    }
    assert(ids@ + Seq::<usize>::empty() == ids@);
    let data = cls.data.clone();
    let off = get_hbm_offset(g, hbm_offsets, c);
    match pii.try_add_node(en.clone(), data, ids, off) {
        None => None,
        Some(id) => {
            eclass_to_pii.set(c, Some(id));
            visiting.set(c, false);
            assert(visiting@ =~= v0);
            Some(id)
        },
    }
}

/// The PII graph of a SmoothE solution: the chosen e-nodes are read from the
/// selected node ids, then the graph is built from the root's class down
/// (see `build_node`).
pub open spec fn selected_pii(
    g: SnapshotView,
    root: int,
    sel: Seq<Seq<char>>,
    offs: Seq<(Option<usize>, i32)>,
) -> Option<Seq<PiiNodeView>> {
    match choices_upto(g, sel, sel.len() as int) {
        None => None,
        Some(ch) => match build_node(
            g,
            ch,
            offs,
            root,
            Seq::new(g.len(), |i: int| false),
            (Seq::new(g.len(), |i: int| None), Seq::empty()),
        ) {
            None => None,
            Some(r) => Some(r.1.1),
        },
    }
}

/// Turns the e-nodes selected by SmoothE into a PII graph rooted at the class
/// of `root` (see `selected_pii`); `None` when the selection is malformed,
/// misses a reachable class or is cyclic.
pub fn selected_enodes_to_pii(
    egraph: &EGraphSnapshot,
    root: usize,
    selected_node_ids: &Vec<String>,
    hbm_offsets: &Vec<(Option<usize>, i32)>,
) -> (r: Option<PiiGraph>)
    requires
        egraph.wf(),
        root < egraph@.len(),
        offsets_in_range(egraph@, hbm_offsets@),
    ensures
        match selected_pii(egraph@, root as int, selected_node_ids@.map_values(|s: String| s@), hbm_offsets@) {
            None => r is None,
            Some(p) => r matches Some(x) && x@ == p,
        },
{
    proof {
        lemma_choices_len(egraph@, selected_node_ids@.map_values(|s: String| s@), selected_node_ids.len() as int);
    }
    let choices = match selected_choices(egraph, selected_node_ids) {
        Some(c) => c,
        None => return None,
    };
    let n = egraph.len();
    let mut visiting: Vec<bool> = Vec::new();
    let mut eclass_to_pii: Vec<Option<usize>> = Vec::new();
    while visiting.len() < n
        invariant
            visiting.len() <= n,
            eclass_to_pii.len() == visiting.len(),
            forall|j: int| 0 <= j < visiting.len() ==> !visiting@[j],
            forall|j: int| 0 <= j < eclass_to_pii.len() ==> eclass_to_pii@[j] is None,
        decreases n - visiting.len(),
    {
        visiting.push(false);
        eclass_to_pii.push(None);
    }
    assert(visiting@ =~= Seq::new(egraph@.len(), |i: int| false));
    assert(eclass_to_pii@ =~= Seq::new(egraph@.len(), |i: int| None::<usize>));
    let mut pii = PiiGraph { nodes: Vec::new() };
    assert(pii@ =~= Seq::<PiiNodeView>::empty());
    let root = egraph.find(root);
    match build_selected_pii_node(egraph, root, &choices, hbm_offsets, &mut pii, &mut eclass_to_pii, &mut visiting) {
        None => None,
        Some(_) => Some(pii),
    }
}


/// Index of the first entry at or after `i` whose key is `key`, or -1.
pub open spec fn key_index(entries: Seq<(String, JsonItem)>, key: Seq<char>, i: int) -> int
    decreases entries.len() - i,
{
    if i < 0 || i >= entries.len() {
        -1
    } else if entries[i].0@ == key {
        i
    } else {
        key_index(entries, key, i + 1)
    }
}

/// Every element is a string.
pub open spec fn all_strings(items: Seq<JsonItem>) -> bool {
    forall|k: int| 0 <= k < items.len() ==> #[trigger] items[k] is Str
}

/// The node ids a SmoothE solution lists: the strings of the array under the
/// key `solution` of a JSON object; `None` when the value is not an object, has
/// no such key, the key's value is not an array, or an element is not a string.
pub open spec fn solution_of(v: JsonItem) -> Option<Seq<Seq<char>>> {
    match v {
        JsonItem::Object(entries) => {
            let i = key_index(entries@, "solution"@, 0);
            if i < 0 {
                None
            } else {
                match entries@[i].1 {
                    JsonItem::Array(items) => if all_strings(items@) {
                        Some(items@.map_values(|x: JsonItem| x->Str_0@))
                    } else {
                        None
                    },
                    _ => None,
                }
            }
        },
        _ => None,
    }
}

proof fn lemma_key_index_range(entries: Seq<(String, JsonItem)>, key: Seq<char>, i: int)
    ensures
        key_index(entries, key, i) == -1 || (i <= key_index(entries, key, i) < entries.len()),
    decreases entries.len() - i,
{
    if !(i < 0 || i >= entries.len()) && entries[i].0@ != key {
        lemma_key_index_range(entries, key, i + 1);
    }
}

/// The node ids a SmoothE solution lists (see `solution_of`).
pub fn solution_ids_of(v: &JsonItem) -> (r: Option<Vec<String>>)
    ensures
        match solution_of(*v) {
            None => r is None,
            Some(ids) => r matches Some(x) && x@.map_values(|s: String| s@) == ids,
        },
{
    let entries = match v {
        JsonItem::Object(e) => e,
        _ => return None,
    };
    let ghost key = "solution"@;
    let mut i: usize = 0;
    while i < entries.len() && !str_eq(entries[i].0.as_str(), "solution")
        invariant
            i <= entries.len(),
            key == "solution"@,
            key_index(entries@, key, 0) == key_index(entries@, key, i as int),
        decreases entries.len() - i,
    {
        i = i + 1;
    }
    assert(*v == JsonItem::Object(*entries));
    if i == entries.len() {
        assert(key_index(entries@, key, 0) == -1);
        return None;
    }
    assert(key_index(entries@, key, 0) == i);
    let items = match &entries[i].1 {
        JsonItem::Array(items) => items,
        _ => return None,
    };
    assert(entries@[i as int].1 == JsonItem::Array(*items));
    let mut out: Vec<String> = Vec::new();
    let mut k: usize = 0;
    while k < items.len()
        invariant
            *v == JsonItem::Object(*entries),
            i < entries.len(),
            key_index(entries@, "solution"@, 0) == i,
            entries@[i as int].1 == JsonItem::Array(*items),
            k <= items.len(),
            all_strings(items@.take(k as int)),
            out@.map_values(|s: String| s@) == items@.take(k as int).map_values(|x: JsonItem| x->Str_0@),
        decreases items.len() - k,
    {
        match &items[k] {
            JsonItem::Str(s) => {
                let ghost prev = out@.map_values(|s: String| s@);
                out.push(s.clone());
                assert(out@.map_values(|s: String| s@) == prev.push(s@));
                assert(items@.take(k + 1) == items@.take(k as int).push(items@[k as int]));
                assert(items@.take(k + 1).map_values(|x: JsonItem| x->Str_0@) == items@.take(k as int).map_values(
                    |x: JsonItem| x->Str_0@,
                ).push(s@));
            },
            _ => {
                assert(!all_strings(items@));
                return None;
            },
        }
        k = k + 1;
    }
    assert(items@.take(k as int) == items@);
    Some(out)
}

/// The PII graph of the SmoothE solution held in `text`, rooted at the class
/// of `root` (see `selected_pii`); `None` when the text is not a solution, or
/// when its selection is malformed, misses a reachable class or is cyclic.
pub fn solution_to_pii(
    egraph: &EGraphSnapshot,
    root: usize,
    text: &str,
    hbm_offsets: &Vec<(Option<usize>, i32)>,
) -> (r: Option<PiiGraph>)
    requires
        egraph.wf(),
        root < egraph@.len(),
        offsets_in_range(egraph@, hbm_offsets@),
    ensures
        match parsed_json(text@) {
            None => r is None,
            Some(v) => match solution_of(v) {
                None => r is None,
                Some(ids) => match selected_pii(egraph@, root as int, ids, hbm_offsets@) {
                    None => r is None,
                    Some(p) => r matches Some(x) && x@ == p,
                },
            },
        },
{
    let v = match parse_json(text) {
        Some(v) => v,
        None => return None,
    };
    match solution_ids_of(&v) {
        None => None,
        Some(selected) => selected_enodes_to_pii(egraph, root, &selected, hbm_offsets),
    }
}

/// One e-node of the e-graph as SmoothE reads it: its id `<class>.<index>`,
/// its printed operator, the ids of the first e-nodes of its child classes,
/// its class id and its cost.
#[derive(Debug)]
pub struct SerializedNode {
    pub id: String,
    pub op: String,
    pub children: Vec<String>,
    pub eclass: String,
    pub cost: u32,
}

/// Model of a serialized e-node.
#[verifier::ext_equal]
pub struct SerializedNodeView {
    pub id: Seq<char>,
    pub op: Seq<char>,
    pub children: Seq<Seq<char>>,
    pub eclass: Seq<char>,
    pub cost: nat,
}

impl View for SerializedNode {
    type V = SerializedNodeView;

    open spec fn view(&self) -> SerializedNodeView {
        SerializedNodeView {
            id: self.id@,
            op: self.op@,
            children: self.children@.map_values(|c: String| c@),
            eclass: self.eclass@,
            cost: self.cost as nat,
        }
    }
}

/// Id of the serialized `k`-th e-node of class `c`.
pub open spec fn node_id_text(c: nat, k: nat) -> Seq<char> {
    nat_text(c) + "."@ + nat_text(k)
}

/// The serialized `k`-th e-node of the canonical class `c`; a child refers to
/// the first e-node of the child's canonical class.
pub open spec fn node_record(g: SnapshotView, c: int, k: int) -> SerializedNodeView {
    let en = g.classes[c].nodes[k];
    SerializedNodeView {
        id: node_id_text(c as nat, k as nat),
        op: op_text(en),
        children: en.children.map_values(|ch: usize| node_id_text(g.find(ch as int) as nat, 0)),
        eclass: nat_text(c as nat),
        cost: instruction_cost(en.kind),
    }
}

/// The serialized first `k` e-nodes of class `c`.
pub open spec fn class_records(g: SnapshotView, c: int, k: int) -> Seq<SerializedNodeView>
    decreases k,
{
    if k <= 0 {
        Seq::empty()
    } else {
        class_records(g, c, k - 1).push(node_record(g, c, k - 1))
    }
}

/// The serialized e-nodes of the canonical classes below `n`, class by class.
pub open spec fn records_upto(g: SnapshotView, n: int) -> Seq<SerializedNodeView>
    decreases n,
{
    if n <= 0 {
        Seq::empty()
    } else {
        records_upto(g, n - 1) + if g.is_canonical(n - 1) {
            class_records(g, n - 1, g.classes[n - 1].nodes.len() as int)
        } else {
            Seq::empty()
        }
    }
}

fn id_text(c: usize, k: usize) -> (r: String)
    ensures
        r@ == node_id_text(c as nat, k as nat),
{
    let mut s = nat_to_string(c as u64);
    s.append(".");
    let t = nat_to_string(k as u64);
    s.append(t.as_str());
    s
}

/// The e-nodes of all canonical classes, in order of class id and of e-node
/// index, as SmoothE reads them (see `records_upto`).
pub fn serialized_nodes(egraph: &EGraphSnapshot) -> (r: Vec<SerializedNode>)
    requires
        egraph.wf(),
    ensures
        r@.map_values(|n: SerializedNode| n@) == records_upto(egraph@, egraph@.len() as int),
{
    let n = egraph.len();
    let mut out: Vec<SerializedNode> = Vec::new();
    let mut c: usize = 0;
    while c < n
        invariant
            egraph.wf(),
            n == egraph@.len(),
            c <= n,
            out@.map_values(|x: SerializedNode| x@) == records_upto(egraph@, c as int),
        decreases n - c,
    {
        let ghost before = out@.map_values(|x: SerializedNode| x@);
        if egraph.leaders[c] == c {
            let cls = &egraph.classes[c];
            assert(cls@ == egraph@.classes[c as int]);
            let mut k: usize = 0;
            while k < cls.nodes.len()
                invariant
                    egraph.wf(),
                    c < n,
                    n == egraph@.len(),
                    egraph@.is_canonical(c as int),
                    cls@ == egraph@.classes[c as int],
                    k <= cls.nodes.len(),
                    out@.map_values(|x: SerializedNode| x@) == before + class_records(egraph@, c as int, k as int),
                decreases cls.nodes.len() - k,
            {
                let en = &cls.nodes[k];
                assert(egraph@.classes[c as int].nodes[k as int] == en@);
                let ch = en.children();
                let mut kids: Vec<String> = Vec::new();
                let mut j: usize = 0;
                while j < ch.len()
                    invariant
                        egraph.wf(),
                        egraph@.is_canonical(c as int),
                        k < egraph@.classes[c as int].nodes.len(),
                        en@ == egraph@.classes[c as int].nodes[k as int],
                        ch@ == en@.children,
                        j <= ch.len(),
                        kids@.map_values(|s: String| s@) == ch@.take(j as int).map_values(
                            |x: usize| node_id_text(egraph@.find(x as int) as nat, 0),
                        ),
                    decreases ch.len() - j,
                {
                    assert(egraph@.classes[c as int].nodes[k as int].children[j as int] < egraph@.len());
                    let f = egraph.find(ch[j]);
                    let t = id_text(f, 0);
                    let ghost prev = kids@.map_values(|s: String| s@);
                    kids.push(t);
                    assert(kids@.map_values(|s: String| s@) == prev.push(node_id_text(egraph@.find(ch@[j as int] as int) as nat, 0)));
                    assert(ch@.take(j + 1) == ch@.take(j as int).push(ch@[j as int]));
                    assert(ch@.take(j + 1).map_values(|x: usize| node_id_text(egraph@.find(x as int) as nat, 0))
                        == ch@.take(j as int).map_values(|x: usize| node_id_text(egraph@.find(x as int) as nat, 0)).push(
                        node_id_text(egraph@.find(ch@[j as int] as int) as nat, 0)));
                    j = j + 1;
                }
                assert(ch@.take(ch.len() as int) == ch@);
                let rec = SerializedNode {
                    id: id_text(c, k),
                    op: en.to_text(),
                    children: kids,
                    eclass: nat_to_string(c as u64),
                    cost: get_instruction_cost(en),
                };
                assert(rec@ == node_record(egraph@, c as int, k as int));
                let ghost prev = out@.map_values(|x: SerializedNode| x@);
                out.push(rec);
                assert(out@.map_values(|x: SerializedNode| x@) == prev.push(rec@));
                assert(before + class_records(egraph@, c as int, k + 1) == (before + class_records(
                    egraph@,
                    c as int,
                    k as int,
                )).push(node_record(egraph@, c as int, k as int)));
                k = k + 1;
            }
        } else {
            assert(before + Seq::<SerializedNodeView>::empty() == before);
        }
        c = c + 1;
    }
    out
}


/// Every e-node id given to SmoothE reads back as that e-node: the id
/// `<c>.<k>` of the `k`-th e-node of a canonical class `c` names exactly it.
pub proof fn lemma_node_id_round_trip(g: SnapshotView, c: int, k: int)
    requires
        g.wf(),
        g.is_canonical(c),
        0 <= k < g.classes[c].nodes.len(),
    ensures
        selected_node(g, node_id_text(c as nat, k as nat)) == Some((c as usize, k as usize)),
{
    let a = nat_text(c as nat);
    let b = nat_text(k as nat);
    let s = node_id_text(c as nat, k as nat);
    lemma_nat_text_digits(k as nat);
    lemma_digits_lack(b, '.');
    lemma_last_index_join(a, '.', b);
    reveal_strlit(".");
    assert(s =~= a + seq!['.'] + b);
    assert(s.subrange(0, a.len() as int) =~= a);
    assert(s.subrange(a.len() as int + 1, s.len() as int) =~= b);
    lemma_nat_text_parses(c as nat);
    lemma_nat_text_parses(k as nat);
}


/// Number of classes whose PII node is built.
pub open spec fn count_built(s: Seq<Option<usize>>) -> nat
    decreases s.len(),
{
    if s.len() == 0 {
        0
    } else {
        count_built(s.drop_last()) + if s.last() is Some {
            1nat
        } else {
            0nat
        }
    }
}

proof fn lemma_count_built_set(s: Seq<Option<usize>>, i: int, v: usize)
    requires
        0 <= i < s.len(),
        s[i] is None,
    ensures
        count_built(s.update(i, Some(v))) == count_built(s) + 1,
        count_built(s) < s.len(),
    decreases s.len(),
{
    lemma_count_built_le(s.drop_last());
    if i == s.len() - 1 {
        assert(s.update(i, Some(v)).drop_last() == s.drop_last());
    } else {
        lemma_count_built_set(s.drop_last(), i, v);
        assert(s.update(i, Some(v)).drop_last() == s.drop_last().update(i, Some(v)));
    }
}

proof fn lemma_count_built_le(s: Seq<Option<usize>>)
    ensures
        count_built(s) <= s.len(),
    decreases s.len(),
{
    if s.len() > 0 {
        lemma_count_built_le(s.drop_last());
    }
}

/// A build state over `n` classes is consistent: the PII graph is well formed,
/// it holds one node per built class, and each built class refers to a node.
pub open spec fn build_ok(st: BuildState, n: nat) -> bool {
    &&& st.0.len() == n
    &&& pii_wf(st.1)
    &&& st.1.len() == count_built(st.0)
    &&& forall|c: int| 0 <= c < st.0.len() ==> (#[trigger] st.0[c] matches Some(p) ==> p < st.1.len())
}

/// Building a class keeps the state consistent, returns a node of the graph,
/// only appends to the graph, and leaves the classes on the path unbuilt.
pub proof fn lemma_build_node_ok(
    g: SnapshotView,
    choices: Seq<Option<usize>>,
    offs: Seq<(Option<usize>, i32)>,
    ec: int,
    path: Seq<bool>,
    st: BuildState,
)
    requires
        g.wf(),
        g.len() <= usize::MAX,
        path.len() == g.len(),
        build_ok(st, g.len()),
    ensures
        build_node(g, choices, offs, ec, path, st) matches Some(r) ==> {
            &&& build_ok(r.1, g.len())
            &&& r.0 < r.1.1.len()
            &&& st.1.len() <= r.1.1.len()
            &&& forall|x: int| 0 <= x < path.len() && path[x] ==> #[trigger] r.1.0[x] == st.0[x]
        },
    decreases count_false(path), 0int, 0int,
{
    if 0 <= ec < g.len() {
        let c = g.find(ec);
        if 0 <= c < path.len() && c < st.0.len() && c < choices.len() && st.0[c] is None && !path[c] {
            match choices[c] {
                None => {},
                Some(k) => if k < g.classes[c].nodes.len() {
                    let en = g.classes[c].nodes[k as int];
                    let path2 = path.update(c, true);
                    lemma_count_false_set(path, c);
                    lemma_build_children_ok(g, choices, offs, en, 0, path2, st);
                    match build_children(g, choices, offs, en, 0, path2, st) {
                        None => {},
                        Some(r) => {
                            let ids = r.0;
                            let st2 = r.1;
                            if can_add(st2.1, en, ids) {
                                assert(st2.0[c] == st.0[c]);
                                lemma_count_built_set(st2.0, c, st2.1.len() as usize);
                                lemma_add_node_keeps_wf(st2.1, en, g.classes[c].data, ids, hbm_offset_of(g, offs, c));
                                let id = st2.1.len() as usize;
                                let res = build_node(g, choices, offs, ec, path, st)->0;
                                assert forall|x: int| 0 <= x < res.1.0.len() implies (#[trigger] res.1.0[x] matches Some(p) ==> p < res.1.1.len()) by {
                                    if x != c {
                                        assert(res.1.0[x] == st2.0[x]);
                                    }
                                }
                                assert forall|x: int| 0 <= x < path.len() && path[x] implies #[trigger] res.1.0[x] == st.0[x] by {
                                    assert(path2[x]);
                                    assert(x != c);
                                }
                            }
                        },
                    }
                },
            }
        }
    }
}

/// Building children keeps the state consistent, returns nodes of the graph,
/// only appends to the graph, and leaves the classes on the path unbuilt.
pub proof fn lemma_build_children_ok(
    g: SnapshotView,
    choices: Seq<Option<usize>>,
    offs: Seq<(Option<usize>, i32)>,
    en: OpView,
    i: int,
    path: Seq<bool>,
    st: BuildState,
)
    requires
        g.wf(),
        g.len() <= usize::MAX,
        path.len() == g.len(),
        build_ok(st, g.len()),
    ensures
        build_children(g, choices, offs, en, i, path, st) matches Some(r) ==> {
            &&& build_ok(r.1, g.len())
            &&& forall|j: int| 0 <= j < r.0.len() ==> #[trigger] r.0[j] < r.1.1.len()
            &&& st.1.len() <= r.1.1.len()
            &&& forall|x: int| 0 <= x < path.len() && path[x] ==> #[trigger] r.1.0[x] == st.0[x]
        },
    decreases count_false(path), 1int, en.children.len() - i,
{
    if 0 <= i < en.children.len() {
        lemma_build_node_ok(g, choices, offs, en.children[i] as int, path, st);
        match build_node(g, choices, offs, en.children[i] as int, path, st) {
            None => {},
            Some(r) => {
                lemma_build_children_ok(g, choices, offs, en, i + 1, path, r.1);
                match build_children(g, choices, offs, en, i + 1, path, r.1) {
                    None => {},
                    Some(rest) => {
                        let ids = seq![r.0] + rest.0;
                        assert forall|j: int| 0 <= j < ids.len() implies #[trigger] ids[j] < rest.1.1.len() by {
                            if j > 0 {
                                assert(ids[j] == rest.0[j - 1]);
                            }
                        }
                    },
                }
            },
        }
    }
}

/// The PII graph built from a SmoothE solution is well formed: nodes numbered
/// in order, operands before users, concrete buffers.
pub proof fn lemma_selected_pii_wf(
    g: SnapshotView,
    root: int,
    sel: Seq<Seq<char>>,
    offs: Seq<(Option<usize>, i32)>,
)
    requires
        g.wf(),
        g.len() <= usize::MAX,
    ensures
        selected_pii(g, root, sel, offs) matches Some(p) ==> pii_wf(p),
{
    match choices_upto(g, sel, sel.len() as int) {
        None => {},
        Some(ch) => {
            let st0 = (Seq::new(g.len(), |i: int| None::<usize>), Seq::<PiiNodeView>::empty());
            assert(count_built(st0.0) == 0) by {
                lemma_count_built_none(g.len());
            }
            lemma_build_node_ok(g, ch, offs, root, Seq::new(g.len(), |i: int| false), st0);
        },
    }
}

proof fn lemma_count_built_none(n: nat)
    ensures
        count_built(Seq::new(n, |i: int| None::<usize>)) == 0,
    decreases n,
{
    if n > 0 {
        lemma_count_built_none((n - 1) as nat);
        assert(Seq::new(n, |i: int| None::<usize>).drop_last() =~= Seq::new((n - 1) as nat, |i: int| None::<usize>));
    }
}


/// The SmoothE cost table: loads and stores cost 10, moves 5, matrix
/// multiplications 100, softmax 50, and every other e-node 1.
pub proof fn lemma_instruction_costs(k: OpKind)
    ensures
        k == OpKind::LoadRm || k == OpKind::LoadCm || k == OpKind::StoreRm || k == OpKind::StoreCm
            ==> instruction_cost(k) == 10,
        k == OpKind::Mov ==> instruction_cost(k) == 5,
        k == OpKind::Gemm ==> instruction_cost(k) == 100,
        k == OpKind::Softmax ==> instruction_cost(k) == 50,
        !(k == OpKind::LoadRm || k == OpKind::LoadCm || k == OpKind::StoreRm || k == OpKind::StoreCm || k
            == OpKind::Mov || k == OpKind::Gemm || k == OpKind::Softmax) ==> instruction_cost(k) == 1,
{
}

} // verus!
