use vstd::prelude::*;

verus! {

/// The unions that make all of `children` one class: the first id paired with
/// each later id that differs from it, in order.
pub open spec fn child_unions(children: Seq<usize>) -> Seq<(usize, usize)>
    decreases children.len(),
{
    if children.len() <= 1 {
        Seq::empty()
    } else {
        let rest = child_unions(children.drop_last());
        if children.last() != children[0] {
            rest.push((children[0], children.last()))
        } else {
            rest
        }
    }
}

/// Appends to `unions` the pairs that unite all of `children` with the first
/// of them (see `child_unions`); nothing for fewer than two children.
pub fn add_child_unions(unions: &mut Vec<(usize, usize)>, children: &[usize])
    ensures
        final(unions)@ == old(unions)@ + child_unions(children@),
{
    if children.len() == 0 {
        assert(old(unions)@ + child_unions(children@) == old(unions)@);
        return;
    }
    let first = children[0];
    let ghost u0 = unions@;
    let mut i: usize = 1;
    while i < children.len()
        invariant
            1 <= i <= children.len(),
            first == children@[0],
            unions@ == u0 + child_unions(children@.take(i as int)),
        decreases children.len() - i,
    {
        let c = children[i];
        let ghost pre = children@.take(i as int);
        assert(children@.take(i + 1).drop_last() == pre);
        assert(children@.take(i + 1)[0] == first);
        if c != first {
            unions.push((first, c));
            assert(unions@ == u0 + child_unions(children@.take(i + 1))) by {
                assert(child_unions(children@.take(i + 1)) == child_unions(pre).push((first, c)));
                assert(u0 + child_unions(pre).push((first, c)) == (u0 + child_unions(pre)).push((first, c)));
            }
        }
        i = i + 1;
    }
    assert(children@.take(children.len() as int) == children@);
}


/// The unions tie every child to the first one: each later child either is
/// the first or is paired with it.
pub proof fn lemma_child_unions_connect(children: Seq<usize>)
    ensures
        forall|i: int|
            1 <= i < children.len() ==> #[trigger] children[i] == children[0] || child_unions(children).contains(
                (children[0], children[i]),
            ),
    decreases children.len(),
{
    if children.len() > 1 {
        let pre = children.drop_last();
        lemma_child_unions_connect(pre);
        let u = child_unions(children);
        let last = children.len() - 1;
        assert forall|i: int| 1 <= i < children.len() implies #[trigger] children[i] == children[0] || u.contains(
            (children[0], children[i]),
        ) by {
            if i < last {
                assert(children[i] == pre[i]);
                assert(pre[0] == children[0]);
                if pre[i] != pre[0] {
                    let k = choose|k: int| 0 <= k < child_unions(pre).len() && child_unions(pre)[k] == (pre[0], pre[i]);
                    if children.last() != children[0] {
                        assert(u[k] == child_unions(pre)[k]);
                    }
                }
            } else if children.last() != children[0] {
                assert(u[u.len() - 1] == (children[0], children.last()));
            }
        }
    }
}

} // verus!
