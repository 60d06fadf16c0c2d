use vstd::prelude::*;
use vstd::std_specs::iter::IteratorSpec;

verus! {

broadcast use vstd::string::group_string_axioms;

/// The pieces of `s` between line breaks, as splitting at `\n` gives them
/// (an empty piece after a final line break, one empty piece for empty text).
pub open spec fn split_lines(s: Seq<char>) -> Seq<Seq<char>>
    decreases s.len(),
{
    if s.len() == 0 {
        seq![Seq::empty()]
    } else {
        let r = split_lines(s.drop_last());
        if s.last() == '\n' {
            r.push(Seq::empty())
        } else {
            r.update(r.len() - 1, r.last().push(s.last()))
        }
    }
}

/// The non-empty lines among `ls`, in order.
pub open spec fn keep_nonempty(ls: Seq<Seq<char>>) -> Seq<Seq<char>>
    decreases ls.len(),
{
    if ls.len() == 0 {
        Seq::empty()
    } else if ls.last().len() > 0 {
        keep_nonempty(ls.drop_last()).push(ls.last())
    } else {
        keep_nonempty(ls.drop_last())
    }
}

proof fn lemma_split_lines_nonempty(s: Seq<char>)
    ensures
        split_lines(s).len() > 0,
    decreases s.len(),
{
    if s.len() > 0 {
        lemma_split_lines_nonempty(s.drop_last());
    }
}

/// The rewrite rules of a rules file: its non-empty lines.
pub fn rule_lines(text: &str) -> (r: Vec<String>)
    ensures
        r@.map_values(|l: String| l@) == keep_nonempty(split_lines(text@)),
{
    let ghost s = text@;
    let n = text.unicode_len();
    let mut it = text.chars();
    let mut out: Vec<String> = Vec::new();
    let mut i: usize = 0;
    let mut start: usize = 0;
    while i < n
        invariant
            s == text@,
            n == s.len(),
            start <= i <= n,
            it.remaining() == s.subrange(i as int, n as int),
            split_lines(s.take(i as int)).last() == s.subrange(start as int, i as int),
            out@.map_values(|l: String| l@) == keep_nonempty(split_lines(s.take(i as int)).drop_last()),
        decreases n - i,
    {
        proof {
            lemma_split_lines_nonempty(s.take(i as int));
        }
        let ghost before = split_lines(s.take(i as int));
        let c = match it.next() {
            Some(c) => c,
            None => {
                assert(false);
                return out;
            },
        };
        assert(c == s[i as int]);
        assert(s.take(i + 1).drop_last() == s.take(i as int));
        if c == '\n' {
            if i > start {
                let line = text.substring_char(start, i);
                let ghost prev = out@.map_values(|l: String| l@);
                out.push(line.to_string());
                assert(out@.map_values(|l: String| l@) == prev.push(line@));
            }
            assert(split_lines(s.take(i + 1)).drop_last() == before);
            start = i + 1;
            assert(split_lines(s.take(i + 1)).last() =~= s.subrange(start as int, i + 1));
        } else {
            let ghost after = split_lines(s.take(i + 1));
            assert(after.drop_last() == before.drop_last());
            assert(after.last() =~= s.subrange(start as int, i + 1));
        }
        i = i + 1;
    }
    proof {
        lemma_split_lines_nonempty(s);
        assert(s.take(n as int) == s);
    }
    if n > start {
        let line = text.substring_char(start, n);
        let ghost prev = out@.map_values(|l: String| l@);
        out.push(line.to_string());
        assert(out@.map_values(|l: String| l@) == prev.push(line@));
    }
    out
}


/// Every rule read from a rules file is a non-empty line: it holds no line break.
pub proof fn lemma_rule_lines_are_lines(s: Seq<char>)
    ensures
        forall|i: int|
            0 <= i < keep_nonempty(split_lines(s)).len() ==> {
                &&& (#[trigger] keep_nonempty(split_lines(s))[i]).len() > 0
                &&& !keep_nonempty(split_lines(s))[i].contains('\n')
            },
{
    lemma_split_lines_no_break(s);
    lemma_keep_nonempty_from(split_lines(s));
}

proof fn lemma_split_lines_no_break(s: Seq<char>)
    ensures
        forall|i: int| 0 <= i < split_lines(s).len() ==> !(#[trigger] split_lines(s)[i]).contains('\n'),
    decreases s.len(),
{
    if s.len() > 0 {
        lemma_split_lines_no_break(s.drop_last());
        lemma_split_lines_nonempty(s.drop_last());
        let r = split_lines(s.drop_last());
        if s.last() != '\n' {
            let l = r.last().push(s.last());
            assert(!l.contains('\n')) by {
                if l.contains('\n') {
                    let j = choose|j: int| 0 <= j < l.len() && l[j] == '\n';
                    if j < r.last().len() {
                        assert(r.last()[j] == '\n');
                        assert(r[r.len() - 1].contains('\n'));
                    }
                }
            }
            assert forall|i: int| 0 <= i < split_lines(s).len() implies !(#[trigger] split_lines(s)[i]).contains('\n') by {
                if i < r.len() - 1 {
                    assert(split_lines(s)[i] == r[i]);
                }
            }
        } else {
            assert forall|i: int| 0 <= i < split_lines(s).len() implies !(#[trigger] split_lines(s)[i]).contains('\n') by {
                if i < r.len() {
                    assert(split_lines(s)[i] == r[i]);
                } else {
                    assert(split_lines(s)[i] =~= Seq::<char>::empty());
                }
            }
        }
    }
}

proof fn lemma_keep_nonempty_from(ls: Seq<Seq<char>>)
    ensures
        forall|i: int|
            0 <= i < keep_nonempty(ls).len() ==> (#[trigger] keep_nonempty(ls)[i]).len() > 0 && exists|j: int|
                0 <= j < ls.len() && ls[j] == keep_nonempty(ls)[i],
    decreases ls.len(),
{
    if ls.len() > 0 {
        lemma_keep_nonempty_from(ls.drop_last());
        let k = keep_nonempty(ls.drop_last());
        assert forall|i: int| 0 <= i < keep_nonempty(ls).len() implies (#[trigger] keep_nonempty(ls)[i]).len() > 0
            && exists|j: int| 0 <= j < ls.len() && ls[j] == keep_nonempty(ls)[i] by {
            if i < k.len() {
                assert(keep_nonempty(ls)[i] == k[i]);
                let j = choose|j: int| 0 <= j < ls.drop_last().len() && ls.drop_last()[j] == k[i];
                assert(ls[j] == ls.drop_last()[j]);
            } else {
                assert(keep_nonempty(ls)[i] == ls.last());
                assert(ls[ls.len() - 1] == ls.last());
            }
        }
    }
}

} // verus!
