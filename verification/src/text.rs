use vstd::prelude::*;

verus! {

/// The character of a decimal digit.
pub open spec fn digit_char(d: int) -> char {
    ('0' as int + d) as char
}

/// Decimal digits of a natural number, most significant first, no leading zeros.
pub open spec fn nat_text(n: nat) -> Seq<char>
    decreases n,
{
    if n < 10 {
        seq![digit_char(n as int)]
    } else {
        nat_text(n / 10).push(digit_char((n % 10) as int))
    }
}

/// Decimal text of an integer, with a leading `-` for negative values.
pub open spec fn int_text(i: int) -> Seq<char> {
    if i < 0 {
        seq!['-'] + nat_text((-i) as nat)
    } else {
        nat_text(i as nat)
    }
}

/// Concatenation of the pieces with `sep` between consecutive pieces.
pub open spec fn join_text(pieces: Seq<Seq<char>>, sep: Seq<char>) -> Seq<char>
    decreases pieces.len(),
{
    if pieces.len() == 0 {
        Seq::empty()
    } else if pieces.len() == 1 {
        pieces[0]
    } else {
        join_text(pieces.drop_last(), sep) + sep + pieces.last()
    }
}

fn digit_str(d: u64) -> (s: &'static str)
    requires
        d < 10,
    ensures
        s@ == seq![digit_char(d as int)],
{
    match d {
        0 => {
            proof { reveal_strlit("0"); }
            "0"
        },
        1 => {
            proof { reveal_strlit("1"); }
            "1"
        },
        2 => {
            proof { reveal_strlit("2"); }
            "2"
        },
        3 => {
            proof { reveal_strlit("3"); }
            "3"
        },
        4 => {
            proof { reveal_strlit("4"); }
            "4"
        },
        5 => {
            proof { reveal_strlit("5"); }
            "5"
        },
        6 => {
            proof { reveal_strlit("6"); }
            "6"
        },
        7 => {
            proof { reveal_strlit("7"); }
            "7"
        },
        8 => {
            proof { reveal_strlit("8"); }
            "8"
        },
        _ => {
            proof { reveal_strlit("9"); }
            "9"
        },
    }
}

/// Decimal text of an unsigned number.
pub fn nat_to_string(n: u64) -> (s: String)
    ensures
        s@ == nat_text(n as nat),
    decreases n,
{
    if n < 10 {
        String::from_str(digit_str(n))
    } else {
        let mut s = nat_to_string(n / 10);
        s.append(digit_str(n % 10));
        s
    }
}

/// Decimal text of a signed number.
pub fn int_to_string(i: i64) -> (s: String)
    ensures
        s@ == int_text(i as int),
{
    if i < 0 {
        let mag: u64 = if i == i64::MIN {
            9223372036854775808u64
        } else {
            (-i) as u64
        };
        proof { reveal_strlit("-"); }
        let mut s = String::from_str("-");
        let d = nat_to_string(mag);
        s.append(d.as_str());
        s
    } else {
        nat_to_string(i as u64)
    }
}

/// The text before the first `_` (all of it when there is none).
pub open spec fn seg_first(s: Seq<char>) -> Seq<char>
    decreases s.len(),
{
    if s.len() == 0 {
        s
    } else if s[0] == '_' {
        Seq::empty()
    } else {
        seq![s[0]] + seg_first(s.drop_first())
    }
}

/// The text after the last `_` (all of it when there is none).
pub open spec fn seg_last(s: Seq<char>) -> Seq<char>
    decreases s.len(),
{
    if s.len() == 0 {
        s
    } else if s.last() == '_' {
        Seq::empty()
    } else {
        seg_last(s.drop_last()).push(s.last())
    }
}

proof fn lemma_seg_first(s: Seq<char>, i: int)
    requires
        0 <= i <= s.len(),
        forall|j: int| 0 <= j < i ==> s[j] != '_',
        i == s.len() || s[i] == '_',
    ensures
        seg_first(s) == s.take(i),
    decreases s.len(),
{
    if s.len() == 0 {
    } else if s[0] == '_' {
    } else {
        lemma_seg_first(s.drop_first(), i - 1);
        assert(s.take(i) == seq![s[0]] + s.drop_first().take(i - 1));
    }
}

proof fn lemma_seg_last(s: Seq<char>, i: int)
    requires
        0 <= i <= s.len(),
        forall|j: int| i <= j < s.len() ==> s[j] != '_',
        i == 0 || s[i - 1] == '_',
    ensures
        seg_last(s) == s.subrange(i, s.len() as int),
    decreases s.len(),
{
    if s.len() == 0 {
    } else if s.last() == '_' {
    } else {
        lemma_seg_last(s.drop_last(), i);
        assert(s.subrange(i, s.len() as int) == s.drop_last().subrange(i, s.len() - 1).push(s.last()));
    }
}

/// The part of `s` before its first `_`.
pub fn first_segment(s: &str) -> (r: &str)
    ensures
        r@ == seg_first(s@),
{
    let n = s.unicode_len();
    let mut i: usize = 0;
    while i < n && s.get_char(i) != '_'
        invariant
            n == s@.len(),
            i <= n,
            forall|j: int| 0 <= j < i ==> s@[j] != '_',
        decreases n - i,
    {
        i = i + 1;
    }
    proof { lemma_seg_first(s@, i as int); }
    s.substring_char(0, i)
}

/// The part of `s` after its last `_`.
pub fn last_segment(s: &str) -> (r: &str)
    ensures
        r@ == seg_last(s@),
{
    let n = s.unicode_len();
    let mut i: usize = n;
    while i > 0 && s.get_char(i - 1) != '_'
        invariant
            n == s@.len(),
            i <= n,
            forall|j: int| i <= j < n ==> s@[j] != '_',
        decreases i,
    {
        i = i - 1;
    }
    proof { lemma_seg_last(s@, i as int); }
    s.substring_char(i, n)
}

/// Whether two string slices hold the same characters.
pub fn str_eq(a: &str, b: &str) -> (r: bool)
    ensures
        r == (a@ == b@),
{
    let n = a.unicode_len();
    if n != b.unicode_len() {
        return false;
    }
    let mut i: usize = 0;
    while i < n
        invariant
            n == a@.len(),
            n == b@.len(),
            i <= n,
            a@.subrange(0, i as int) == b@.subrange(0, i as int),
        decreases n - i,
    {
        if a.get_char(i) != b.get_char(i) {
            return false;
        }
        assert(a@.subrange(0, i + 1) == a@.subrange(0, i as int).push(a@[i as int]));
        assert(b@.subrange(0, i + 1) == b@.subrange(0, i as int).push(b@[i as int]));
        i = i + 1;
    }
    assert(a@ == a@.subrange(0, n as int));
    assert(b@ == b@.subrange(0, n as int));
    true
}

/// Joins the strings with `sep` between consecutive ones.
pub fn join_strings(pieces: &Vec<String>, sep: &str) -> (r: String)
    ensures
        r@ == join_text(pieces@.map_values(|p: String| p@), sep@),
{
    let ghost views = pieces@.map_values(|p: String| p@);
    let mut r = String::new();
    let mut i: usize = 0;
    while i < pieces.len()
        invariant
            i <= pieces.len(),
            views == pieces@.map_values(|p: String| p@),
            r@ == join_text(views.take(i as int), sep@),
        decreases pieces.len() - i,
    {
        assert(views.take(i + 1).drop_last() == views.take(i as int));
        if i > 0 {
            r.append(sep);
        }
        r.append(pieces[i].as_str());
        i = i + 1;
    }
    assert(views.take(pieces.len() as int) == views);
    r
}


/// Position of the last `c` in `s`, or -1 when there is none.
pub open spec fn last_index(s: Seq<char>, c: char) -> int
    decreases s.len(),
{
    if s.len() == 0 {
        -1
    } else if s.last() == c {
        s.len() - 1
    } else {
        last_index(s.drop_last(), c)
    }
}

proof fn lemma_last_index(s: Seq<char>, c: char, i: int)
    requires
        -1 <= i < s.len(),
        forall|j: int| i < j < s.len() ==> s[j] != c,
        i == -1 || s[i] == c,
    ensures
        last_index(s, c) == i,
    decreases s.len(),
{
    if s.len() > 0 && s.last() != c {
        lemma_last_index(s.drop_last(), c, i);
    }
}

/// Splits `s` at its last `c`: the text before it and the text after it;
/// `None` when `s` has no `c`.
pub fn split_at_last<'a>(s: &'a str, c: char) -> (r: Option<(&'a str, &'a str)>)
    ensures
        r is None <==> last_index(s@, c) == -1,
        r is Some ==> 0 <= last_index(s@, c) < s@.len(),
        r matches Some(p) ==> p.0@ == s@.subrange(0, last_index(s@, c)) && p.1@ == s@.subrange(
            last_index(s@, c) + 1,
            s@.len() as int,
        ),
{
    let n = s.unicode_len();
    let mut i: usize = n;
    while i > 0 && s.get_char(i - 1) != c
        invariant
            n == s@.len(),
            i <= n,
            forall|j: int| i <= j < n ==> s@[j] != c,
        decreases i,
    {
        i = i - 1;
    }
    proof {
        lemma_last_index(s@, c, i - 1);
    }
    if i == 0 {
        None
    } else {
        Some((s.substring_char(0, i - 1), s.substring_char(i, n)))
    }
}

/// Value of a string of decimal digits.
pub open spec fn digits_value(s: Seq<char>) -> nat
    decreases s.len(),
{
    if s.len() == 0 {
        0
    } else {
        digits_value(s.drop_last()) * 10 + (s.last() as nat - '0' as nat) as nat
    }
}

/// Every character is a decimal digit.
pub open spec fn all_digits(s: Seq<char>) -> bool {
    forall|i: int| 0 <= i < s.len() ==> '0' <= #[trigger] s[i] <= '9'
}

/// The number an unsigned integer is parsed from: an optional `+` followed by
/// at least one decimal digit; `None` for any other text.
pub open spec fn unsigned_value(s: Seq<char>) -> Option<nat> {
    let d = if s.len() > 1 && s[0] == '+' {
        s.drop_first()
    } else {
        s
    };
    if d.len() > 0 && all_digits(d) {
        Some(digits_value(d))
    } else {
        None
    }
}

proof fn lemma_digits_value_prefix(s: Seq<char>, i: int)
    requires
        0 <= i <= s.len(),
        all_digits(s),
    ensures
        digits_value(s.take(i)) <= digits_value(s),
    decreases s.len() - i,
{
    if i < s.len() {
        lemma_digits_value_prefix(s, i + 1);
        assert(s.take(i + 1).drop_last() == s.take(i));
    } else {
        assert(s.take(i) == s);
    }
}

/// Value of the decimal digits of `s` from position `start` on; `None` when
/// one of them is not a digit or the value does not fit.
fn parse_digits(s: &str, start: usize) -> (r: Option<usize>)
    requires
        start <= s@.len(),
    ensures
        ({
            let d = s@.subrange(start as int, s@.len() as int);
            &&& r matches Some(v) ==> all_digits(d) && v == digits_value(d)
            &&& r is None ==> !all_digits(d) || digits_value(d) > usize::MAX
        }),
{
    let n = s.unicode_len();
    let ghost d = s@.subrange(start as int, n as int);
    let mut i: usize = start;
    let mut v: usize = 0;
    while i < n
        invariant
            n == s@.len(),
            start <= i <= n,
            d == s@.subrange(start as int, n as int),
            all_digits(d.take(i - start)),
            v == digits_value(d.take(i - start)),
        decreases n - i,
    {
        let ch = s.get_char(i);
        if ch < '0' || ch > '9' {
            assert(d[i - start] == ch);
            return None;
        }
        let ghost pre = d.take(i - start);
        let ghost next = d.take(i - start + 1);
        assert(next.drop_last() == pre);
        assert(next.last() == ch);
        assert(all_digits(next));
        let digit: usize = (ch as u32 - '0' as u32) as usize;
        assert(digit == (next.last() as nat - '0' as nat) as nat);
        let m = v.checked_mul(10);
        let t = match m {
            Some(m) => m.checked_add(digit),
            None => None,
        };
        match t {
            Some(t) => {
                v = t;
            },
            None => {
                proof {
                    assert(digits_value(next) > usize::MAX);
                    if all_digits(d) {
                        lemma_digits_value_prefix(d, i - start + 1);
                    }
                }
                return None;
            },
        }
        i = i + 1;
    }
    assert(d.take(n - start) == d);
    Some(v)
}

/// Parses an unsigned machine integer as `str::parse::<usize>` does: an
/// optional `+` and decimal digits whose value fits; `None` otherwise.
pub fn parse_usize(s: &str) -> (r: Option<usize>)
    ensures
        r matches Some(v) ==> unsigned_value(s@) == Some(v as nat),
        r is None ==> (unsigned_value(s@) matches Some(v) ==> v > usize::MAX),
{
    let n = s.unicode_len();
    let mut start: usize = 0;
    if n > 1 && s.get_char(0) == '+' {
        start = 1;
    }
    let ghost d = s@.subrange(start as int, n as int);
    assert(d == if s@.len() > 1 && s@[0] == '+' { s@.drop_first() } else { s@ });
    if start == n {
        return None;
    }
    parse_digits(s, start)
}


/// The decimal text of a number is a non-empty string of digits, without a
/// `+` in front, whose value is that number.
pub proof fn lemma_nat_text_digits(n: nat)
    ensures
        nat_text(n).len() > 0,
        all_digits(nat_text(n)),
        digits_value(nat_text(n)) == n,
    decreases n,
{
    let d = (n % 10) as int;
    assert(digit_char(d) as int == '0' as int + d);
    if n < 10 {
        let t = nat_text(n);
        assert(t == seq![digit_char(n as int)]);
        assert(t.drop_last() =~= Seq::<char>::empty());
        assert(d == n);
        assert((t.last() as nat - '0' as nat) as nat == d);
        assert(digits_value(t) == digits_value(t.drop_last()) * 10 + d);
    }
    if n >= 10 {
        lemma_nat_text_digits(n / 10);
        let t = nat_text(n);
        assert(t == nat_text(n / 10).push(digit_char(d)));
        assert(t.last() == digit_char(d));
        assert(t.drop_last() == nat_text(n / 10));
        assert((t.last() as nat - '0' as nat) as nat == d);
        assert(digits_value(t) == digits_value(nat_text(n / 10)) * 10 + d);
        assert((n / 10) * 10 + d == n);
        assert(t.drop_last() == nat_text(n / 10));
        assert forall|i: int| 0 <= i < t.len() implies '0' <= #[trigger] t[i] <= '9' by {
            if i < t.len() - 1 {
                assert(t[i] == nat_text(n / 10)[i]);
            }
        }
    }
}

/// Printed numbers read back as themselves.
pub proof fn lemma_nat_text_parses(n: nat)
    ensures
        unsigned_value(nat_text(n)) == Some(n),
{
    lemma_nat_text_digits(n);
    assert('0' <= nat_text(n)[0] <= '9');
}

/// Digit strings hold no character other than digits, so no separator.
pub proof fn lemma_digits_lack(s: Seq<char>, c: char)
    requires
        all_digits(s),
        !('0' <= c <= '9'),
    ensures
        last_index(s, c) == -1,
    decreases s.len(),
{
    if s.len() > 0 {
        assert(s.drop_last() =~= s.subrange(0, s.len() - 1));
        assert(all_digits(s.drop_last())) by {
            assert forall|i: int| 0 <= i < s.drop_last().len() implies '0' <= #[trigger] s.drop_last()[i] <= '9' by {
                assert(s.drop_last()[i] == s[i]);
            }
        }
        assert('0' <= s[s.len() - 1] <= '9');
        lemma_digits_lack(s.drop_last(), c);
    }
}

/// The last `c` of `a + [c] + b`, where `b` holds no `c`, is the one between.
pub proof fn lemma_last_index_join(a: Seq<char>, c: char, b: Seq<char>)
    requires
        last_index(b, c) == -1,
    ensures
        last_index(a + seq![c] + b, c) == a.len(),
    decreases b.len(),
{
    let s = a + seq![c] + b;
    if b.len() == 0 {
        assert(s.drop_last() =~= a);
        assert(s.last() == c);
    } else {
        assert(b.last() != c);
        lemma_last_index_join(a, c, b.drop_last());
        assert(s.drop_last() =~= a + seq![c] + b.drop_last());
    }
}

} // verus!
