//! Sequences of characters: substring search and trimming of spaces.

use vstd::prelude::*;

verus! {

/// `needle` stands in `hay` at position `i`.
pub open spec fn occurs_at(hay: Seq<char>, needle: Seq<char>, i: int) -> bool {
    &&& 0 <= i
    &&& i + needle.len() <= hay.len()
    &&& hay.subrange(i, i + needle.len()) == needle
}

/// `needle` stands somewhere in `hay`.
pub open spec fn occurs(hay: Seq<char>, needle: Seq<char>) -> bool {
    exists|i: int| occurs_at(hay, needle, i)
}

/// `i` is the leftmost position at which `needle` stands in `hay`.
pub open spec fn is_first_occurrence(hay: Seq<char>, needle: Seq<char>, i: int) -> bool {
    &&& occurs_at(hay, needle, i)
    &&& forall|j: int| 0 <= j < i ==> !occurs_at(hay, needle, j)
}

/// `s` without its leading spaces.
pub open spec fn skip_leading(s: Seq<char>) -> Seq<char>
    decreases s.len(),
{
    if s.len() > 0 && s.first() == ' ' {
        skip_leading(s.drop_first())
    } else {
        s
    }
}

/// `s` without its trailing spaces.
pub open spec fn skip_trailing(s: Seq<char>) -> Seq<char>
    decreases s.len(),
{
    if s.len() > 0 && s.last() == ' ' {
        skip_trailing(s.drop_last())
    } else {
        s
    }
}

/// `s` without the spaces at either end. Only the space character counts;
/// tabs and other white space stay.
pub open spec fn trim_spaces(s: Seq<char>) -> Seq<char> {
    skip_trailing(skip_leading(s))
}

/// Every character of `s` in `[from, to)` is a space.
pub open spec fn all_spaces(s: Seq<char>, from: int, to: int) -> bool {
    forall|k: int| from <= k < to ==> s[k] == ' '
}

/// Dropping the leading spaces `s[from..a]` of `s[from..to]` does not
/// change what `skip_leading` gives.
proof fn lemma_skip_leading(s: Seq<char>, from: int, a: int, to: int)
    requires
        0 <= from <= a <= to <= s.len(),
        all_spaces(s, from, a),
    ensures
        skip_leading(s.subrange(from, to)) == skip_leading(s.subrange(a, to)),
    decreases a - from,
{
    if from < a {
        let t = s.subrange(from, to);
        assert(t.first() == s[from]);
        assert(t.drop_first() =~= s.subrange(from + 1, to));
        lemma_skip_leading(s, from + 1, a, to);
    }
}

/// Dropping the trailing spaces `s[b..to]` of `s[from..to]` does not change
/// what `skip_trailing` gives.
proof fn lemma_skip_trailing(s: Seq<char>, from: int, b: int, to: int)
    requires
        0 <= from <= b <= to <= s.len(),
        all_spaces(s, b, to),
    ensures
        skip_trailing(s.subrange(from, to)) == skip_trailing(s.subrange(from, b)),
    decreases to - b,
{
    if b < to {
        let t = s.subrange(from, to);
        assert(t.last() == s[to - 1]);
        assert(t.drop_last() =~= s.subrange(from, to - 1));
        lemma_skip_trailing(s, from, b, to - 1);
    }
}

/// The trimmed text is a stretch of the text given, with nothing but spaces
/// cut off at either side and no space left at either end.
pub proof fn lemma_trim_spaces_shape(s: Seq<char>) -> (cut: (int, int))
    ensures
        0 <= cut.0 <= cut.1 <= s.len(),
        trim_spaces(s) == s.subrange(cut.0, cut.1),
        all_spaces(s, 0, cut.0),
        all_spaces(s, cut.1, s.len() as int),
        cut.0 < cut.1 ==> s[cut.0] != ' ' && s[cut.1 - 1] != ' ',
{
    let n = s.len() as int;
    let a = leading_run(s, 0);
    let b = trailing_run(s, a, n);
    lemma_trim_of_cut(s, 0, a, b, n);
    assert(s.subrange(0, n) =~= s);
    (a, b)
}

/// The first position from `from` on that holds no space, or the end.
proof fn leading_run(s: Seq<char>, from: int) -> (a: int)
    requires
        0 <= from <= s.len(),
    ensures
        from <= a <= s.len(),
        all_spaces(s, from, a),
        a == s.len() || s[a] != ' ',
    decreases s.len() - from,
{
    if from == s.len() || s[from] != ' ' {
        from
    } else {
        leading_run(s, from + 1)
    }
}

/// The end of the last stretch below `to` that holds no space, or `low`.
proof fn trailing_run(s: Seq<char>, low: int, to: int) -> (b: int)
    requires
        0 <= low <= to <= s.len(),
    ensures
        low <= b <= to,
        all_spaces(s, b, to),
        b == low || s[b - 1] != ' ',
    decreases to - low,
{
    if to == low || s[to - 1] != ' ' {
        to
    } else {
        trailing_run(s, low, to - 1)
    }
}

/// Where `[a, b)` is what is left of `s[from..to]` once the spaces at either
/// end are cut, `s[a..b]` is the trimmed text.
pub proof fn lemma_trim_of_cut(s: Seq<char>, from: int, a: int, b: int, to: int)
    requires
        0 <= from <= a <= b <= to <= s.len(),
        all_spaces(s, from, a),
        all_spaces(s, b, to),
        a == to || s[a] != ' ',
        b == a || s[b - 1] != ' ',
    ensures
        trim_spaces(s.subrange(from, to)) == s.subrange(a, b),
{
    lemma_skip_leading(s, from, a, to);
    let lead = s.subrange(a, to);
    if a < to {
        assert(lead.first() == s[a]);
    }
    assert(skip_leading(lead) == lead);
    assert(lead.subrange(0, to - a) =~= lead);
    assert(all_spaces(lead, b - a, to - a)) by {
        assert forall|k: int| b - a <= k < to - a implies lead[k] == ' ' by {
            assert(lead[k] == s[a + k]);
        }
    }
    lemma_skip_trailing(lead, 0, b - a, to - a);
    let core = lead.subrange(0, b - a);
    assert(core =~= s.subrange(a, b));
    if a < b {
        assert(core.last() == s[b - 1]);
    }
    assert(skip_trailing(core) == core);
}

/// The characters of `s`, one by one.
pub fn chars_of(s: &str) -> (v: Vec<char>)
    ensures
        v@ == s@,
{
    let mut v: Vec<char> = Vec::new();
    for c in it: s.chars()
        invariant
            it.seq() == s@,
            v@ == it.seq().take(it.index()),
    {
        v.push(c);
        assert(it.seq().take(it.index() + 1) =~= it.seq().take(it.index()).push(c));
    }
    assert(v@ =~= s@);
    v
}

/// Finds the leftmost place at which `needle` stands in `hay`.
pub fn find_first(hay: &[char], needle: &[char]) -> (res: Option<usize>)
    ensures
        match res {
            Some(i) => is_first_occurrence(hay@, needle@, i as int),
            None => !occurs(hay@, needle@),
        },
{
    let n: usize = hay.len();
    let m: usize = needle.len();
    if m > n {
        return None;
    }
    let last: usize = n - m;
    let mut i: usize = 0;
    while i <= last
        invariant
            n == hay@.len(),
            m == needle@.len(),
            last == n - m,
            i <= last + 1,
            forall|j: int| 0 <= j < i ==> !occurs_at(hay@, needle@, j),
        decreases last + 1 - i,
    {
        let mut k: usize = 0;
        while k < m && hay[i + k] == needle[k]
            invariant
                n == hay@.len(),
                m == needle@.len(),
                last == n - m,
                i <= last,
                k <= m,
                forall|l: int| 0 <= l < k ==> hay@[i + l] == needle@[l],
            decreases m - k,
        {
            k = k + 1;
        }
        if k == m {
            assert(hay@.subrange(i as int, i + m) =~= needle@);
            return Some(i);
        }
        assert(!occurs_at(hay@, needle@, i as int)) by {
            if occurs_at(hay@, needle@, i as int) {
                assert(hay@.subrange(i as int, i + m)[k as int] == needle@[k as int]);
            }
        }
        i = i + 1;
    }
    None
}

/// Trims the spaces off `s[from..to]` and gives the bounds of what is left.
pub fn trim_bounds(s: &[char], from: usize, to: usize) -> (res: (usize, usize))
    requires
        from <= to <= s@.len(),
    ensures
        from <= res.0 <= res.1 <= to,
        s@.subrange(res.0 as int, res.1 as int) == trim_spaces(s@.subrange(from as int, to as int)),
        all_spaces(s@, from as int, res.0 as int),
        all_spaces(s@, res.1 as int, to as int),
        res.0 < res.1 ==> s@[res.0 as int] != ' ' && s@[res.1 - 1] != ' ',
        res.0 == res.1 ==> res.0 == to,
{
    let mut a: usize = from;
    while a < to && s[a] == ' '
        invariant
            from <= a <= to <= s@.len(),
            all_spaces(s@, from as int, a as int),
        decreases to - a,
    {
        a = a + 1;
    }
    let mut b: usize = to;
    while b > a && s[b - 1] == ' '
        invariant
            a <= b <= to <= s@.len(),
            a == to || s@[a as int] != ' ',
            all_spaces(s@, b as int, to as int),
        decreases b - a,
    {
        b = b - 1;
    }
    proof {
        lemma_trim_of_cut(s@, from as int, a as int, b as int, to as int);
    }
    (a, b)
}

} // verus!
