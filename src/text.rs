use vstd::prelude::*;
use crate::tree::path_view;

verus! {

/// Whether `c` is white space in Unicode's sense (what `char::is_whitespace` tests).
pub open spec fn is_ws(c: char) -> bool {
    let u = c as u32;
    u == 0x20 || (0x09 <= u <= 0x0d) || u == 0x85 || u == 0xa0 || u == 0x1680 || (0x2000 <= u
        <= 0x200a) || u == 0x2028 || u == 0x2029 || u == 0x202f || u == 0x205f || u == 0x3000
}

/// How many characters lead up to the first one that is not white space.
pub open spec fn leading_ws(s: Seq<char>) -> int
    decreases s.len(),
{
    if s.len() == 0 || !is_ws(s[0]) {
        0
    } else {
        1 + leading_ws(s.drop_first())
    }
}

/// Where the text ends once white space at its end is dropped.
pub open spec fn content_end(s: Seq<char>) -> int
    decreases s.len(),
{
    if s.len() == 0 || !is_ws(s[s.len() - 1]) {
        s.len() as int
    } else {
        content_end(s.drop_last())
    }
}

/// The text without white space at its end.
pub open spec fn trim_end(s: Seq<char>) -> Seq<char> {
    s.take(content_end(s))
}

/// The text without white space at either end.
pub open spec fn trim(s: Seq<char>) -> Seq<char> {
    let t = trim_end(s);
    t.skip(leading_ws(t))
}

/// Whether `s` begins with `p`.
pub open spec fn starts_with(s: Seq<char>, p: Seq<char>) -> bool {
    p.len() <= s.len() && s.take(p.len() as int) == p
}

/// What follows the prefix `p`, or nothing where `s` does not begin with it.
pub open spec fn after_prefix(s: Seq<char>, p: Seq<char>) -> Seq<char> {
    if starts_with(s, p) {
        s.skip(p.len() as int)
    } else {
        Seq::empty()
    }
}

/// The index of the first `c` in `s`, or the length of `s` where there is none.
pub open spec fn sep_index(s: Seq<char>, c: char) -> int
    decreases s.len(),
{
    if s.len() == 0 || s[0] == c {
        0
    } else {
        1 + sep_index(s.drop_first(), c)
    }
}

/// The pieces of `s` between occurrences of `c`; never empty.
pub open spec fn split(s: Seq<char>, c: char) -> Seq<Seq<char>>
    decreases s.len(),
{
    let i = sep_index(s, c);
    if i < 0 || i >= s.len() {
        seq![s]
    } else {
        seq![s.take(i)] + split(s.skip(i + 1), c)
    }
}

pub proof fn lemma_sep_index(s: Seq<char>, c: char)
    ensures
        0 <= sep_index(s, c) <= s.len(),
        sep_index(s, c) < s.len() ==> s[sep_index(s, c)] == c,
        forall|k: int| 0 <= k < sep_index(s, c) ==> s[k] != c,
    decreases s.len(),
{
    if s.len() > 0 && s[0] != c {
        lemma_sep_index(s.drop_first(), c);
        assert forall|k: int| 0 <= k < sep_index(s, c) implies s[k] != c by {
            if k > 0 {
                assert(s[k] == s.drop_first()[k - 1]);
            }
        }
    }
}

pub proof fn lemma_sep_first(s: Seq<char>, c: char, i: int)
    requires
        0 <= i <= s.len(),
        forall|k: int| 0 <= k < i ==> s[k] != c,
        i == s.len() || s[i] == c,
    ensures
        sep_index(s, c) == i,
    decreases i,
{
    if i > 0 {
        lemma_sep_first(s.drop_first(), c, i - 1);
    }
}

proof fn lemma_leading_ws(s: Seq<char>, i: int)
    requires
        0 <= i <= s.len(),
        forall|k: int| 0 <= k < i ==> is_ws(s[k]),
    ensures
        leading_ws(s) == i + leading_ws(s.skip(i)),
    decreases i,
{
    if i > 0 {
        lemma_leading_ws(s.drop_first(), i - 1);
        assert(s.drop_first().skip(i - 1) =~= s.skip(i));
    } else {
        assert(s.skip(0) =~= s);
    }
}

pub proof fn lemma_content_end_range(s: Seq<char>)
    ensures
        0 <= content_end(s) <= s.len(),
        content_end(s) > 0 ==> !is_ws(s[content_end(s) - 1]),
    decreases s.len(),
{
    if s.len() > 0 && is_ws(s[s.len() - 1]) {
        lemma_content_end_range(s.drop_last());
        let t = s.drop_last();
        if content_end(t) > 0 {
            assert(t[content_end(t) - 1] == s[content_end(t) - 1]);
        }
    }
}

/// Trailing white space is dropped from the end of `a + b` as from `b`, as long as
/// `b` is not all white space.
pub proof fn lemma_content_end_concat(a: Seq<char>, b: Seq<char>)
    ensures
        content_end(b) > 0 ==> content_end(a + b) == a.len() + content_end(b),
        content_end(b) == 0 ==> content_end(a + b) == content_end(a),
    decreases b.len(),
{
    if b.len() == 0 {
        assert(a + b =~= a);
    } else if is_ws(b[b.len() - 1]) {
        assert((a + b).drop_last() =~= a + b.drop_last());
        assert((a + b)[(a + b).len() - 1] == b[b.len() - 1]);
        lemma_content_end_concat(a, b.drop_last());
    } else {
        assert((a + b)[(a + b).len() - 1] == b[b.len() - 1]);
    }
}

/// Whether `s` begins with `p`.
pub fn has_prefix(s: &str, p: &str) -> (r: bool)
    ensures
        r == starts_with(s@, p@),
{
    let n = s.unicode_len();
    let m = p.unicode_len();
    if m > n {
        return false;
    }
    let mut i: usize = 0;
    while i < m
        invariant
            m <= n,
            n == s@.len(),
            m == p@.len(),
            i <= m,
            forall|k: int| 0 <= k < i ==> s@[k] == p@[k],
        decreases m - i,
    {
        if s.get_char(i) != p.get_char(i) {
            assert(s@.take(m as int)[i as int] != p@[i as int]);
            return false;
        }
        i += 1;
    }
    assert(s@.take(m as int) =~= p@);
    true
}

/// Whether two texts are the same.
pub fn same_text(a: &str, b: &str) -> (r: bool)
    ensures
        r == (a@ == b@),
{
    if a.unicode_len() != b.unicode_len() {
        return false;
    }
    let r = has_prefix(a, b);
    proof {
        assert(a@.take(b@.len() as int) =~= a@);
    }
    r
}

/// What follows the prefix `p`, or "" where `s` does not begin with it.
pub fn strip_prefix_or_empty<'a>(s: &'a str, p: &str) -> (r: &'a str)
    ensures
        r@ == after_prefix(s@, p@),
{
    if has_prefix(s, p) {
        let n = s.unicode_len();
        let m = p.unicode_len();
        let r = s.substring_char(m, n);
        assert(r@ =~= s@.skip(m as int));
        r
    } else {
        let r = "";
        proof {
            reveal_strlit("");
            assert(r@ =~= Seq::<char>::empty());
        }
        r
    }
}

/// The text without white space at its end.
pub fn trim_end_str<'a>(s: &'a str) -> (r: &'a str)
    ensures
        r@ == trim_end(s@),
{
    let n = s.unicode_len();
    let mut j: usize = n;
    assert(s@.take(n as int) =~= s@);
    while j > 0 && is_whitespace(s.get_char(j - 1))
        invariant
            n == s@.len(),
            j <= n,
            content_end(s@) == content_end(s@.take(j as int)),
        decreases j,
    {
        proof {
            assert(s@.take(j as int).drop_last() =~= s@.take(j - 1));
        }
        j -= 1;
    }
    proof {
        let t = s@.take(j as int);
        if j > 0 {
            assert(t[t.len() - 1] == s@[j - 1]);
        }
        assert(content_end(t) == j);
    }
    s.substring_char(0, j)
}

/// The text without white space at either end.
pub fn trim_str<'a>(s: &'a str) -> (r: &'a str)
    ensures
        r@ == trim(s@),
{
    let t = trim_end_str(s);
    let n = t.unicode_len();
    let mut i: usize = 0;
    while i < n && is_whitespace(t.get_char(i))
        invariant
            n == t@.len(),
            i <= n,
            forall|k: int| 0 <= k < i ==> is_ws(t@[k]),
        decreases n - i,
    {
        i += 1;
    }
    proof {
        lemma_leading_ws(t@, i as int);
        let u = t@.skip(i as int);
        if i < n {
            assert(u[0] == t@[i as int]);
        }
        assert(leading_ws(u) == 0);
    }
    t.substring_char(i, n)
}

/// Whether `c` is white space (see `is_ws`).
pub fn is_whitespace(c: char) -> (r: bool)
    ensures
        r == is_ws(c),
{
    let u = c as u32;
    u == 0x20 || (0x09 <= u && u <= 0x0d) || u == 0x85 || u == 0xa0 || u == 0x1680 || (0x2000
        <= u && u <= 0x200a) || u == 0x2028 || u == 0x2029 || u == 0x202f || u == 0x205f || u
        == 0x3000
}

/// The index of the first `c` in `s`, or the length of `s` where there is none.
pub fn find_char(s: &str, c: char) -> (r: usize)
    ensures
        r == sep_index(s@, c),
{
    let n = s.unicode_len();
    let mut i: usize = 0;
    while i < n && s.get_char(i) != c
        invariant
            n == s@.len(),
            i <= n,
            forall|k: int| 0 <= k < i ==> s@[k] != c,
        decreases n - i,
    {
        i += 1;
    }
    proof {
        lemma_sep_first(s@, c, i as int);
    }
    i
}

/// Splits `s` at each `c`.
pub fn split_str<'a>(s: &'a str, c: char) -> (r: Vec<&'a str>)
    ensures
        path_view(r@) == split(s@, c),
{
    let n = s.unicode_len();
    let mut out: Vec<&'a str> = Vec::new();
    let mut start: usize = 0;
    let mut j: usize = 0;
    proof {
        assert(s@.skip(0) =~= s@);
        assert(path_view(out@) + split(s@.skip(0), c) =~= split(s@, c));
    }
    while j < n
        invariant
            n == s@.len(),
            start <= j <= n,
            forall|k: int| start <= k < j ==> s@[k] != c,
            path_view(out@) + split(s@.skip(start as int), c) == split(s@, c),
        decreases n - j,
    {
        if s.get_char(j) == c {
            let piece = s.substring_char(start, j);
            let ghost rest = s@.skip(start as int);
            proof {
                lemma_sep_first(rest, c, j - start);
                assert(rest.skip(j - start + 1) =~= s@.skip(j + 1));
                assert(rest.take(j - start) =~= piece@);
            }
            let ghost before = out@;
            out.push(piece);
            proof {
                assert(path_view(out@) =~= path_view(before).push(piece@));
                assert(split(rest, c) == seq![piece@] + split(s@.skip(j + 1), c));
                assert(path_view(out@) + split(s@.skip(j + 1), c) =~= path_view(before) + split(rest, c));
            }
            start = j + 1;
        }
        j += 1;
    }
    let piece = s.substring_char(start, n);
    let ghost rest = s@.skip(start as int);
    proof {
        lemma_sep_first(rest, c, n - start);
        assert(rest =~= piece@);
    }
    let ghost before = out@;
    out.push(piece);
    proof {
        assert(path_view(out@) =~= path_view(before).push(piece@));
        assert(split(rest, c) == seq![piece@]);
        assert(path_view(out@) =~= path_view(before) + split(rest, c));
    }
    out
}

} // verus!
