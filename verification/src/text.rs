//! Character-level text utilities: trimming, token extraction, substring
//! search, decimal rendering and joining.  Everything is specified over
//! `Seq<char>` views.

use vstd::prelude::*;
use vstd::string::StrSliceExecFns;
use vstd::string::StringExecFns;

verus! {

/// Relies on `String::push`: appends the given character to the end of the
/// string.
pub assume_specification[ String::push ](s: &mut String, c: char)
    ensures
        final(s)@ == old(s)@.push(c),
;

/// Characters treated as surrounding whitespace when a line is trimmed.
pub open spec fn is_blank(c: char) -> bool {
    c == ' ' || c == '\t' || c == '\r' || c == '\n'
}

/// The quote character that surrounds each line of the ref-listing query.
pub open spec fn is_quote(c: char) -> bool {
    c == '\''
}

/// How many characters at the front of `s` satisfy `p`.
pub open spec fn leading_count(s: Seq<char>, p: spec_fn(char) -> bool) -> nat
    decreases s.len(),
{
    if s.len() == 0 || !p(s[0]) {
        0
    } else {
        1 + leading_count(s.drop_first(), p)
    }
}

/// How many characters at the back of `s` satisfy `p`.
pub open spec fn trailing_count(s: Seq<char>, p: spec_fn(char) -> bool) -> nat
    decreases s.len(),
{
    if s.len() == 0 || !p(s.last()) {
        0
    } else {
        1 + trailing_count(s.drop_last(), p)
    }
}

/// The leading count is exactly the position of the first character that
/// fails `p`.
pub proof fn lemma_leading_count_at(s: Seq<char>, p: spec_fn(char) -> bool, i: int)
    requires
        0 <= i <= s.len(),
        forall|k: int| 0 <= k < i ==> p(s[k]),
        i == s.len() || !p(s[i]),
    ensures
        leading_count(s, p) == i,
    decreases i,
{
    if i == 0 {
    } else {
        let t = s.drop_first();
        assert(forall|k: int| 0 <= k < i - 1 ==> t[k] == s[k + 1]);
        lemma_leading_count_at(t, p, i - 1);
    }
}

/// The trailing count is exactly the distance from the first character of the
/// final run that satisfies `p` to the end.
pub proof fn lemma_trailing_count_at(s: Seq<char>, p: spec_fn(char) -> bool, j: int)
    requires
        0 <= j <= s.len(),
        forall|k: int| j <= k < s.len() ==> p(s[k]),
        j == 0 || !p(s[j - 1]),
    ensures
        trailing_count(s, p) == s.len() - j,
    decreases s.len() - j,
{
    if j == s.len() {
    } else {
        let t = s.drop_last();
        assert(forall|k: int| 0 <= k < t.len() ==> t[k] == s[k]);
        lemma_trailing_count_at(t, p, j);
    }
}

/// `s` with every matching character removed from both ends, the front first.
pub open spec fn strip_ends(s: Seq<char>, p: spec_fn(char) -> bool) -> Seq<char> {
    let t = s.skip(leading_count(s, p) as int);
    t.take(t.len() - trailing_count(t, p))
}

/// The result of stripping, located by the first and last untrimmed index.
pub proof fn lemma_strip_ends_at(s: Seq<char>, p: spec_fn(char) -> bool, lo: int, hi: int)
    requires
        0 <= lo <= hi <= s.len(),
        forall|k: int| 0 <= k < lo ==> p(s[k]),
        forall|k: int| hi <= k < s.len() ==> p(s[k]),
        lo == s.len() || !p(s[lo]),
        hi == lo || !p(s[hi - 1]),
    ensures
        strip_ends(s, p) == s.subrange(lo, hi),
{
    lemma_leading_count_at(s, p, lo);
    let t = s.skip(lo);
    assert(t =~= s.subrange(lo, s.len() as int));
    assert(forall|k: int| hi - lo <= k < t.len() ==> p(t[k]));
    if hi > lo {
        assert(!p(t[hi - lo - 1]));
    }
    lemma_trailing_count_at(t, p, hi - lo);
    assert(t.take(hi - lo) =~= s.subrange(lo, hi));
}

/// A line trimmed of surrounding whitespace.
pub open spec fn trim_spec(s: Seq<char>) -> Seq<char> {
    strip_ends(s, |c: char| is_blank(c))
}

/// A line stripped of surrounding quote characters.
pub open spec fn strip_quotes_spec(s: Seq<char>) -> Seq<char> {
    strip_ends(s, |c: char| is_quote(c))
}

/// A ref-listing line cleaned for display: quotes stripped, then trimmed.
pub open spec fn clean_spec(s: Seq<char>) -> Seq<char> {
    trim_spec(strip_quotes_spec(s))
}

fn blank_char(c: char) -> (r: bool)
    ensures
        r == is_blank(c),
{
    c == ' ' || c == '\t' || c == '\r' || c == '\n'
}

fn quote_char(c: char) -> (r: bool)
    ensures
        r == is_quote(c),
{
    c == '\''
}

/// Remove surrounding whitespace from `s`.
pub fn trim_blanks(s: &str) -> (r: String)
    ensures
        r@ == trim_spec(s@),
{
    let n: usize = s.unicode_len();
    let mut lo: usize = 0;
    while lo < n && blank_char(s.get_char(lo))
        invariant
            0 <= lo <= n,
            n == s@.len(),
            forall|k: int| 0 <= k < lo ==> is_blank(s@[k]),
        decreases n - lo,
    {
        lo = lo + 1;
    }
    let mut hi: usize = n;
    while hi > lo && blank_char(s.get_char(hi - 1))
        invariant
            lo <= hi <= n,
            n == s@.len(),
            forall|k: int| hi <= k < n ==> is_blank(s@[k]),
        decreases hi,
    {
        hi = hi - 1;
    }
    proof {
        lemma_strip_ends_at(s@, |c: char| is_blank(c), lo as int, hi as int);
    }
    s.substring_char(lo, hi).to_owned()
}

/// Remove surrounding quote characters from `s`.
pub fn strip_quotes(s: &str) -> (r: String)
    ensures
        r@ == strip_quotes_spec(s@),
{
    let n: usize = s.unicode_len();
    let mut lo: usize = 0;
    while lo < n && quote_char(s.get_char(lo))
        invariant
            0 <= lo <= n,
            n == s@.len(),
            forall|k: int| 0 <= k < lo ==> is_quote(s@[k]),
        decreases n - lo,
    {
        lo = lo + 1;
    }
    let mut hi: usize = n;
    while hi > lo && quote_char(s.get_char(hi - 1))
        invariant
            lo <= hi <= n,
            n == s@.len(),
            forall|k: int| hi <= k < n ==> is_quote(s@[k]),
        decreases hi,
    {
        hi = hi - 1;
    }
    proof {
        lemma_strip_ends_at(s@, |c: char| is_quote(c), lo as int, hi as int);
    }
    s.substring_char(lo, hi).to_owned()
}

/// A line cleaned for display: quotes stripped, then whitespace trimmed.
pub fn clean_line(s: &str) -> (r: String)
    ensures
        r@ == clean_spec(s@),
{
    let q = strip_quotes(s);
    trim_blanks(q.as_str())
}

/// Whether the line holds a space, i.e. a second space-separated token
/// may follow the first.
pub open spec fn has_space_spec(s: Seq<char>) -> bool {
    exists|i: int| 0 <= i < s.len() && s[i] == ' '
}

pub fn has_space(s: &str) -> (r: bool)
    ensures
        r == has_space_spec(s@),
{
    let n: usize = s.unicode_len();
    let mut i: usize = 0;
    while i < n
        invariant
            0 <= i <= n,
            n == s@.len(),
            forall|k: int| 0 <= k < i ==> s@[k] != ' ',
        decreases n - i,
    {
        if s.get_char(i) == ' ' {
            return true;
        }
        i = i + 1;
    }
    false
}

/// The text left of the first whitespace run once leading whitespace is gone.
pub open spec fn trim_start_spec(s: Seq<char>) -> Seq<char> {
    s.skip(leading_count(s, |c: char| is_blank(c)) as int)
}

/// The first space-separated token of `s`, ignoring leading whitespace.
pub open spec fn first_token(s: Seq<char>) -> Seq<char> {
    let t = trim_start_spec(s);
    t.take(leading_count(t, |c: char| c != ' ') as int)
}

/// The first space-separated token of `s` after leading whitespace.
pub fn leading_token(s: &str) -> (r: String)
    ensures
        r@ == first_token(s@),
{
    let n: usize = s.unicode_len();
    let mut lo: usize = 0;
    while lo < n && blank_char(s.get_char(lo))
        invariant
            0 <= lo <= n,
            n == s@.len(),
            forall|k: int| 0 <= k < lo ==> is_blank(s@[k]),
        decreases n - lo,
    {
        lo = lo + 1;
    }
    let mut j: usize = lo;
    while j < n && s.get_char(j) != ' '
        invariant
            lo <= j <= n,
            n == s@.len(),
            forall|k: int| lo <= k < j ==> s@[k] != ' ',
        decreases n - j,
    {
        j = j + 1;
    }
    proof {
        lemma_leading_count_at(s@, |c: char| is_blank(c), lo as int);
        let t = s@.skip(lo as int);
        assert(t =~= s@.subrange(lo as int, n as int));
        lemma_leading_count_at(t, |c: char| c != ' ', j - lo);
        assert(t.take(j - lo) =~= s@.subrange(lo as int, j as int));
    }
    s.substring_char(lo, j).to_owned()
}

/// `needle` occurs in `hay` starting at position `i`.
pub open spec fn contains_at(hay: Seq<char>, needle: Seq<char>, i: int) -> bool {
    0 <= i && i + needle.len() <= hay.len() && hay.subrange(i, i + needle.len()) == needle
}

/// `needle` occurs somewhere in `hay`.
pub open spec fn contains_seq(hay: Seq<char>, needle: Seq<char>) -> bool {
    exists|i: int| contains_at(hay, needle, i)
}

/// Substring search over characters.
pub fn contains_str(hay: &str, needle: &str) -> (r: bool)
    ensures
        r == contains_seq(hay@, needle@),
{
    let n: usize = hay.unicode_len();
    let m: usize = needle.unicode_len();
    if m == 0 {
        proof {
            assert(hay@.subrange(0, 0) =~= needle@);
            assert(contains_at(hay@, needle@, 0));
        }
        return true;
    }
    if m > n {
        proof {
            assert(forall|i: int| #[trigger] contains_at(hay@, needle@, i) ==> i + m <= n);
        }
        return false;
    }
    let mut i: usize = 0;
    while i <= n - m
        invariant
            0 <= i,
            i + m <= n + 1,
            m >= 1,
            m <= n,
            n == hay@.len(),
            m == needle@.len(),
            forall|q: int| 0 <= q < i ==> !contains_at(hay@, needle@, q),
        decreases n - i,
    {
        let mut j: usize = 0;
        while j < m && hay.get_char(i + j) == needle.get_char(j)
            invariant
                0 <= j <= m,
                i + m <= n,
                n == hay@.len(),
                m == needle@.len(),
                forall|k: int| 0 <= k < j ==> hay@[i + k] == needle@[k],
            decreases m - j,
        {
            j = j + 1;
        }
        if j == m {
            proof {
                assert(hay@.subrange(i as int, i + m) =~= needle@);
                assert(contains_at(hay@, needle@, i as int));
            }
            return true;
        }
        proof {
            assert(hay@[i + j] != needle@[j as int]);
            assert forall|q: int| 0 <= q < i + 1 implies !contains_at(hay@, needle@, q) by {
                if q == i {
                    if contains_at(hay@, needle@, q) {
                        assert(hay@.subrange(q, q + m)[j as int] == needle@[j as int]);
                    }
                }
            }
        }
        i = i + 1;
    }
    proof {
        assert(forall|q: int| #[trigger] contains_at(hay@, needle@, q) ==> q + m <= n && q >= 0);
    }
    false
}

/// The decimal digit character for `d`.
pub open spec fn digit_char(d: nat) -> char {
    ((48 + d) as u8) as char
}

/// The decimal rendering of `n`, most significant digit first.
pub open spec fn dec_spec(n: nat) -> Seq<char>
    decreases n,
{
    if n < 10 {
        seq![digit_char(n)]
    } else {
        dec_spec(n / 10).push(digit_char(n % 10))
    }
}

fn digit_of(d: usize) -> (c: char)
    requires
        d < 10,
    ensures
        c == digit_char(d as nat),
{
    (48 + d as u8) as char
}

/// Render `n` in decimal.
pub fn count_string(n: usize) -> (r: String)
    ensures
        r@ == dec_spec(n as nat),
    decreases n,
{
    if n < 10 {
        let mut s = String::new();
        s.push(digit_of(n));
        proof {
            assert(Seq::<char>::empty().push(digit_char(n as nat)) =~= seq![
                digit_char(n as nat),
            ]);
        }
        s
    } else {
        let mut s = count_string(n / 10);
        s.push(digit_of(n % 10));
        s
    }
}

/// The parts joined with `sep` between neighbours.
pub open spec fn join_spec(parts: Seq<Seq<char>>, sep: Seq<char>) -> Seq<char>
    decreases parts.len(),
{
    if parts.len() == 0 {
        Seq::empty()
    } else if parts.len() == 1 {
        parts[0]
    } else {
        join_spec(parts.drop_last(), sep) + sep + parts.last()
    }
}

/// Join the strings of `parts` with the separator `sep`.
pub fn join_strings(parts: &Vec<String>, sep: &str) -> (r: String)
    ensures
        r@ == join_spec(parts.deep_view(), sep@),
{
    let ghost ps = parts.deep_view();
    let mut out = String::new();
    let mut i: usize = 0;
    while i < parts.len()
        invariant
            0 <= i <= parts.len(),
            ps == parts.deep_view(),
            ps.len() == parts@.len(),
            out@ == join_spec(ps.take(i as int), sep@),
        decreases parts.len() - i,
    {
        if i > 0 {
            out.append(sep);
        }
        out.append(parts[i].as_str());
        proof {
            assert(ps[i as int] == parts@[i as int]@);
            assert(ps.take(i + 1).drop_last() =~= ps.take(i as int));
            assert(ps.take(i + 1).last() == ps[i as int]);
            if i == 0 {
                assert(join_spec(ps.take(1), sep@) == ps.take(1)[0]);
                assert(ps.take(1)[0] == ps[0]);
            }
        }
        i = i + 1;
    }
    proof {
        assert(ps.take(parts@.len() as int) =~= ps);
    }
    out
}

} // verus!
