//! Splitting captured backend output into lines, the way a line iterator
//! does: lines end at a line feed or at a carriage return followed by a line
//! feed, terminators are stripped, and a final line ending adds no empty
//! trailing line.

use vstd::prelude::*;
use vstd::string::StrSliceExecFns;
use crate::text::{leading_count, lemma_leading_count_at};

verus! {

/// A terminated line with a trailing carriage return dropped.
pub open spec fn strip_cr(l: Seq<char>) -> Seq<char> {
    if l.len() > 0 && l.last() == '\r' {
        l.drop_last()
    } else {
        l
    }
}

/// The position of the first line feed in `s`, or its length if none.
pub open spec fn line_break(s: Seq<char>) -> nat {
    leading_count(s, |c: char| c != '\n')
}

/// The lines of `s`: pieces between line feeds, each terminated piece with a
/// trailing carriage return stripped, and no empty piece after a final line
/// feed.
pub open spec fn lines_spec(s: Seq<char>) -> Seq<Seq<char>>
    decreases s.len(),
{
    if s.len() == 0 {
        Seq::empty()
    } else {
        let b = line_break(s) as int;
        if b >= s.len() {
            seq![s]
        } else {
            seq![strip_cr(s.take(b))] + lines_spec(s.skip(b + 1))
        }
    }
}

/// Stepping over one terminated line.
proof fn lemma_lines_step(s: Seq<char>, start: int, i: int)
    requires
        0 <= start <= i < s.len(),
        forall|k: int| start <= k < i ==> s[k] != '\n',
        s[i] == '\n',
    ensures
        lines_spec(s.skip(start)) == seq![strip_cr(s.subrange(start, i))] + lines_spec(
            s.skip(i + 1),
        ),
{
    let t = s.skip(start);
    assert(forall|k: int| 0 <= k < t.len() ==> t[k] == s[start + k]);
    lemma_leading_count_at(t, |c: char| c != '\n', i - start);
    assert(line_break(t) == i - start);
    assert(t.take(i - start) =~= s.subrange(start, i));
    assert(t.skip(i - start + 1) =~= s.skip(i + 1));
}

/// The unterminated tail after the last line feed.
proof fn lemma_lines_tail(s: Seq<char>, start: int)
    requires
        0 <= start <= s.len(),
        forall|k: int| start <= k < s.len() ==> s[k] != '\n',
    ensures
        start == s.len() ==> lines_spec(s.skip(start)) == Seq::<Seq<char>>::empty(),
        start < s.len() ==> lines_spec(s.skip(start)) == seq![s.subrange(start, s.len() as int)],
{
    let t = s.skip(start);
    assert(forall|k: int| 0 <= k < t.len() ==> t[k] == s[start + k]);
    if start < s.len() {
        lemma_leading_count_at(t, |c: char| c != '\n', t.len() as int);
        assert(t =~= s.subrange(start, s.len() as int));
    }
}

fn chop_cr(piece: &str) -> (r: String)
    ensures
        r@ == strip_cr(piece@),
{
    let n: usize = piece.unicode_len();
    if n > 0 && piece.get_char(n - 1) == '\r' {
        let r = piece.substring_char(0, n - 1).to_owned();
        proof {
            assert(piece@.subrange(0, n - 1) =~= piece@.drop_last());
        }
        r
    } else {
        piece.to_owned()
    }
}

/// Split captured output into its lines.
pub fn split_lines(text: &str) -> (r: Vec<String>)
    ensures
        r.deep_view() == lines_spec(text@),
{
    let n: usize = text.unicode_len();
    let mut out: Vec<String> = Vec::new();
    let mut start: usize = 0;
    let mut i: usize = 0;
    proof {
        assert(out.deep_view() =~= Seq::<Seq<char>>::empty());
        assert(text@.skip(0) =~= text@);
        assert(Seq::<Seq<char>>::empty() + lines_spec(text@) =~= lines_spec(text@));
    }
    while i < n
        invariant
            0 <= start <= i <= n,
            n == text@.len(),
            forall|k: int| start <= k < i ==> text@[k] != '\n',
            out.deep_view() + lines_spec(text@.skip(start as int)) == lines_spec(text@),
        decreases n - i,
    {
        if text.get_char(i) == '\n' {
            let piece = text.substring_char(start, i);
            let line = chop_cr(piece);
            proof {
                lemma_lines_step(text@, start as int, i as int);
            }
            let ghost prev = out.deep_view();
            out.push(line);
            proof {
                assert(out.deep_view() =~= prev.push(strip_cr(text@.subrange(
                    start as int,
                    i as int,
                ))));
                assert(prev.push(strip_cr(text@.subrange(start as int, i as int)))
                    + lines_spec(text@.skip(i + 1)) =~= prev + (seq![strip_cr(text@.subrange(
                    start as int,
                    i as int,
                ))] + lines_spec(text@.skip(i + 1))));
            }
            start = i + 1;
        }
        i = i + 1;
    }
    proof {
        lemma_lines_tail(text@, start as int);
    }
    if start < n {
        let piece = text.substring_char(start, n);
        let ghost prev = out.deep_view();
        out.push(piece.to_owned());
        proof {
            assert(out.deep_view() =~= prev.push(text@.subrange(start as int, n as int)));
            assert(prev.push(text@.subrange(start as int, n as int)) =~= prev + seq![
                text@.subrange(start as int, n as int),
            ]);
        }
    } else {
        proof {
            assert(out.deep_view() + Seq::<Seq<char>>::empty() =~= out.deep_view());
        }
    }
    out
}

} // verus!
