//! The four signal extractors.  Each one reduces the lines of one backend
//! query to either no signal or a short formatted string about one aspect of
//! the repository: branch tracking, unstaged modifications, staged changes,
//! untracked files.

use vstd::prelude::*;
use vstd::string::StrSliceExecFns;
use vstd::string::StringExecFns;
use rayon::iter::IntoParallelRefIterator;
use rayon::iter::ParallelIterator;
use crate::text::{
    clean_line,
    clean_spec,
    contains_seq,
    contains_str,
    count_string,
    dec_spec,
    first_token,
    has_space,
    has_space_spec,
    join_spec,
    join_strings,
    leading_token,
};

verus! {

/// A ref-listing line qualifies when its cleaned text still holds a space,
/// i.e. a tracking token follows the ref name.
pub open spec fn qualifying(l: Seq<char>) -> bool {
    has_space_spec(clean_spec(l))
}

/// The cleaned qualifying lines fused into one string, in input order.
pub open spec fn tracking_concat(lines: Seq<Seq<char>>) -> Seq<char>
    decreases lines.len(),
{
    if lines.len() == 0 {
        Seq::empty()
    } else {
        tracking_concat(lines.drop_last()) + if qualifying(lines.last()) {
            clean_spec(lines.last())
        } else {
            Seq::empty()
        }
    }
}

/// The ahead/behind signal: the fused qualifying lines, or nothing.
pub open spec fn ahead_behind_spec(lines: Seq<Seq<char>>) -> Option<Seq<char>> {
    if tracking_concat(lines).len() == 0 {
        None
    } else {
        Some(tracking_concat(lines))
    }
}

/// Relies on rayon's `par_iter().map(..).collect::<Vec<_>>()`: an indexed
/// parallel map collected into a vector keeps each result at the position of
/// its input.  The closure only calls this crate's verified `clean_line`.
#[verifier::external_body]
fn par_clean_lines(lines: &Vec<String>) -> (r: Vec<String>)
    ensures
        r@.len() == lines@.len(),
        forall|i: int| 0 <= i < lines@.len() ==> r@[i]@ == clean_spec(lines@[i]@),
{
    lines.par_iter().map(|x| clean_line(x.as_str())).collect()
}

/// Reduce the lines of the ref-listing query (short ref name plus upstream
/// tracking annotation) to the ahead/behind signal.
pub fn ahead_behind(lines: &Vec<String>) -> (r: Option<String>)
    ensures
        r.deep_view() == ahead_behind_spec(lines.deep_view()),
{
    let ghost ls = lines.deep_view();
    let cleaned = par_clean_lines(lines);
    let mut response = String::new();
    let mut i: usize = 0;
    while i < cleaned.len()
        invariant
            0 <= i <= cleaned.len(),
            cleaned@.len() == lines@.len(),
            ls == lines.deep_view(),
            ls.len() == lines@.len(),
            forall|k: int| 0 <= k < lines@.len() ==> cleaned@[k]@ == clean_spec(lines@[k]@),
            response@ == tracking_concat(ls.take(i as int)),
        decreases cleaned.len() - i,
    {
        proof {
            assert(ls[i as int] == lines@[i as int]@);
            assert(ls.take(i + 1).drop_last() =~= ls.take(i as int));
            assert(ls.take(i + 1).last() == ls[i as int]);
        }
        if has_space(cleaned[i].as_str()) {
            response.append(cleaned[i].as_str());
        } else {
            proof {
                assert(response@ + Seq::<char>::empty() =~= response@);
            }
        }
        i = i + 1;
    }
    proof {
        assert(ls.take(ls.len() as int) =~= ls);
    }
    if response.as_str().unicode_len() == 0 {
        None
    } else {
        Some(response)
    }
}

/// The modified signal: when the joined shortstat output says something
/// `changed`, its first token followed by a plus-minus sign.
pub open spec fn modified_spec(lines: Seq<Seq<char>>) -> Option<Seq<char>> {
    let joined = join_spec(lines, seq!['\n']);
    if contains_seq(joined, "changed"@) {
        Some(first_token(joined) + "\u{b1}"@)
    } else {
        None
    }
}

/// Reduce the lines of the shortstat diff query to the modified signal.
pub fn modified(lines: &Vec<String>) -> (r: Option<String>)
    ensures
        r.deep_view() == modified_spec(lines.deep_view()),
{
    let joined = join_strings(lines, "\n");
    proof {
        reveal_strlit("\n");
        assert("\n"@ =~= seq!['\n']);
    }
    if contains_str(joined.as_str(), "changed") {
        let mut num = leading_token(joined.as_str());
        num.append("\u{b1}");
        Some(num)
    } else {
        None
    }
}

/// The staged signal: the word `Staged` and the count of stat lines, or
/// nothing when the query printed nothing.
pub open spec fn staged_spec(lines: Seq<Seq<char>>) -> Option<Seq<char>> {
    if lines.len() > 0 {
        Some("Staged "@ + dec_spec(lines.len()))
    } else {
        None
    }
}

/// Reduce the lines of the cached diff stat query to the staged signal.
pub fn status(lines: &Vec<String>) -> (r: Option<String>)
    ensures
        r.deep_view() == staged_spec(lines.deep_view()),
{
    proof {
        assert(lines.deep_view().len() == lines@.len());
    }
    if lines.len() > 0 {
        let mut s = String::from_str("Staged ");
        let count = count_string(lines.len());
        s.append(count.as_str());
        Some(s)
    } else {
        None
    }
}

/// The untracked signal: the count of untracked files and a question mark,
/// or nothing when there are none.
pub open spec fn untracked_spec(lines: Seq<Seq<char>>) -> Option<Seq<char>> {
    if lines.len() > 0 {
        Some(dec_spec(lines.len()) + "?"@)
    } else {
        None
    }
}

/// Reduce the lines of the untracked-files query to the untracked signal.
pub fn untracked(lines: &Vec<String>) -> (r: Option<String>)
    ensures
        r.deep_view() == untracked_spec(lines.deep_view()),
{
    proof {
        assert(lines.deep_view().len() == lines@.len());
    }
    if lines.len() > 0 {
        let mut s = count_string(lines.len());
        s.append("?");
        Some(s)
    } else {
        None
    }
}

} // verus!
