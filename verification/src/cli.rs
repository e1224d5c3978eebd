//! Decisions of the entry point, kept as plain functions over plain values:
//! the version argument, the repository-validity probe, and the auxiliary
//! multi-repository line built from a plain branch listing.

use vstd::prelude::*;
use vstd::string::StrSliceExecFns;
use vstd::string::StringExecFns;
use crate::aggregate::{pad_label, pad_spec};
use crate::text::{trim_blanks, trim_spec};

verus! {

/// The backend's exit code that marks a directory that is no repository.
pub const NOT_A_REPO_CODE: i32 = 128;

/// A directory counts as a repository unless the branch-listing probe exited
/// with the one code that denies it.
pub open spec fn repo_probe_spec(code: Option<i32>) -> bool {
    code != Some(NOT_A_REPO_CODE)
}

/// Decide the validity probe from the backend's exit code: only the one
/// dedicated exit code means "not a repository"; any other outcome, an
/// unrelated failure included, is deliberately taken as valid.
pub fn is_git_repo(code: Option<i32>) -> (r: bool)
    ensures
        r == repo_probe_spec(code),
{
    match code {
        Some(c) => c != NOT_A_REPO_CODE,
        None => true,
    }
}

/// The line printed for the version argument.
pub fn version_line() -> (r: String)
    ensures
        r@ == "git-branchstat 0.1.0"@,
{
    String::from_str("git-branchstat 0.1.0")
}

/// The first argument, when there is one, asks for the version.
pub open spec fn version_requested(args: Seq<Seq<char>>) -> bool {
    args.len() > 0 && args[0] == "version"@
}

/// Decide whether the arguments ask for the version line instead of an
/// inspection.
pub fn wants_version(args: &Vec<String>) -> (r: bool)
    ensures
        r == version_requested(args.deep_view()),
{
    proof {
        assert(args.deep_view().len() == args@.len());
    }
    if args.len() > 0 {
        let v = String::from_str("version");
        proof {
            assert(args.deep_view()[0] == args@[0]@);
        }
        args[0].eq(&v)
    } else {
        false
    }
}

/// A trimmed branch-listing line that marks the checked-out branch.
pub open spec fn starred(l: Seq<char>) -> bool {
    trim_spec(l).len() >= 1 && trim_spec(l)[0] == '*'
}

/// The names of the checked-out branches, marker and separator dropped,
/// fused in input order.
pub open spec fn starred_names(lines: Seq<Seq<char>>) -> Seq<char>
    decreases lines.len(),
{
    if lines.len() == 0 {
        Seq::empty()
    } else {
        starred_names(lines.drop_last()) + if starred(lines.last()) {
            trim_spec(lines.last()).skip(2)
        } else {
            Seq::empty()
        }
    }
}

/// The line of the multi-repository helper: parent and directory name joined
/// with a slash, padded to forty characters, a tab, then the checked-out
/// branch names.
pub open spec fn branches_spec(
    parent_stem: Seq<char>,
    dir_stem: Seq<char>,
    lines: Seq<Seq<char>>,
) -> Seq<char> {
    pad_spec(parent_stem + "/"@ + dir_stem, 40) + "\t"@ + starred_names(lines)
}

/// Build the multi-repository helper's line from the two path stems and the
/// lines of a plain branch listing.  A marked line must keep at least the
/// marker and its separator once trimmed.
pub fn branches(parent_stem: &str, dir_stem: &str, lines: &Vec<String>) -> (r: String)
    requires
        forall|k: int|
            0 <= k < lines.deep_view().len() && starred(#[trigger] lines.deep_view()[k])
                ==> trim_spec(lines.deep_view()[k]).len() >= 2,
    ensures
        r@ == branches_spec(parent_stem@, dir_stem@, lines.deep_view()),
{
    let ghost ls = lines.deep_view();
    let mut names = String::new();
    let mut i: usize = 0;
    while i < lines.len()
        invariant
            0 <= i <= lines@.len(),
            ls == lines.deep_view(),
            ls.len() == lines@.len(),
            forall|k: int|
                0 <= k < ls.len() && starred(#[trigger] ls[k]) ==> trim_spec(ls[k]).len() >= 2,
            names@ == starred_names(ls.take(i as int)),
        decreases lines@.len() - i,
    {
        proof {
            assert(ls[i as int] == lines@[i as int]@);
            assert(ls.take(i + 1).drop_last() =~= ls.take(i as int));
            assert(ls.take(i + 1).last() == ls[i as int]);
        }
        let t = trim_blanks(lines[i].as_str());
        let n: usize = t.as_str().unicode_len();
        if n >= 1 && t.as_str().get_char(0) == '*' {
            let name = t.as_str().substring_char(2, n);
            names.append(name);
            proof {
                assert(t@.subrange(2, n as int) =~= t@.skip(2));
            }
        } else {
            proof {
                assert(names@ + Seq::<char>::empty() =~= names@);
            }
        }
        i = i + 1;
    }
    proof {
        assert(ls.take(ls.len() as int) =~= ls);
    }
    let mut head = String::from_str(parent_stem);
    head.append("/");
    head.append(dir_stem);
    let mut out = pad_label(&head, 40);
    out.append("\t");
    out.append(names.as_str());
    out
}

} // verus!
