//! The aggregator: run the four extractors' results together into one status
//! line.  The signals that have something to say are joined with `", "` in
//! the fixed order ahead/behind, modified, staged, untracked, and the line is
//! headed by the directory's name padded to a fixed width.

use vstd::prelude::*;
use vstd::string::StrSliceExecFns;
use vstd::string::StringExecFns;
use rayon::iter::IntoParallelRefIterator;
use rayon::iter::ParallelIterator;
use vstd::pervasive::unreached;
use crate::signals::{
    ahead_behind,
    ahead_behind_spec,
    modified,
    modified_spec,
    staged_spec,
    status,
    untracked,
    untracked_spec,
};
use crate::text::{join_spec, join_strings};

verus! {

/// The width the label is padded to.
pub const LABEL_WIDTH: usize = 20;

/// The final path component: the characters after the last separator.
pub open spec fn label_spec(path: Seq<char>) -> Seq<char>
    decreases path.len(),
{
    if path.len() == 0 || path.last() == '/' {
        Seq::empty()
    } else {
        label_spec(path.drop_last()).push(path.last())
    }
}

/// `l` padded on the right with spaces to at least `width` characters.
pub open spec fn pad_spec(l: Seq<char>, width: nat) -> Seq<char> {
    if l.len() >= width {
        l
    } else {
        l + Seq::new((width - l.len()) as nat, |i: int| ' ')
    }
}

/// One entry per present signal.
pub open spec fn opt_entry(o: Option<Seq<char>>) -> Seq<Seq<char>> {
    match o {
        Some(s) => seq![s],
        None => Seq::empty(),
    }
}

/// The signals that have something to say, in the fixed order ahead/behind,
/// modified, staged, untracked.
pub open spec fn signal_list(
    ahead: Option<Seq<char>>,
    modified: Option<Seq<char>>,
    staged: Option<Seq<char>>,
    untracked: Option<Seq<char>>,
) -> Seq<Seq<char>> {
    opt_entry(ahead) + opt_entry(modified) + opt_entry(staged) + opt_entry(untracked)
}

/// The status line built from the four signals, or nothing when no signal
/// has anything to say.
pub open spec fn aggregate_spec(
    path: Seq<char>,
    ahead: Option<Seq<char>>,
    modified: Option<Seq<char>>,
    staged: Option<Seq<char>>,
    untracked: Option<Seq<char>>,
) -> Option<Seq<char>> {
    let joined = join_spec(signal_list(ahead, modified, staged, untracked), ", "@);
    if joined.len() == 0 {
        None
    } else {
        Some(pad_spec(label_spec(path), LABEL_WIDTH as nat) + " | "@ + joined)
    }
}

/// The whole pipeline: each query's lines reduced to its signal, then the
/// signals aggregated under the label taken from `path`.
pub open spec fn branchstat_spec(
    path: Seq<char>,
    tracking_lines: Seq<Seq<char>>,
    diff_lines: Seq<Seq<char>>,
    staged_lines: Seq<Seq<char>>,
    untracked_lines: Seq<Seq<char>>,
) -> Option<Seq<char>> {
    aggregate_spec(
        path,
        ahead_behind_spec(tracking_lines),
        modified_spec(diff_lines),
        staged_spec(staged_lines),
        untracked_spec(untracked_lines),
    )
}

/// The label located by the first index after the last separator.
proof fn lemma_label_at(path: Seq<char>, i: int)
    requires
        0 <= i <= path.len(),
        forall|k: int| i <= k < path.len() ==> path[k] != '/',
        i == 0 || path[i - 1] == '/',
    ensures
        label_spec(path) == path.subrange(i, path.len() as int),
    decreases path.len() - i,
{
    if i == path.len() {
        if path.len() > 0 {
            assert(path.last() == '/');
        }
        assert(path.subrange(i, path.len() as int) =~= Seq::<char>::empty());
    } else {
        let t = path.drop_last();
        if i == t.len() {
            assert(label_spec(t) == t.subrange(i, t.len() as int)) by {
                lemma_label_at(t, i);
            }
            assert(t.subrange(i, t.len() as int) =~= Seq::<char>::empty());
        } else {
            lemma_label_at(t, i);
        }
        assert(label_spec(path) == label_spec(t).push(path.last()));
        assert(t.subrange(i, t.len() as int).push(path.last()) =~= path.subrange(
            i,
            path.len() as int,
        ));
    }
}

/// The final path component of `path`.
pub fn file_label(path: &str) -> (r: String)
    requires
        path@.len() > 0,
        path@.last() != '/',
    ensures
        r@ == label_spec(path@),
{
    let n: usize = path.unicode_len();
    let mut i: usize = n;
    while i > 0 && path.get_char(i - 1) != '/'
        invariant
            0 <= i <= n,
            n == path@.len(),
            forall|k: int| i <= k < n ==> path@[k] != '/',
        decreases i,
    {
        i = i - 1;
    }
    proof {
        lemma_label_at(path@, i as int);
    }
    path.substring_char(i, n).to_owned()
}

/// `label` padded on the right with spaces to at least `width` characters.
pub fn pad_label(label: &String, width: usize) -> (r: String)
    ensures
        r@ == pad_spec(label@, width as nat),
{
    let n: usize = label.as_str().unicode_len();
    let mut out = label.clone();
    let mut i: usize = n;
    proof {
        assert(label@ + Seq::new(0, |k: int| ' ') =~= label@);
    }
    while i < width
        invariant
            n <= i,
            n == label@.len(),
            i <= width || i == n,
            out@ == label@ + Seq::new((i - n) as nat, |k: int| ' '),
        decreases width - i,
    {
        out.push(' ');
        proof {
            assert((label@ + Seq::new((i - n) as nat, |k: int| ' ')).push(' ') =~= label@
                + Seq::new((i + 1 - n) as nat, |k: int| ' '));
        }
        i = i + 1;
    }
    proof {
        if n >= width {
            assert(out@ =~= label@);
        }
    }
    out
}

fn signal_present(o: &Option<String>) -> (r: bool)
    ensures
        r == (o is Some),
{
    match o {
        Some(_) => true,
        None => false,
    }
}

fn signal_text(o: &Option<String>) -> (r: String)
    requires
        o is Some,
    ensures
        r@ == o->0@,
{
    match o {
        Some(s) => s.clone(),
        None => unreached(),
    }
}

/// Relies on rayon's `par_iter().filter(..).map(..).collect::<Vec<_>>()`:
/// collecting a filtered parallel iterator into a vector keeps the surviving
/// elements in their input order, because the per-split results are reduced
/// left to right.  The closures only call this crate's verified
/// `signal_present` and `signal_text`.
#[verifier::external_body]
fn par_present(signals: &Vec<Option<String>>) -> (r: Vec<String>)
    ensures
        r.deep_view() == signals.deep_view().filter_map(|o: Option<Seq<char>>| o),
{
    signals.par_iter().filter(|x| signal_present(x)).map(|x| signal_text(x)).collect()
}

/// The present signals of the four, in their fixed order.
proof fn lemma_filter_map_four(
    a: Option<Seq<char>>,
    m: Option<Seq<char>>,
    st: Option<Seq<char>>,
    u: Option<Seq<char>>,
)
    ensures
        seq![a, m, st, u].filter_map(|o: Option<Seq<char>>| o) == signal_list(a, m, st, u),
{
    let f = |o: Option<Seq<char>>| o;
    let s4 = seq![a, m, st, u];
    let s3 = seq![a, m, st];
    let s2 = seq![a, m];
    let s1 = seq![a];
    let s0 = Seq::<Option<Seq<char>>>::empty();
    assert(s4.drop_last() =~= s3);
    assert(s3.drop_last() =~= s2);
    assert(s2.drop_last() =~= s1);
    assert(s1.drop_last() =~= s0);
    assert(s0.filter_map(f) =~= Seq::<Seq<char>>::empty());
    assert(s1.filter_map(f) =~= opt_entry(a));
    assert(s2.filter_map(f) =~= opt_entry(a) + opt_entry(m));
    assert(s3.filter_map(f) =~= opt_entry(a) + opt_entry(m) + opt_entry(st));
    assert(s4.filter_map(f) =~= signal_list(a, m, st, u));
}

/// Join the four signals under the padded label from `path`.
pub fn aggregate(
    path: &str,
    ahead: Option<String>,
    modified: Option<String>,
    staged: Option<String>,
    untracked: Option<String>,
) -> (r: Option<String>)
    requires
        path@.len() > 0,
        path@.last() != '/',
    ensures
        r.deep_view() == aggregate_spec(
            path@,
            ahead.deep_view(),
            modified.deep_view(),
            staged.deep_view(),
            untracked.deep_view(),
        ),
{
    let ghost a = ahead.deep_view();
    let ghost m = modified.deep_view();
    let ghost st = staged.deep_view();
    let ghost u = untracked.deep_view();
    let mut signals: Vec<Option<String>> = Vec::new();
    signals.push(ahead);
    signals.push(modified);
    signals.push(staged);
    signals.push(untracked);
    proof {
        assert(signals.deep_view() =~= seq![a, m, st, u]);
        lemma_filter_map_four(a, m, st, u);
    }
    let present = par_present(&signals);
    let joined = join_strings(&present, ", ");
    if joined.as_str().unicode_len() == 0 {
        None
    } else {
        let label = file_label(path);
        let mut out = pad_label(&label, LABEL_WIDTH);
        out.append(" | ");
        out.append(joined.as_str());
        Some(out)
    }
}

/// The whole pipeline over the four queries' lines: extract each signal,
/// then aggregate them under the label taken from `path`.
pub fn branchstat(
    path: &str,
    tracking_lines: &Vec<String>,
    diff_lines: &Vec<String>,
    staged_lines: &Vec<String>,
    untracked_lines: &Vec<String>,
) -> (r: Option<String>)
    requires
        path@.len() > 0,
        path@.last() != '/',
    ensures
        r.deep_view() == branchstat_spec(
            path@,
            tracking_lines.deep_view(),
            diff_lines.deep_view(),
            staged_lines.deep_view(),
            untracked_lines.deep_view(),
        ),
{
    let a = ahead_behind(tracking_lines);
    let m = modified(diff_lines);
    let st = status(staged_lines);
    let u = untracked(untracked_lines);
    aggregate(path, a, m, st, u)
}

/// Law: in a non-empty result the signals stand joined in the fixed order
/// ahead/behind, modified, staged, untracked, whatever order the four
/// queries completed in.
pub proof fn lemma_signal_order(
    path: Seq<char>,
    ahead: Option<Seq<char>>,
    modified: Option<Seq<char>>,
    staged: Option<Seq<char>>,
    untracked: Option<Seq<char>>,
)
    requires
        aggregate_spec(path, ahead, modified, staged, untracked) is Some,
    ensures
        aggregate_spec(path, ahead, modified, staged, untracked)->0 == pad_spec(
            label_spec(path),
            LABEL_WIDTH as nat,
        ) + " | "@ + join_spec(
            opt_entry(ahead) + opt_entry(modified) + opt_entry(staged) + opt_entry(untracked),
            ", "@,
        ),
{
}

/// Law: when all four extractors have nothing to say, the aggregator
/// returns no result at all.
pub proof fn lemma_all_absent_no_result(path: Seq<char>)
    ensures
        aggregate_spec(path, None, None, None, None) is None,
{
    assert(signal_list(None, None, None, None) =~= Seq::<Seq<char>>::empty());
}

/// Law: a result that is present is never the empty string.
pub proof fn lemma_present_result_nonempty(
    path: Seq<char>,
    ahead: Option<Seq<char>>,
    modified: Option<Seq<char>>,
    staged: Option<Seq<char>>,
    untracked: Option<Seq<char>>,
)
    requires
        aggregate_spec(path, ahead, modified, staged, untracked) is Some,
    ensures
        aggregate_spec(path, ahead, modified, staged, untracked)->0.len() > 0,
{
}

/// Law: the label depends on the final path component alone, not on the
/// directories above it.
pub proof fn lemma_label_depth_independent(dir: Seq<char>, name: Seq<char>)
    requires
        name.len() > 0,
        forall|k: int| 0 <= k < name.len() ==> name[k] != '/',
    ensures
        label_spec(dir + seq!['/'] + name) == name,
    decreases name.len(),
{
    let s = dir + seq!['/'] + name;
    assert(s.last() == name.last());
    if name.len() == 1 {
        assert(s.drop_last() =~= dir + seq!['/']);
        assert((dir + seq!['/']).last() == '/');
        assert(name[0] != '/');
        assert(label_spec(s) == label_spec(s.drop_last()).push(s.last()));
        assert(label_spec(dir + seq!['/']) == Seq::<char>::empty());
        assert(Seq::<char>::empty().push(name[0]) =~= name);
    } else {
        assert(s.drop_last() =~= dir + seq!['/'] + name.drop_last());
        assert(forall|k: int| 0 <= k < name.len() - 1 ==> name.drop_last()[k] == name[k]);
        lemma_label_depth_independent(dir, name.drop_last());
        assert(name[name.len() - 1] != '/');
        assert(label_spec(s) == label_spec(s.drop_last()).push(s.last()));
        assert(name.drop_last().push(name.last()) =~= name);
        assert(label_spec(s) =~= name);
    }
}

/// Law: the aggregation is a function of the repository's state alone, so
/// two runs against an unchanged repository yield identical output.
pub proof fn lemma_aggregator_idempotent(
    path: Seq<char>,
    tracking_lines: Seq<Seq<char>>,
    diff_lines: Seq<Seq<char>>,
    staged_lines: Seq<Seq<char>>,
    untracked_lines: Seq<Seq<char>>,
    first: Option<Seq<char>>,
    second: Option<Seq<char>>,
)
    requires
        first == branchstat_spec(path, tracking_lines, diff_lines, staged_lines, untracked_lines),
        second == branchstat_spec(path, tracking_lines, diff_lines, staged_lines, untracked_lines),
    ensures
        first == second,
{
}

} // verus!
