use branchstat::{
    ahead_behind, branches, branchstat, clean_line, count_string, file_label, is_git_repo,
    join_strings, leading_token, modified, pad_label, split_lines, status, untracked,
    version_line, wants_version,
};

fn strings(items: &[&str]) -> Vec<String> {
    items.iter().map(|s| s.to_string()).collect()
}

#[test]
fn ahead_behind_reports_tracking_token() {
    let lines = strings(&["'main [ahead 2]'"]);
    assert_eq!(ahead_behind(&lines), Some("main [ahead 2]".to_string()));
}

#[test]
fn ahead_behind_requires_second_token() {
    let lines = strings(&["'main'"]);
    assert_eq!(ahead_behind(&lines), None);
    let lines = strings(&["'main '"]);
    assert_eq!(ahead_behind(&lines), None);
}

#[test]
fn ahead_behind_empty_output_is_no_signal() {
    let lines: Vec<String> = Vec::new();
    assert_eq!(ahead_behind(&lines), None);
}

#[test]
fn ahead_behind_fuses_qualifying_lines() {
    let lines = strings(&["'one [ahead 1]'", "'two'", "'three [behind 4]'"]);
    assert_eq!(
        ahead_behind(&lines),
        Some("one [ahead 1]three [behind 4]".to_string())
    );
}

#[test]
fn modified_extracts_count() {
    let lines = strings(&["1 file changed, 3 insertions(+)"]);
    assert_eq!(modified(&lines), Some("1\u{b1}".to_string()));
}

#[test]
fn modified_trims_leading_space() {
    let lines = strings(&[" 2 files changed, 3 insertions(+), 1 deletion(-)"]);
    assert_eq!(modified(&lines), Some("2\u{b1}".to_string()));
}

#[test]
fn modified_without_changed_is_no_signal() {
    let empty: Vec<String> = Vec::new();
    assert_eq!(modified(&empty), None);
    let lines = strings(&["nothing to report"]);
    assert_eq!(modified(&lines), None);
}

#[test]
fn staged_counts_lines() {
    let lines = strings(&[" file.txt | 1 +"]);
    assert_eq!(status(&lines), Some("Staged 1".to_string()));
}

#[test]
fn staged_counts_every_line_even_summaries() {
    let lines = strings(&[" file.txt | 1 +", " 1 file changed, 1 insertion(+)"]);
    assert_eq!(status(&lines), Some("Staged 2".to_string()));
}

#[test]
fn staged_empty_is_no_signal() {
    let lines: Vec<String> = Vec::new();
    assert_eq!(status(&lines), None);
}

#[test]
fn untracked_counts_files() {
    let lines = strings(&["new.txt", "other.txt"]);
    assert_eq!(untracked(&lines), Some("2?".to_string()));
}

#[test]
fn untracked_counts_many_files() {
    let names: Vec<String> = (0..12).map(|i| format!("file{}", i)).collect();
    assert_eq!(untracked(&names), Some("12?".to_string()));
}

#[test]
fn untracked_empty_is_no_signal() {
    let lines: Vec<String> = Vec::new();
    assert_eq!(untracked(&lines), None);
}

#[test]
fn aggregator_no_signals_no_result() {
    let empty: Vec<String> = Vec::new();
    let out = branchstat("/home/user/repo", &empty, &empty, &empty, &empty);
    assert_eq!(out, None);
}

#[test]
fn aggregator_quiet_tracked_branch_no_result() {
    let tracking = strings(&["'main'"]);
    let empty: Vec<String> = Vec::new();
    let out = branchstat("/home/user/repo", &tracking, &empty, &empty, &empty);
    assert_eq!(out, None);
}

#[test]
fn aggregator_joins_in_fixed_order() {
    let tracking = strings(&["'main [ahead 1]'"]);
    let diff = strings(&["1 file changed, 2 insertions(+)"]);
    let staged = strings(&[" a.txt | 1 +"]);
    let untracked_files = strings(&["b.txt"]);
    let out = branchstat("/home/user/repo", &tracking, &diff, &staged, &untracked_files);
    let expected = format!(
        "{:20} | {}",
        "repo",
        "main [ahead 1], 1\u{b1}, Staged 1, 1?"
    );
    assert_eq!(out, Some(expected));
}

#[test]
fn aggregator_drops_absent_signals_keeps_order() {
    let tracking = strings(&["'main [ahead 1]'"]);
    let empty: Vec<String> = Vec::new();
    let staged = strings(&[" a.txt | 1 +"]);
    let untracked_files = strings(&["b.txt", "c.txt"]);
    let out = branchstat("/home/user/repo", &tracking, &empty, &staged, &untracked_files);
    let expected = format!("{:20} | {}", "repo", "main [ahead 1], Staged 1, 2?");
    assert_eq!(out, Some(expected));
}

#[test]
fn aggregator_is_idempotent() {
    let tracking = strings(&["'main [behind 3]'"]);
    let diff = strings(&["1 file changed"]);
    let staged = strings(&[" a | 1"]);
    let untracked_files = strings(&["u"]);
    let first = branchstat("/srv/work", &tracking, &diff, &staged, &untracked_files);
    let second = branchstat("/srv/work", &tracking, &diff, &staged, &untracked_files);
    assert_eq!(first, second);
}

#[test]
fn label_is_final_component_whatever_the_depth() {
    assert_eq!(file_label("/a/b/c/repo"), "repo".to_string());
    assert_eq!(file_label("/repo"), "repo".to_string());
    assert_eq!(file_label("repo"), "repo".to_string());
    let deep = branchstat(
        "/very/deep/nested/path/repo",
        &strings(&["'m [ahead 1]'"]),
        &Vec::new(),
        &Vec::new(),
        &Vec::new(),
    );
    let shallow = branchstat(
        "/repo",
        &strings(&["'m [ahead 1]'"]),
        &Vec::new(),
        &Vec::new(),
        &Vec::new(),
    );
    assert_eq!(deep, shallow);
}

#[test]
fn long_label_is_not_truncated() {
    let name = "a-directory-name-well-over-twenty-chars".to_string();
    assert_eq!(pad_label(&name, 20), name);
}

#[test]
fn short_label_is_padded_to_width() {
    let padded = pad_label(&"repo".to_string(), 20);
    assert_eq!(padded.len(), 20);
    assert_eq!(padded, format!("{:20}", "repo"));
}

#[test]
fn version_line_is_fixed() {
    assert_eq!(version_line(), "git-branchstat 0.1.0".to_string());
}

#[test]
fn version_argument_is_recognised() {
    assert!(wants_version(&strings(&["version"])));
    assert!(wants_version(&strings(&["version", "extra"])));
    assert!(!wants_version(&strings(&["inspect"])));
    assert!(!wants_version(&Vec::new()));
}

#[test]
fn repo_probe_rejects_only_the_dedicated_code() {
    assert!(!is_git_repo(Some(128)));
    assert!(is_git_repo(Some(0)));
    assert!(is_git_repo(Some(1)));
    assert!(is_git_repo(None));
}

#[test]
fn split_lines_handles_final_newline() {
    assert_eq!(split_lines("a\nb\n"), vec!["a".to_string(), "b".to_string()]);
    assert_eq!(split_lines("a\nb"), vec!["a".to_string(), "b".to_string()]);
}

#[test]
fn split_lines_strips_carriage_returns_only_at_line_ends() {
    assert_eq!(split_lines("a\r\nb"), vec!["a".to_string(), "b".to_string()]);
    assert_eq!(split_lines("a\rb"), vec!["a\rb".to_string()]);
    assert_eq!(split_lines("\r"), vec!["\r".to_string()]);
}

#[test]
fn split_lines_keeps_inner_empty_lines() {
    assert_eq!(split_lines(""), Vec::<String>::new());
    assert_eq!(split_lines("\n"), vec!["".to_string()]);
    assert_eq!(
        split_lines("a\n\nb"),
        vec!["a".to_string(), "".to_string(), "b".to_string()]
    );
}

#[test]
fn clean_line_strips_quotes_then_whitespace() {
    assert_eq!(clean_line("'main [ahead 1]'"), "main [ahead 1]".to_string());
    assert_eq!(clean_line("  'x'  "), "'x'".to_string());
    assert_eq!(clean_line("'  spaced  '"), "spaced".to_string());
}

#[test]
fn leading_token_skips_leading_whitespace() {
    assert_eq!(leading_token("  1 file changed"), "1".to_string());
    assert_eq!(leading_token("word"), "word".to_string());
    assert_eq!(leading_token(""), "".to_string());
}

#[test]
fn count_string_renders_decimal() {
    assert_eq!(count_string(0), "0".to_string());
    assert_eq!(count_string(7), "7".to_string());
    assert_eq!(count_string(10), "10".to_string());
    assert_eq!(count_string(255), "255".to_string());
}

#[test]
fn join_strings_uses_separator_between_entries() {
    assert_eq!(join_strings(&strings(&["a", "b", "c"]), ", "), "a, b, c".to_string());
    assert_eq!(join_strings(&strings(&["a"]), ", "), "a".to_string());
    assert_eq!(join_strings(&Vec::new(), ", "), "".to_string());
}

#[test]
fn branches_lists_checked_out_branch() {
    let lines = strings(&["* main", "  dev"]);
    let out = branches("parent", "dir", &lines);
    assert_eq!(out, format!("{:40}\t{}", "parent/dir", "main"));
}
