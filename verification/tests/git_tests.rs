use diwa::git::{batch_commits, filter_noise, is_noise_message, parse_file_list, parse_log, truncate_diff, CommitData};

fn make_commit(sha: &str, msg: &str) -> CommitData {
    CommitData {
        sha: sha.into(),
        message: msg.into(),
        diff: String::new(),
        date: String::new(),
        author: String::new(),
        files: Vec::new(),
        pr_title: None,
        pr_body: None,
        review_comments: None,
    }
}

#[test]
fn test_batch_commits() {
    let commits: Vec<CommitData> = (0..23)
        .map(|i| CommitData {
            sha: format!("sha{i}"),
            message: format!("commit {i}"),
            diff: String::new(),
            date: String::new(),
            author: String::new(),
            files: Vec::new(),
            pr_title: None,
            pr_body: None,
            review_comments: None,
        })
        .collect();

    let batches = batch_commits(commits, 5);
    assert_eq!(batches.len(), 5); // 5+5+5+5+3
    assert_eq!(batches[0].len(), 5);
    assert_eq!(batches[4].len(), 3);
}

#[test]
fn test_filter_noise() {
    let commits = vec![
        make_commit("a", "feat: add new feature"),
        make_commit("b", "formula: update to v0.43.3"),
        make_commit("c", "release: v0.43.3"),
    ];

    let filtered = filter_noise(commits);
    assert_eq!(filtered.len(), 1);
    assert_eq!(filtered[0].sha, "a");
}

#[test]
fn test_filter_noise_merge_commits() {
    let commits = vec![
        make_commit("a", "feat: something"),
        make_commit("b", "Merge pull request #42 from owner/branch"),
        make_commit("c", "Merge branch 'main' into feature"),
    ];
    let filtered = filter_noise(commits);
    assert_eq!(filtered.len(), 1);
}

#[test]
fn test_filter_noise_keeps_fixes_and_refactors() {
    let commits = vec![
        make_commit("a", "fix: resolve race condition"),
        make_commit("b", "refactor: simplify state machine"),
        make_commit("c", "chore: bump version to 0.5.0"),
    ];
    let filtered = filter_noise(commits);
    assert_eq!(filtered.len(), 2);
    assert_eq!(filtered[0].sha, "a");
    assert_eq!(filtered[1].sha, "b");
}

#[test]
fn test_batch_empty() {
    let batches = batch_commits(vec![], 5);
    assert!(batches.is_empty());
}

#[test]
fn test_batch_single() {
    let commits = vec![make_commit("a", "one")];
    let batches = batch_commits(commits, 5);
    assert_eq!(batches.len(), 1);
    assert_eq!(batches[0].len(), 1);
}

#[test]
fn test_batch_exact_fit() {
    let commits: Vec<_> = (0..10).map(|i| make_commit(&format!("{i}"), "msg")).collect();
    let batches = batch_commits(commits, 5);
    assert_eq!(batches.len(), 2);
    assert_eq!(batches[0].len(), 5);
    assert_eq!(batches[1].len(), 5);
}

#[test]
fn batches_put_back_together_give_the_commits_in_order() {
    let commits: Vec<_> = (0..7).map(|i| make_commit(&format!("s{i}"), "m")).collect();
    let batches = batch_commits(commits, 3);
    let shas: Vec<String> = batches.iter().flatten().map(|c| c.sha.clone()).collect();
    assert_eq!(shas, vec!["s0", "s1", "s2", "s3", "s4", "s5", "s6"]);
    assert_eq!(batches.iter().map(|b| b.len()).collect::<Vec<_>>(), vec![3, 3, 1]);
}

#[test]
fn filtering_twice_changes_nothing_more() {
    let commits = vec![
        make_commit("a", "feat: x"),
        make_commit("b", "Bump version"),
        make_commit("c", "docs: y"),
    ];
    let once = filter_noise(commits);
    let once_shas: Vec<String> = once.iter().map(|c| c.sha.clone()).collect();
    let twice = filter_noise(once);
    let twice_shas: Vec<String> = twice.iter().map(|c| c.sha.clone()).collect();
    assert_eq!(once_shas, twice_shas);
}

#[test]
fn noise_prefixes_ignore_case() {
    assert!(is_noise_message("RELEASE: v1"));
    assert!(is_noise_message("merge branch 'x'"));
    assert!(!is_noise_message("feat: release notes"));
}

#[test]
fn log_records_are_split_into_fields() {
    let text = "---SIPAG-COMMIT-SEP---abc---SIPAG-FIELD-SEP---msg one\n---SIPAG-FIELD-SEP---2026-01-01T00:00:00Z---SIPAG-FIELD-SEP---Alice\n---SIPAG-COMMIT-SEP---def---SIPAG-FIELD-SEP---msg two---SIPAG-FIELD-SEP---2026-01-02T00:00:00Z---SIPAG-FIELD-SEP---Bob";
    let entries = parse_log(text);
    assert_eq!(entries.len(), 2);
    assert_eq!(entries[0].sha, "abc");
    assert_eq!(entries[0].message, "msg one");
    assert_eq!(entries[0].date, "2026-01-01T00:00:00Z");
    assert_eq!(entries[0].author, "Alice");
    assert_eq!(entries[1].author, "Bob");
}

#[test]
fn log_records_missing_fields_are_skipped() {
    let text = "preamble---SIPAG-COMMIT-SEP---abc---SIPAG-FIELD-SEP---only two";
    assert!(parse_log(text).is_empty());
}

#[test]
fn file_lists_drop_blank_lines() {
    let files = parse_file_list("a.rs\n\n  \nb.rs\n");
    assert_eq!(files, vec!["a.rs".to_string(), "b.rs".to_string()]);
}

#[test]
fn long_diffs_are_cut_with_a_marker() {
    let long = "x".repeat(20_000);
    let cut = truncate_diff(&long);
    assert_eq!(cut, format!("{}\n... (truncated)", "x".repeat(2000)));
    assert_eq!(truncate_diff("short"), "short");
}
