use diwa::extract::{build_prompt, format_commit, hydrate, shorten, RawInsight};
use diwa::git::CommitData;

fn dummy_commits() -> Vec<CommitData> {
    vec![CommitData {
        sha: "abc1234".to_string(),
        message: "feat: add pull-based rendering".to_string(),
        diff: "+function pull() {}".to_string(),
        date: "2026-03-28T00:00:00Z".to_string(),
        author: "dev".to_string(),
        files: vec!["lib/pull-manager.js".to_string()],
        pr_title: None,
        pr_body: None,
        review_comments: None,
    }]
}

#[test]
fn test_hydrate_with_matching_commit() {
    let raw = vec![RawInsight {
        commit_sha: Some("abc1234".into()),
        category: Some("decision".into()),
        title: "Test".into(),
        body: "Body".into(),
        files: Some(vec!["a.rs".into()]),
        tags: Some("test".into()),
    }];
    let results = hydrate(raw, &dummy_commits());
    assert_eq!(results.len(), 1);
    assert_eq!(results[0].source_type, "git");
    assert!(results[0].pr_number.is_none());
}

#[test]
fn test_hydrate_without_matching_commit() {
    let raw = vec![RawInsight {
        commit_sha: Some("zzz0000".into()),
        category: None,
        title: "Test".into(),
        body: "Body".into(),
        files: None,
        tags: None,
    }];
    let results = hydrate(raw, &dummy_commits());
    assert_eq!(results.len(), 1);
    assert_eq!(results[0].category, "learning");
    assert!(results[0].files.is_empty());
}

#[test]
fn test_format_commit_with_pr() {
    let commit = CommitData {
        sha: "abc".into(),
        message: "feat: thing".into(),
        diff: String::new(),
        date: "2026-01-01".into(),
        author: "dev".into(),
        files: vec!["a.rs".into()],
        pr_title: Some("Add thing (#42)".into()),
        pr_body: Some("This PR adds thing.".into()),
        review_comments: Some(vec!["Looks good".into()]),
    };
    let formatted = format_commit(&commit);
    assert!(formatted.contains("PR: Add thing"));
    assert!(formatted.contains("PR body:"));
    assert!(formatted.contains("Review comment 1:"));
}

#[test]
fn hydrate_takes_date_and_source_from_the_matching_commit() {
    let mut commits = dummy_commits();
    commits[0].pr_body = Some("pr".into());
    let raw = vec![RawInsight {
        commit_sha: Some("abc".into()),
        category: Some("bugfix".into()),
        title: "T".into(),
        body: "B".into(),
        files: None,
        tags: None,
    }];
    let results = hydrate(raw, &commits);
    assert_eq!(results[0].commit_sha, "abc");
    assert_eq!(results[0].commit_date, "2026-03-28T00:00:00Z");
    assert_eq!(results[0].source_type, "git+gh");
    assert_eq!(results[0].pr_number, None);
    assert!(results[0].files.is_empty());
}

#[test]
fn hydrate_without_a_sha_uses_the_first_commit() {
    let raw = vec![RawInsight {
        commit_sha: None,
        category: None,
        title: "T".into(),
        body: "B".into(),
        files: None,
        tags: Some("t".into()),
    }];
    let results = hydrate(raw, &dummy_commits());
    assert_eq!(results[0].commit_sha, "abc1234");
    assert_eq!(results[0].commit_date, "2026-03-28T00:00:00Z");
    assert_eq!(results[0].tags, "t");
}

#[test]
fn commit_entries_list_sha_author_date_files_and_message() {
    let formatted = format_commit(&dummy_commits()[0]);
    assert_eq!(
        formatted,
        "### abc1234 by dev on 2026-03-28T00:00:00Z\nfeat: add pull-based rendering\nFiles: lib/pull-manager.js\nDiff:\n+function pull() {}\n\n"
    );
}

#[test]
fn extraction_prompt_holds_every_commit() {
    let mut commits = dummy_commits();
    let mut second = commits[0].clone();
    second.sha = "def5678".into();
    commits.push(second);
    let prompt = build_prompt(&commits);
    assert!(prompt.contains("abc1234"));
    assert!(prompt.contains("def5678"));
}

#[test]
fn shorten_keeps_short_text_and_cuts_long_text() {
    assert_eq!(shorten("abc", 10), "abc");
    assert_eq!(shorten(&"y".repeat(50), 10), "yyyyyyyyyy...");
    assert_eq!(shorten("h\u{e9}llo", 3), "h\u{e9}...");
}
