use diwa::db::{decode_files, sanitize_fts_query, Insight};

fn sample_insight() -> Insight {
    Insight {
        commit_sha: "abc1234".to_string(),
        commit_date: "2026-03-28T00:00:00Z".to_string(),
        category: "decision".to_string(),
        title: "Switched to pull-based terminal rendering".to_string(),
        body: "Push-based rendering caused garbled text on iPad tab switches due to a race condition between PTY resize and buffer serialization.".to_string(),
        files: vec!["lib/session-manager.js".to_string(), "lib/pull-manager.js".to_string()],
        tags: "rendering architecture ipad".to_string(),
        source_type: "git".to_string(),
        pr_number: Some(417),
    }
}

#[test]
fn test_sanitize_fts_query() {
    assert_eq!(sanitize_fts_query("hello world"), "\"hello\" \"world\"");
    assert_eq!(sanitize_fts_query("pull-based"), "\"pull-based\"");
    assert_eq!(sanitize_fts_query(""), "");
}

#[test]
fn test_embedding_text() {
    let insight = sample_insight();
    let text = insight.embedding_text();
    assert!(text.contains("pull-based"));
    assert!(text.contains("garbled text"));
    assert!(text.contains("rendering"));
}

#[test]
fn embedding_text_is_title_body_and_tags() {
    let mut i = sample_insight();
    i.title = "T".into();
    i.body = "B".into();
    i.tags = "x y".into();
    assert_eq!(i.embedding_text(), "T B x y");
}

#[test]
fn fts_query_drops_quotes_and_extra_spaces() {
    assert_eq!(sanitize_fts_query("  say \"hi\"   there "), "\"say\" \"hi\" \"there\"");
    assert_eq!(sanitize_fts_query("\"\""), "");
}

#[test]
fn the_files_column_is_decoded_from_json() {
    assert_eq!(decode_files("[\"src/a.rs\", \"b.rs\"]"), vec!["src/a.rs".to_string(), "b.rs".to_string()]);
    assert!(decode_files("").is_empty());
    assert!(decode_files("[1]").is_empty());
}
