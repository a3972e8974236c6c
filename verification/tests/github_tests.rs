use diwa::git::CommitData;
use diwa::github::{enrich_with_prs, extract_pr_number, prs_from_gh_output, PrData};

#[test]
fn test_extract_pr_number_parens() {
    assert_eq!(extract_pr_number("fix: resolve bug (#417)"), Some(417));
}

#[test]
fn test_extract_pr_number_closes() {
    assert_eq!(extract_pr_number("Closes #42"), Some(42));
}

#[test]
fn test_extract_pr_number_standalone() {
    assert_eq!(extract_pr_number("feat: new thing #99"), Some(99));
}

#[test]
fn test_extract_pr_number_none() {
    assert_eq!(extract_pr_number("just a commit"), None);
}

#[test]
fn test_extract_pr_number_color_hash() {
    assert_eq!(extract_pr_number("color#fff is wrong"), None);
}

#[test]
fn parenthesised_number_wins_over_an_earlier_hash() {
    assert_eq!(extract_pr_number("see #1 (#2)"), Some(2));
}

fn commit(msg: &str) -> CommitData {
    CommitData {
        sha: "s".into(),
        message: msg.into(),
        diff: String::new(),
        date: String::new(),
        author: String::new(),
        files: Vec::new(),
        pr_title: None,
        pr_body: None,
        review_comments: None,
    }
}

#[test]
fn enrichment_copies_the_matching_pr() {
    let prs = vec![
        PrData::from_fields(Some(7), Some("Seven".into()), Some("body 7".into()), vec![]),
        PrData::from_fields(
            Some(8),
            Some("Eight".into()),
            None,
            vec![Some("nice".into()), None, Some(String::new())],
        ),
    ];
    let mut commits = vec![commit("feat: a (#8)"), commit("feat: b (#7)"), commit("feat: c")];
    enrich_with_prs(&mut commits, &prs);
    assert_eq!(commits[0].pr_title.as_deref(), Some("Eight"));
    assert_eq!(commits[0].pr_body.as_deref(), Some(""));
    assert_eq!(commits[0].review_comments, Some(vec!["nice".to_string()]));
    assert_eq!(commits[1].pr_title.as_deref(), Some("Seven"));
    assert_eq!(commits[1].review_comments, None);
    assert_eq!(commits[2].pr_title, None);
}

#[test]
fn pr_fields_default_when_missing() {
    let pr = PrData::from_fields(None, None, None, vec![None]);
    assert_eq!(pr.number, 0);
    assert_eq!(pr.title, "");
    assert_eq!(pr.body, "");
    assert!(pr.review_comments.is_empty());
}

#[test]
fn prs_are_read_from_gh_output() {
    let out = br#"[{"number":5,"title":"T","body":null,"reviews":[{"body":"ok"},{"body":""},{}]},{"title":"x"}]"#;
    let prs = prs_from_gh_output(out);
    assert_eq!(prs.len(), 2);
    assert_eq!(prs[0].number, 5);
    assert_eq!(prs[0].title, "T");
    assert_eq!(prs[0].body, "");
    assert_eq!(prs[0].review_comments, vec!["ok".to_string()]);
    assert_eq!(prs[1].number, 0);
    assert_eq!(prs[1].title, "x");
    assert!(prs[1].review_comments.is_empty());
    assert!(prs_from_gh_output(b"garbage").is_empty());
}
