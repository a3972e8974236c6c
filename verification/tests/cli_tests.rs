use diwa::cli::{
    can_reflect, citation_line, commit_index, dir_choice, join_path, reflection_plan, result_block,
    shorten_home, ReflectionPlan,
};
use diwa::db::StoredInsight;

fn result(id: i64, sha: &str, date: &str) -> StoredInsight {
    StoredInsight {
        id,
        commit_sha: sha.into(),
        commit_date: date.into(),
        category: "decision".into(),
        title: format!("title {id}"),
        body: "body".into(),
        files: vec![],
        tags: String::new(),
        source_type: "git".into(),
        pr_number: None,
    }
}

#[test]
fn paths_join_like_path_join() {
    assert_eq!(join_path("/home/u", ".diwa"), "/home/u/.diwa");
    assert_eq!(join_path("/home/u/", ".diwa"), "/home/u/.diwa");
    assert_eq!(join_path("/home/u", "/abs"), "/abs");
    assert_eq!(join_path("", "x"), "x");
}

#[test]
fn the_index_root_comes_from_the_environment_then_home() {
    assert_eq!(dir_choice(Some("/data".into()), Some("/home/u".into()), ".diwa"), "/data");
    assert_eq!(dir_choice(None, Some("/home/u".into()), ".diwa"), "/home/u/.diwa");
    assert_eq!(dir_choice(None, None, ".diwa"), ".diwa");
}

#[test]
fn home_is_written_as_a_tilde() {
    assert_eq!(shorten_home("/home/u/code/x", "/home/u"), "~/code/x");
    assert_eq!(shorten_home("/srv/x", "/home/u"), "/srv/x");
    assert_eq!(shorten_home("/home/u/x", ""), "/home/u/x");
}

#[test]
fn reflection_is_periodic_after_a_week() {
    match reflection_plan(Some(8), false) {
        ReflectionPlan::Reflect { reason, period_label } => {
            assert_eq!(reason, "periodic (8 days since last reflection)");
            assert_eq!(period_label, "the full project history");
        }
        other => panic!("unexpected {other:?}"),
    }
    assert!(matches!(reflection_plan(Some(7), true), ReflectionPlan::Reflect { .. }));
}

#[test]
fn never_reflecting_counts_as_overdue() {
    match reflection_plan(None, true) {
        ReflectionPlan::Reflect { reason, period_label } => {
            assert_eq!(reason, "periodic (9223372036854775807 days since last reflection)");
            assert_eq!(period_label, "the full project history");
        }
        other => panic!("unexpected {other:?}"),
    }
}

#[test]
fn within_a_week_new_material_waits_for_the_timer() {
    assert!(matches!(reflection_plan(Some(1), true), ReflectionPlan::NotWarranted));
    assert!(matches!(reflection_plan(Some(6), false), ReflectionPlan::Idle));
}

#[test]
fn forced_reflection_needs_three_insights() {
    assert!(!can_reflect(2));
    assert!(can_reflect(3));
}

#[test]
fn commit_index_groups_results_by_commit() {
    let results = vec![
        result(1, "aaaaaaaaaa", "2026-01-02T10:00:00Z"),
        result(2, "bbbbbbbbbb", "2026-01-03T10:00:00Z"),
        result(3, "aaaaaaaxxx", "2026-01-04T10:00:00Z"),
        result(4, "ccc", "2026-01-05"),
    ];
    let index = commit_index(&results);
    assert_eq!(index.len(), 3);
    assert_eq!(index[0].short_sha, "aaaaaaa");
    assert_eq!(index[0].date, "2026-01-02");
    assert_eq!(index[0].cited_by, vec![1, 3]);
    assert_eq!(index[1].short_sha, "bbbbbbb");
    assert_eq!(index[1].cited_by, vec![2]);
    assert_eq!(index[2].short_sha, "ccc");
    assert_eq!(index[2].date, "2026-01-05");
    assert_eq!(
        citation_line(&index[0]),
        "  \x1b[90maaaaaaa  2026-01-02  cited by [1] [3]\x1b[0m"
    );
}

#[test]
fn every_result_is_cited_exactly_once() {
    let results: Vec<StoredInsight> =
        (0..9).map(|i| result(i, &format!("sha{}xxxxxx", i % 3), "2026-01-01")).collect();
    let index = commit_index(&results);
    let mut all: Vec<usize> = index.iter().flat_map(|c| c.cited_by.clone()).collect();
    all.sort();
    assert_eq!(all, (1..=9).collect::<Vec<usize>>());
    assert_eq!(index.len(), 3);
}

#[test]
fn a_result_is_printed_with_number_category_title_and_sha() {
    let mut r = result(1, "0123456789", "2026-01-01");
    r.tags = "a b".into();
    assert_eq!(
        result_block(2, &r),
        "\x1b[1m2. [decision] title 1\x1b[0m  \x1b[90m[0123456]\x1b[0m\n   body\n   \x1b[90mtags: a b\x1b[0m\n\n"
    );
    r.tags = String::new();
    assert_eq!(
        result_block(2, &r),
        "\x1b[1m2. [decision] title 1\x1b[0m  \x1b[90m[0123456]\x1b[0m\n   body\n\n"
    );
}
