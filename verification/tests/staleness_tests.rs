use diwa::staleness::{assess, classify, warning, GitAnswers, Staleness, COMMITS_THRESHOLD, DAYS_THRESHOLD};

#[test]
fn fresh_when_at_head() {
    assert_eq!(classify(0, 0, true), Staleness::Fresh);
}

#[test]
fn a_couple_of_commits_is_not_worth_shouting_about() {
    assert_eq!(classify(3, 0, true), Staleness::Fresh);
}

#[test]
fn commits_alone_can_trip_it() {
    assert_eq!(
        classify(COMMITS_THRESHOLD, 0, true),
        Staleness::Behind { commits: COMMITS_THRESHOLD, days: 0 }
    );
}

#[test]
fn time_alone_can_trip_it_on_a_quiet_repo() {
    assert_eq!(
        classify(1, DAYS_THRESHOLD, true),
        Staleness::Behind { commits: 1, days: DAYS_THRESHOLD }
    );
}

#[test]
fn the_kita_incident_would_have_been_caught() {
    let s = classify(1318, 41, true);
    assert!(matches!(s, Staleness::Behind { .. }));
    let w = warning("Dorky-Robot/kita", &s).unwrap();
    assert!(w.contains("1318 commits"));
    assert!(w.contains("diwa index"));
}

#[test]
fn unreachable_commit_reports_detached_and_says_reindex() {
    let s = classify(0, 0, false);
    assert_eq!(s, Staleness::Detached);
    let w = warning("x/y", &s).unwrap();
    assert!(w.contains("reindex"));
}

#[test]
fn fresh_produces_no_warning() {
    assert!(warning("x/y", &Staleness::Fresh).is_none());
}

#[test]
fn check_stays_quiet_when_git_cannot_answer() {
    // Every git question fails outside a repository: no evidence, no warning.
    let answers = GitAnswers {
        is_ancestor: false,
        commit_known: false,
        count: None,
        indexed_time: None,
        head_time: None,
    };
    assert_eq!(assess(&answers), Staleness::Fresh);
}

#[test]
fn behind_warning_names_commits_and_days() {
    let w = warning("a/b", &Staleness::Behind { commits: 12, days: 3 }).unwrap();
    assert!(w.starts_with("⚠️  diwa index for a/b is 12 commits / 3 days BEHIND HEAD."));
}

#[test]
fn git_answers_are_measured_in_commits_and_whole_days() {
    let answers = GitAnswers {
        is_ancestor: true,
        commit_known: true,
        count: Some("12".into()),
        indexed_time: Some("1000000".into()),
        head_time: Some("1259200".into()),
    };
    // 259200 seconds is three days.
    assert_eq!(assess(&answers), Staleness::Behind { commits: 12, days: 3 });
}

#[test]
fn known_commit_outside_history_is_detached() {
    let answers = GitAnswers {
        is_ancestor: false,
        commit_known: true,
        count: None,
        indexed_time: None,
        head_time: None,
    };
    assert_eq!(assess(&answers), Staleness::Detached);
}

#[test]
fn unreadable_answers_count_as_zero() {
    let answers = GitAnswers {
        is_ancestor: true,
        commit_known: true,
        count: Some("many".into()),
        indexed_time: Some("5".into()),
        head_time: Some("4".into()),
    };
    assert_eq!(assess(&answers), Staleness::Fresh);
}

#[test]
fn more_lag_never_makes_a_stale_index_fresh() {
    let before = classify(10, 0, true);
    let after = classify(11, 1, true);
    assert_ne!(before, Staleness::Fresh);
    assert_ne!(after, Staleness::Fresh);
}
