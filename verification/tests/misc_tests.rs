use diwa::claude::{
    bracket_slice, extract_json_from_fences, pick_reading, pick_string_array, read_string_array, Brackets, StringArray,
};
use diwa::daemon::{
    daemon_path, gui_domain, parse_uid, plist_body, plist_path, status_summary, user_bin_dirs, xml_escape,
};
use diwa::db::StoredInsight;
use diwa::cli::CommitCitation;
use diwa::deep_search::{
    cited_commits, merge_results, no_results_answer, parse_action, search_note, short_sha, step_prompt, tool_note,
    ResearchAction, MAX_STEPS,
};
use diwa::hooks::{installed_hook_contents, replace_diwa_block, strip_diwa_hook, HookCleanup};
use diwa::indexing::{index_start, recorded_after, unindexed, BatchOutcome};
use diwa::git::CommitData;
use diwa::manifest::Manifest;
use diwa::migrate::{migration_need, MigrationNeed, RepoOutcome, Tally};
use diwa::order::{lex_le_str, sort_by_key};
use diwa::reflect::{reflect_answer, should_reflect_check, ReflectCheck};
use diwa::shadow::{after_probe, finish_scan, first_look, is_stale_output, stale_backup_path, AfterProbe, FirstLook, ShadowRepair};

fn stored(id: i64, title: &str) -> StoredInsight {
    StoredInsight {
        id,
        commit_sha: "abc1234".into(),
        commit_date: "2026-01-01T00:00:00Z".into(),
        category: "decision".into(),
        title: title.into(),
        body: "b".into(),
        files: vec![],
        tags: String::new(),
        source_type: "git".into(),
        pr_number: None,
    }
}

// --- model answers ---------------------------------------------------------

#[test]
fn fenced_json_is_found() {
    assert_eq!(
        extract_json_from_fences("Here:\n```json\n[{\"name\":\"a\"}]\n```\n"),
        Some("[{\"name\":\"a\"}]\n".to_string())
    );
    assert_eq!(extract_json_from_fences("no fence"), None);
}

#[test]
fn brackets_span_first_to_last() {
    assert_eq!(bracket_slice("I found:\n\n[{\"name\":\"a\"}]"), Brackets::Slice("[{\"name\":\"a\"}]".into()));
    assert_eq!(bracket_slice("not json at all"), Brackets::Missing);
    assert_eq!(bracket_slice("] then ["), Brackets::Reversed);
}

#[test]
fn string_arrays_are_read_from_raw_fenced_or_embedded_json() {
    let strings = |v: &[&str]| StringArray::Parsed(v.iter().map(|s| s.to_string()).collect());
    assert_eq!(read_string_array("  [\"a\", \"b\"]  "), strings(&["a", "b"]));
    assert_eq!(read_string_array("Here:\n```json\n[\"x\"]\n```\n"), strings(&["x"]));
    assert_eq!(read_string_array("I found:\n\n[\"y\", \"z\"] done"), strings(&["y", "z"]));
    assert_eq!(read_string_array("not json at all"), StringArray::Unreadable);
    assert_eq!(read_string_array("[1, 2]"), StringArray::Unreadable);
    assert_eq!(read_string_array("] then ["), StringArray::Reversed);
}

// --- the daemon ------------------------------------------------------------

#[test]
fn xml_escape_escapes_markup() {
    assert_eq!(xml_escape("a<b>&c"), "a&lt;b&gt;&amp;c");
    assert_eq!(xml_escape("&lt;"), "&amp;lt;");
}

#[test]
fn the_property_list_runs_the_daemon() {
    let body = plist_body("/bin/diwa", "/h/.diwa/daemon.log", "/usr/bin:/bin", None);
    assert!(body.starts_with("<?xml version=\"1.0\" encoding=\"UTF-8\"?>\n"));
    assert!(body.contains("<string>com.dorky-robot.diwa</string>"));
    assert!(body.contains("<string>/bin/diwa</string>\n        <string>daemon</string>\n        <string>run</string>"));
    assert!(body.contains("<key>PATH</key>\n        <string>/usr/bin:/bin</string>\n    </dict>"));
    assert!(body.contains("<key>StandardErrorPath</key>\n    <string>/h/.diwa/daemon.log</string>"));
    assert!(!body.contains("ORT_DYLIB_PATH"));
    let with_ort = plist_body("/bin/diwa", "/l", "/p", Some("/opt/homebrew/lib/libonnxruntime.dylib".into()));
    assert!(with_ort.contains("<string>/p</string>\n        <key>ORT_DYLIB_PATH</key>\n        <string>/opt/homebrew/lib/libonnxruntime.dylib</string>\n    </dict>"));
}

#[test]
fn daemon_paths() {
    assert_eq!(plist_path("/Users/u"), "/Users/u/Library/LaunchAgents/com.dorky-robot.diwa.plist");
    assert_eq!(
        user_bin_dirs("/Users/u"),
        vec!["/Users/u/.local/bin".to_string(), "/Users/u/bin".to_string(), "/Users/u/.cargo/bin".to_string()]
    );
    assert_eq!(
        daemon_path(&vec!["/Users/u/.local/bin".to_string()]),
        "/Users/u/.local/bin:/opt/homebrew/bin:/usr/local/bin:/usr/bin:/bin"
    );
    assert_eq!(daemon_path(&vec![]), "/opt/homebrew/bin:/usr/local/bin:/usr/bin:/bin");
}

#[test]
fn launchd_answers() {
    assert_eq!(parse_uid("501\n"), Some(501));
    assert_eq!(parse_uid("x"), None);
    assert_eq!(gui_domain(501), "gui/501");
    let text = "gui/501/com.dorky-robot.diwa = {\n\tstate = running\n\tpath = x\n\tpid = 42\n\tlast exit code = 0\n}";
    assert_eq!(
        status_summary(text),
        vec!["  state = running".to_string(), "  pid = 42".to_string(), "  last exit code = 0".to_string()]
    );
}

// --- migration -------------------------------------------------------------

#[test]
fn migration_runs_only_on_upgrade() {
    assert!(matches!(migration_need("0.5.0", "0.5.0", true), MigrationNeed::UpToDate));
    assert!(matches!(migration_need("", "0.5.0", false), MigrationNeed::StampOnly));
    match migration_need("", "0.5.0", true) {
        MigrationNeed::Migrate { from } => assert_eq!(from, "<old>"),
        other => panic!("unexpected {other:?}"),
    }
    match migration_need("0.4.0", "0.5.0", false) {
        MigrationNeed::Migrate { from } => assert_eq!(from, "0.4.0"),
        other => panic!("unexpected {other:?}"),
    }
}

#[test]
fn the_tally_counts_each_repository_once() {
    let mut t = Tally::new();
    t.record(RepoOutcome::Updated);
    t.record(RepoOutcome::Updated);
    t.record(RepoOutcome::Skipped);
    t.record(RepoOutcome::Failed);
    assert_eq!(t.summary(), "2 updated, 1 skipped, 1 failed.");
}

// --- ordering --------------------------------------------------------------

#[test]
fn texts_order_like_strings() {
    assert!(lex_le_str("a", "b"));
    assert!(lex_le_str("ab", "abc"));
    assert!(!lex_le_str("b", "ab"));
    assert!(lex_le_str("Z", "a"));
    assert!(lex_le_str("", ""));
}

#[test]
fn sorting_by_key_orders_and_keeps_every_pair() {
    let v = vec![
        ("owner--two".to_string(), 2),
        ("owner--one".to_string(), 1),
        ("a--z".to_string(), 3),
        ("owner--three".to_string(), 4),
    ];
    let mut expected = v.clone();
    expected.sort_by(|a, b| a.0.cmp(&b.0));
    assert_eq!(sort_by_key(v), expected);
}

// --- shadowed binaries -----------------------------------------------------

#[test]
fn shadow_decisions() {
    assert_eq!(first_look(true, true), FirstLook::WarnSymlink);
    assert_eq!(first_look(false, true), FirstLook::ReachedSelf);
    assert_eq!(first_look(false, false), FirstLook::Probe);
    assert_eq!(after_probe(false, true), AfterProbe::WarnNotStale);
    assert_eq!(after_probe(true, false), AfterProbe::WarnOutsideHome);
    assert_eq!(after_probe(true, true), AfterProbe::Rename);
    assert!(is_stale_output(false, "error: unrecognized subcommand 'enqueue'"));
    assert!(!is_stale_output(true, "unrecognized"));
    assert!(!is_stale_output(false, "boom"));
    assert_eq!(stale_backup_path("/home/u/.local/bin/diwa"), "/home/u/.local/bin/diwa.stale-bak");
    assert_eq!(stale_backup_path("/usr/local/bin/diwa/"), "/usr/local/bin/diwa.stale-bak");
    assert_eq!(stale_backup_path("/"), "/diwa.stale-bak");
    assert_eq!(finish_scan(vec![]), vec![ShadowRepair::Clean]);
}

// --- hooks -----------------------------------------------------------------

#[test]
fn a_fresh_hook_is_the_full_script() {
    let h = installed_hook_contents(None);
    assert!(h.starts_with("#!/usr/bin/env sh\n# diwa: enqueue repo for indexing\n"));
    assert!(h.contains("diwa enqueue"));
    assert!(h.ends_with("fi\n"));
}

#[test]
fn an_existing_hook_gets_the_block_appended() {
    let h = installed_hook_contents(Some("#!/usr/bin/env sh\necho 'existing hook'\n"));
    assert!(h.starts_with("#!/usr/bin/env sh\necho 'existing hook'\n\n# diwa:"));
    assert_eq!(installed_hook_contents(Some(&h)), h);
}

#[test]
fn uninstalling_keeps_other_content() {
    let h = installed_hook_contents(Some("#!/usr/bin/env sh\necho 'keep me'\n"));
    assert_eq!(strip_diwa_hook(&h), HookCleanup::Rewrite("#!/usr/bin/env sh\necho 'keep me'\n".into()));
    assert_eq!(strip_diwa_hook(&installed_hook_contents(None)), HookCleanup::Remove);
    assert_eq!(strip_diwa_hook("#!/bin/sh\necho hi\n"), HookCleanup::NotInstalled);
}

#[test]
fn uninstalling_after_a_reinstall_is_uninstalling() {
    let existing = "#!/bin/sh\necho before\n\n# diwa: old block\ndiwa index .\n\necho after\n";
    let reinstalled = installed_hook_contents(Some(existing));
    assert_eq!(strip_diwa_hook(&reinstalled), strip_diwa_hook(existing));
    assert_eq!(strip_diwa_hook(existing), HookCleanup::Rewrite("#!/bin/sh\necho before\n".into()));
}

#[test]
fn replacing_the_block_keeps_what_follows() {
    let existing = "#!/bin/sh\n# diwa: auto-index\nif command -v diwa >/dev/null 2>&1; then\n  diwa index . &\nfi\n\necho after\n";
    assert_eq!(replace_diwa_block(existing, "# diwa: new"), "#!/bin/sh\n\n# diwa: new\n\necho after\n");
}

// --- reflections -----------------------------------------------------------

#[test]
fn reflection_check_and_answer() {
    assert_eq!(should_reflect_check(&[], &[]), ReflectCheck::Skip);
    let three = vec![stored(1, "a"), stored(2, "b"), stored(3, "c")];
    assert_eq!(should_reflect_check(&three, &[]), ReflectCheck::Reflect);
    match should_reflect_check(&three[..1], &[]) {
        ReflectCheck::Ask(q) => assert!(q.contains("[decision] a")),
        other => panic!("unexpected {other:?}"),
    }
    assert!(reflect_answer(Some("  Yes, definitely")));
    assert!(!reflect_answer(Some("no")));
    assert!(!reflect_answer(None));
}

// --- deep search -----------------------------------------------------------

#[test]
fn a_research_reply_names_one_step() {
    assert_eq!(parse_action("search auth refactor"), ResearchAction::Search("auth refactor".into()));
    assert_eq!(parse_action("  git_show 4934193 \nbecause..."), ResearchAction::GitShow("4934193".into()));
    assert_eq!(parse_action("read_file src/main.rs\r\n"), ResearchAction::ReadFile("src/main.rs".into()));
    assert_eq!(parse_action("answer"), ResearchAction::Answer);
    assert_eq!(parse_action("search   "), ResearchAction::Answer);
    assert_eq!(parse_action("I think we are done"), ResearchAction::Answer);
    assert_eq!(MAX_STEPS, 10);
    assert_eq!(no_results_answer("q"), "No insights found for: q");
    assert_eq!(short_sha("abcdef123"), "abcdef1");
}

#[test]
fn research_notes_feed_the_next_prompt() {
    let found = vec![stored(1, "first")];
    let note = search_note("why", &found);
    assert!(note.starts_with("> search why\n- ["));
    assert!(note.contains("first"));
    assert_eq!(search_note("x", &vec![]), "> search x\n(no results)");
    assert_eq!(tool_note("git_show", "abc", "diff"), "> git_show abc\ndiff");
    let empty = step_prompt("why?", &vec![]);
    assert!(empty.contains("\"why?\"") && empty.contains("(nothing yet)"));
    let p = step_prompt("why?", &vec![note.clone()]);
    assert!(p.contains(&note) && !p.contains("(nothing yet)"));
}

#[test]
fn an_answer_cites_the_commits_it_names() {
    let c = |sha: &str| CommitCitation { short_sha: sha.into(), date: "2026-03-13".into(), cited_by: vec![1] };
    let cited = cited_commits("see 7142a7b for it", vec![c("4934193"), c("7142a7b")]);
    assert_eq!(cited.len(), 1);
    assert_eq!(cited[0].short_sha, "7142a7b");
}

#[test]
fn merging_results_keeps_the_first_insight_per_id() {
    let mut seen = vec![stored(1, "first")];
    merge_results(&mut seen, vec![stored(2, "two"), stored(1, "again"), stored(2, "twice")]);
    let titles: Vec<&str> = seen.iter().map(|s| s.title.as_str()).collect();
    assert_eq!(titles, vec!["first", "two"]);
}

#[test]
fn the_first_candidate_reading_wins() {
    let v = |s: &str| Some(vec![s.to_string()]);
    assert_eq!(pick_string_array(v("a"), v("b"), Some(v("c"))), StringArray::Parsed(vec!["a".into()]));
    assert_eq!(pick_string_array(None, v("b"), None), StringArray::Parsed(vec!["b".into()]));
    assert_eq!(pick_string_array(None, None, Some(v("c"))), StringArray::Parsed(vec!["c".into()]));
    assert_eq!(pick_string_array(None, None, Some(None)), StringArray::Unreadable);
    assert_eq!(pick_string_array(None, None, None), StringArray::Reversed);
}

#[test]
fn indexing_registers_the_repo_and_starts_after_the_recorded_commit() {
    let mut m = Manifest::new();
    let start = index_start(&mut m, "fake-owner--fake-repo", Some("/src/fake"), false, Some("abc".into()));
    assert_eq!(start, Some("abc".to_string()));
    assert_eq!(m.get("fake-owner--fake-repo"), Some("/src/fake".to_string()));
    assert_eq!(index_start(&mut m, "fake-owner--fake-repo", Some("/src/fake"), true, Some("abc".into())), None);
    assert_eq!(index_start(&mut m, "other--repo", None, false, None), None);
    assert_eq!(m.len(), 1);
}

#[test]
fn the_recorded_commit_moves_only_past_finished_batches() {
    let r = recorded_after(Some("a".into()), "b", BatchOutcome::Stored);
    assert_eq!(r, Some("b".to_string()));
    let r = recorded_after(r, "c", BatchOutcome::EmbeddingFailed);
    assert_eq!(r, Some("b".to_string()));
    let r = recorded_after(r, "d", BatchOutcome::NoInsights);
    assert_eq!(r, Some("d".to_string()));
    assert_eq!(recorded_after(None, "", BatchOutcome::NoInsights), None);
}

#[test]
fn every_install_leaves_the_marker_once() {
    for existing in [None, Some("#!/bin/sh\r\necho hi\r\n"), Some("# diwa: a\necho x\n# diwa: b\n")] {
        let once = installed_hook_contents(existing);
        let twice = installed_hook_contents(Some(&once));
        assert_eq!(once.matches("# diwa:").count(), 1);
        assert_eq!(twice.matches("# diwa:").count(), 1);
        assert!(twice.contains("diwa enqueue"));
    }
}

#[test]
fn uninstalling_keeps_lines_with_carriage_returns() {
    let h = installed_hook_contents(Some("#!/bin/sh\r\necho hi\r\n"));
    assert_eq!(strip_diwa_hook(&h), HookCleanup::Rewrite("#!/bin/sh\necho hi\n".into()));
}

#[test]
fn readings_of_any_type_are_picked_in_order() {
    assert_eq!(pick_reading(Some(1u8), Some(2), Some(Some(3))), Some(Some(1)));
    assert_eq!(pick_reading(None, Some(2u8), None), Some(Some(2)));
    assert_eq!(pick_reading::<u8>(None, None, Some(None)), Some(None));
    assert_eq!(pick_reading::<u8>(None, None, None), None);
}

fn commit(sha: &str) -> CommitData {
    CommitData {
        sha: sha.into(),
        message: "feat: x".into(),
        diff: String::new(),
        date: String::new(),
        author: String::new(),
        files: vec![],
        pr_title: None,
        pr_body: None,
        review_comments: None,
    }
}

#[test]
fn commits_already_indexed_are_skipped() {
    let left = unindexed(vec![commit("a"), commit("b"), commit("c")], &vec!["b".to_string()]);
    let shas: Vec<&str> = left.iter().map(|c| c.sha.as_str()).collect();
    assert_eq!(shas, vec!["a", "c"]);
    let again = unindexed(vec![commit("a"), commit("b"), commit("c")], &vec!["a".into(), "b".into(), "c".into()]);
    assert!(again.is_empty());
}
