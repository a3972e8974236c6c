use diwa::slug::{eq_ignore_ascii_case_chars, github_owner_repo, path_like, resolve_slug, slug_display, slug_for, SlugError, SlugResolution};

fn entries(names: &[&str]) -> Option<Vec<String>> {
    Some(names.iter().map(|s| s.to_string()).collect())
}

fn named(r: Result<SlugResolution, SlugError>) -> String {
    match r {
        Ok(SlugResolution::Named(s)) => s,
        other => panic!("expected a slug, got {other:?}"),
    }
}

#[test]
fn paths_are_resolved_through_the_remote() {
    assert!(matches!(resolve_slug(".", None), Ok(SlugResolution::FromRemote)));
    assert!(matches!(resolve_slug("/tmp/repo", None), Ok(SlugResolution::FromRemote)));
    assert!(path_like("./x"));
    assert!(!path_like("yelo"));
}

#[test]
fn owner_and_repo_become_a_slug() {
    assert_eq!(named(resolve_slug("Dorky-Robot/yelo", None)), "Dorky-Robot--yelo");
}

#[test]
fn a_bare_name_matches_the_last_part_of_a_slug() {
    let es = entries(&["Dorky-Robot--yelo", "Dorky-Robot--kita", "models"]);
    assert_eq!(named(resolve_slug("yelo", es)), "Dorky-Robot--yelo");
}

#[test]
fn the_last_part_is_matched_ignoring_ascii_case() {
    let es = entries(&["Dorky-Robot--Yelo"]);
    assert_eq!(named(resolve_slug("yELO", es)), "Dorky-Robot--Yelo");
}

#[test]
fn several_exact_matches_are_ambiguous() {
    let es = entries(&["a--yelo", "b--yelo"]);
    let err = resolve_slug("yelo", es).unwrap_err();
    assert_eq!(err.message("yelo"), "Ambiguous repo name 'yelo'. Matches: a/yelo, b/yelo");
}

#[test]
fn a_unique_partial_match_is_accepted() {
    let es = entries(&["Dorky-Robot--yelo-server", "Dorky-Robot--kita"]);
    assert_eq!(named(resolve_slug("YELO", es)), "Dorky-Robot--yelo-server");
}

#[test]
fn several_partial_matches_are_ambiguous() {
    let es = entries(&["a--yelo-one", "a--yelo-two"]);
    let err = resolve_slug("yelo", es).unwrap_err();
    assert_eq!(
        err.message("yelo"),
        "Ambiguous repo name 'yelo'. Did you mean one of: a/yelo-one, a/yelo-two"
    );
}

#[test]
fn an_unknown_name_is_not_found() {
    let err = resolve_slug("nonexistent-repo-xyz", entries(&["a--b"])).unwrap_err();
    assert_eq!(
        err.message("nonexistent-repo-xyz"),
        "No indexed repo matching 'nonexistent-repo-xyz'. Run `diwa index` in the repo first."
    );
    assert!(matches!(resolve_slug("x", None), Err(SlugError::NotFound)));
}

#[test]
fn the_models_directory_is_never_a_repo() {
    assert!(matches!(resolve_slug("models", entries(&["models"])), Err(SlugError::NotFound)));
}

#[test]
fn the_last_part_is_cut_from_left_to_right() {
    // "a---b" splits at "--" into "a" and "-b".
    let es = entries(&["a---b"]);
    assert_eq!(named(resolve_slug("-B", es)), "a---b");
}

#[test]
fn slugs_and_display_names() {
    assert_eq!(slug_for("Dorky-Robot", "diwa"), "Dorky-Robot--diwa");
    assert_eq!(slug_display("Dorky-Robot--diwa"), "Dorky-Robot/diwa");
    assert_eq!(slug_display("a----b"), "a//b");
}

#[test]
fn ascii_case_folding_leaves_other_letters_alone() {
    let a: Vec<char> = "ÉtÉ".chars().collect();
    let b: Vec<char> = "étÉ".chars().collect();
    assert!(!eq_ignore_ascii_case_chars(&a, &b));
    let c: Vec<char> = "ABC".chars().collect();
    let d: Vec<char> = "abc".chars().collect();
    assert!(eq_ignore_ascii_case_chars(&c, &d));
}

#[test]
fn github_remotes_name_owner_and_repo() {
    let pair = |o: &str, n: &str| Some((o.to_string(), n.to_string()));
    assert_eq!(github_owner_repo("https://github.com/fake-owner/fake-repo.git"), pair("fake-owner", "fake-repo"));
    assert_eq!(github_owner_repo("git@github.com:Dorky-Robot/diwa.git\n"), pair("Dorky-Robot", "diwa"));
    assert_eq!(github_owner_repo("ssh://git@github.com/a/b"), pair("a", "b"));
    assert_eq!(github_owner_repo("https://gitlab.com/a/b.git"), None);
    assert_eq!(github_owner_repo("https://github.com/a"), None);
    assert_eq!(github_owner_repo("https://github.com/a/b/c"), None);
}
