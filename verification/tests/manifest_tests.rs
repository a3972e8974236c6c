use diwa::manifest::{manifest_from_json, register_repo, unregister_repo, Manifest};

#[test]
fn test_read_empty_manifest() {
    let manifest = Manifest::new();
    assert_eq!(manifest.len(), 0);
}

#[test]
fn test_register_and_read() {
    let mut manifest = Manifest::new();
    register_repo(&mut manifest, "owner--repo", "/path/to/repo");
    assert_eq!(manifest.len(), 1);
    assert_eq!(manifest.get("owner--repo"), Some("/path/to/repo".to_string()));
}

#[test]
fn test_unregister() {
    let mut manifest = Manifest::new();
    register_repo(&mut manifest, "a--b", "/a");
    register_repo(&mut manifest, "c--d", "/c");
    unregister_repo(&mut manifest, "a--b");
    assert_eq!(manifest.len(), 1);
    assert!(manifest.get("a--b").is_none());
}

#[test]
fn registering_again_replaces_the_path() {
    let mut manifest = Manifest::new();
    register_repo(&mut manifest, "a--b", "/old");
    register_repo(&mut manifest, "a--b", "/new");
    assert_eq!(manifest.len(), 1);
    assert_eq!(manifest.get("a--b"), Some("/new".to_string()));
}

#[test]
fn unregistering_what_was_just_registered_restores_the_manifest() {
    let mut manifest = Manifest::new();
    register_repo(&mut manifest, "c--d", "/c");
    register_repo(&mut manifest, "a--b", "/a");
    unregister_repo(&mut manifest, "a--b");
    assert_eq!(manifest.len(), 1);
    assert_eq!(manifest.get("c--d"), Some("/c".to_string()));
    assert_eq!(manifest.entries().len(), 1);
}

#[test]
fn unregistering_an_unknown_slug_changes_nothing() {
    let mut manifest = Manifest::new();
    register_repo(&mut manifest, "a--b", "/a");
    unregister_repo(&mut manifest, "x--y");
    assert_eq!(manifest.len(), 1);
}

#[test]
fn a_manifest_is_read_from_its_json_text() {
    let m = manifest_from_json("{\"a--b\": \"/src/b\", \"c--d\": \"/src/d\"}");
    assert_eq!(m.len(), 2);
    assert_eq!(m.get("a--b"), Some("/src/b".to_string()));
    assert_eq!(m.get("c--d"), Some("/src/d".to_string()));
    assert_eq!(manifest_from_json("not json").len(), 0);
    assert_eq!(manifest_from_json("[\"a\"]").len(), 0);
    assert_eq!(manifest_from_json("{}").len(), 0);
}
