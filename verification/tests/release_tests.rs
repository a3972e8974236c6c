use diwa::release::{cached_release, newer_release, release_tag, release_target, release_url, tag_version};

#[test]
fn the_tag_is_read_from_the_tag_name_line() {
    let body = "{\n  \"url\": \"x\",\n  \"tag_name\": \"v0.6.1\",\n  \"name\": \"v0.6.1\"\n}";
    assert_eq!(release_tag(body), Some("v0.6.1".to_string()));
}

#[test]
fn no_tag_line_means_no_tag() {
    assert_eq!(release_tag("{\"message\": \"Not Found\"}"), None);
    assert_eq!(release_tag("\"tag_name\""), None);
}

#[test]
fn a_leading_v_is_dropped() {
    assert_eq!(tag_version("v0.6.1"), "0.6.1");
    assert_eq!(tag_version("0.6.1"), "0.6.1");
}

#[test]
fn only_a_different_version_is_offered() {
    assert_eq!(newer_release("0.6.1", "0.5.0"), Some("0.6.1".to_string()));
    assert_eq!(newer_release("0.5.0", "0.5.0"), None);
}

#[test]
fn a_cached_check_is_trimmed_and_ignored_when_empty() {
    assert_eq!(cached_release(" 0.6.1\n", "0.5.0"), Some("0.6.1".to_string()));
    assert_eq!(cached_release("0.5.0\n", "0.5.0"), None);
    assert_eq!(cached_release("  \n", "0.5.0"), None);
}

#[test]
fn release_archives_exist_for_three_platforms() {
    assert_eq!(release_target("x86_64", "linux"), Some("x86_64-unknown-linux-gnu"));
    assert_eq!(release_target("aarch64", "linux"), Some("aarch64-unknown-linux-gnu"));
    assert_eq!(release_target("aarch64", "macos"), Some("aarch64-apple-darwin"));
    assert_eq!(release_target("x86_64", "macos"), None);
}

#[test]
fn the_download_address_names_tag_and_target() {
    assert_eq!(
        release_url("v0.6.1", "aarch64-apple-darwin"),
        "https://github.com/Dorky-Robot/diwa/releases/download/v0.6.1/diwa-aarch64-apple-darwin.tar.gz"
    );
}
