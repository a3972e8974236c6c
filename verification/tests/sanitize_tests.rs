use diwa::sanitize::strip_display_controls;

#[test]
fn strips_ansi_color() {
    let s = "hello \x1b[31mred\x1b[0m world";
    assert_eq!(strip_display_controls(s), "hello [31mred[0m world");
}

#[test]
fn strips_c1_controls() {
    let s = "a\u{0085}b\u{009b}c";
    assert_eq!(strip_display_controls(s), "abc");
}

#[test]
fn preserves_tabs_and_newlines() {
    let s = "a\tb\nc\r\nd";
    assert_eq!(strip_display_controls(s), "a\tb\nc\r\nd");
}

#[test]
fn strips_bel_and_del() {
    let s = "a\x07b\x7fc";
    assert_eq!(strip_display_controls(s), "abc");
}

#[test]
fn preserves_regular_text() {
    let s = "Why did we switch to pull-based rendering? Because…";
    assert_eq!(strip_display_controls(s), s);
}

#[test]
fn sanitizing_twice_is_sanitizing_once() {
    let s = "x\x1b[1my\u{0090}z\x00";
    let once = strip_display_controls(s);
    assert_eq!(strip_display_controls(&once), once);
    assert_eq!(once, "x[1myz");
}
