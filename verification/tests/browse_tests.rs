use diwa::browse::{
    category_color, detail, help_text, initial_state, is_wide, list_row, list_title, step, BrowseState,
    CategoryColor, Key, Pane, Step,
};
use diwa::db::StoredInsight;

fn insight() -> StoredInsight {
    StoredInsight {
        id: 1,
        commit_sha: "abcdef123456".into(),
        commit_date: "2026-03-28T00:00:00Z".into(),
        category: "pattern".into(),
        title: "Title".into(),
        body: "line one\nline two".into(),
        files: vec!["a.rs".into()],
        tags: "x".into(),
        source_type: "git".into(),
        pr_number: None,
    }
}

fn cont(s: Step) -> BrowseState {
    match s {
        Step::Continue(t) => t,
        Step::Quit => panic!("quit"),
    }
}

#[test]
fn categories_have_colours() {
    assert_eq!(category_color("decision"), CategoryColor::Yellow);
    assert_eq!(category_color("bugfix"), CategoryColor::LightRed);
    assert_eq!(category_color("other"), CategoryColor::White);
}

#[test]
fn a_hundred_columns_is_wide() {
    assert!(is_wide(100));
    assert!(!is_wide(99));
}

#[test]
fn moving_stays_within_the_list() {
    let s = initial_state();
    let s = cont(step(s, Key::Up, false, 3));
    assert_eq!(s.selected, 0);
    let s = cont(step(s, Key::Char('j'), false, 3));
    let s = cont(step(s, Key::Down, false, 3));
    let s = cont(step(s, Key::Down, false, 3));
    assert_eq!(s.selected, 2);
    let s = cont(step(s, Key::Char('g'), false, 3));
    assert_eq!(s.selected, 0);
    let s = cont(step(s, Key::End, false, 3));
    assert_eq!(s.selected, 2);
}

#[test]
fn narrow_detail_view_scrolls_and_goes_back() {
    let s = initial_state();
    let s = cont(step(s, Key::Enter, false, 3));
    assert_eq!(s.view, Pane::Detail);
    let s = cont(step(s, Key::Down, false, 3));
    assert_eq!(s.scroll, 1);
    assert_eq!(s.selected, 0);
    let s = cont(step(s, Key::Char('n'), false, 3));
    assert_eq!(s.selected, 1);
    assert_eq!(s.scroll, 0);
    let s = cont(step(s, Key::Esc, false, 3));
    assert_eq!(s.view, Pane::List);
    assert_eq!(step(s, Key::Esc, false, 3), Step::Quit);
}

#[test]
fn q_always_quits() {
    let s = BrowseState { view: Pane::Detail, selected: 1, scroll: 4 };
    assert_eq!(step(s, Key::Char('q'), false, 3), Step::Quit);
    assert_eq!(step(s, Key::Char('q'), true, 3), Step::Quit);
}

#[test]
fn help_depends_on_the_layout() {
    assert_eq!(help_text(Pane::List, false), " j/k navigate   Enter detail   q quit ");
    assert_eq!(help_text(Pane::Detail, false), " j/k scroll   h/Esc back   n/p prev/next   q quit ");
    assert_eq!(help_text(Pane::Detail, true), " j/k navigate   Enter detail   q quit ");
}

#[test]
fn list_rows_and_title() {
    assert_eq!(list_title("a/b", 12), " diwa  a/b  (12) ");
    let row = list_row(&insight());
    assert_eq!(row.date, "2026-03-28 ");
    assert_eq!(row.category, "[pattern] ");
    assert_eq!(row.title, "Title");
    assert_eq!(row.color, CategoryColor::Cyan);
}

#[test]
fn the_detail_view_shows_everything() {
    let d = detail(&insight());
    assert_eq!(d.title, "Title");
    assert_eq!(d.category, "[pattern]");
    assert_eq!(d.meta, "  2026-03-28  abcdef1");
    assert_eq!(d.body, vec!["line one".to_string(), "line two".to_string()]);
    assert_eq!(d.tags, Some("tags: x".to_string()));
    assert_eq!(d.files, vec!["  a.rs".to_string()]);
}
