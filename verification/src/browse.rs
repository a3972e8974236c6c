//! The insight browser's behaviour: how keys move the selection and switch
//! between the list and the detail view, and what the list and the detail
//! view show. Drawing on the terminal is the caller's.
use vstd::prelude::*;
use crate::db::StoredInsight;
use crate::deep_search::{short_sha, short_sha_of};
use crate::extract::is_boundary;
use crate::numbers::{decimal, push_decimal};
use crate::reflect::{date_of, date_part};
use crate::text::{
    byte_len, eq_str, from_chars, lines, push_str, split_lines, str_views, to_chars, views,
};

verus! {

// ---------------------------------------------------------------------------
// Categories and layout
// ---------------------------------------------------------------------------

/// The colour a category is shown in.
#[derive(Debug, Clone, Copy, PartialEq, Eq, Structural)]
pub enum CategoryColor {
    Yellow,
    Cyan,
    Green,
    Magenta,
    Red,
    LightRed,
    White,
}

/// The colour of each known category; others are white.
pub open spec fn category_color_of(cat: Seq<char>) -> CategoryColor {
    if cat == "decision"@ {
        CategoryColor::Yellow
    } else if cat == "pattern"@ {
        CategoryColor::Cyan
    } else if cat == "learning"@ {
        CategoryColor::Green
    } else if cat == "architecture"@ {
        CategoryColor::Magenta
    } else if cat == "migration"@ {
        CategoryColor::Red
    } else if cat == "bugfix"@ {
        CategoryColor::LightRed
    } else {
        CategoryColor::White
    }
}

/// The colour a category is shown in.
pub fn category_color(cat: &str) -> (r: CategoryColor)
    ensures
        r == category_color_of(cat@),
{
    if eq_str(cat, "decision") {
        CategoryColor::Yellow
    } else if eq_str(cat, "pattern") {
        CategoryColor::Cyan
    } else if eq_str(cat, "learning") {
        CategoryColor::Green
    } else if eq_str(cat, "architecture") {
        CategoryColor::Magenta
    } else if eq_str(cat, "migration") {
        CategoryColor::Red
    } else if eq_str(cat, "bugfix") {
        CategoryColor::LightRed
    } else {
        CategoryColor::White
    }
}

/// Terminal width from which the list and the detail view sit side by side.
pub const WIDE_THRESHOLD: u16 = 100;

/// Whether a terminal is wide enough for the side-by-side layout.
pub fn is_wide(width: u16) -> (r: bool)
    ensures
        r == (width >= WIDE_THRESHOLD),
{
    width >= WIDE_THRESHOLD
}

// ---------------------------------------------------------------------------
// Keys and state
// ---------------------------------------------------------------------------

/// Which view has the screen on a narrow terminal.
#[derive(Debug, Clone, Copy, PartialEq, Eq, Structural)]
pub enum Pane {
    List,
    Detail,
}

/// The browser's state: the view, the selected insight and how far the
/// detail view is scrolled.
#[derive(Debug, Clone, Copy, PartialEq, Eq, Structural)]
pub struct BrowseState {
    pub view: Pane,
    pub selected: usize,
    pub scroll: u16,
}

/// A key press the browser reacts to.
#[derive(Debug, Clone, Copy, PartialEq, Eq, Structural)]
pub enum Key {
    Char(char),
    Esc,
    Down,
    Up,
    Enter,
    Backspace,
    Home,
    End,
    Other,
}

/// What a key press leads to.
#[derive(Debug, Clone, Copy, PartialEq, Eq, Structural)]
pub enum Step {
    Continue(BrowseState),
    Quit,
}

/// The state the browser opens in: the list, first insight selected.
pub fn initial_state() -> (s: BrowseState)
    ensures
        s == (BrowseState { view: Pane::List, selected: 0, scroll: 0 }),
{
    BrowseState { view: Pane::List, selected: 0, scroll: 0 }
}

/// The selection moved one down, when there is an insight below.
pub open spec fn moved_down(s: BrowseState, count: usize) -> BrowseState {
    if (s.selected as int) < (count as int) - 1 {
        BrowseState { view: s.view, selected: (s.selected + 1) as usize, scroll: 0 }
    } else {
        s
    }
}

/// The selection moved one up, when there is an insight above.
pub open spec fn moved_up(s: BrowseState) -> BrowseState {
    if s.selected > 0 {
        BrowseState { view: s.view, selected: (s.selected - 1) as usize, scroll: 0 }
    } else {
        s
    }
}

/// `u16::saturating_add(1)`.
pub open spec fn scroll_down(scroll: u16) -> u16 {
    if scroll < u16::MAX {
        (scroll + 1) as u16
    } else {
        scroll
    }
}

/// `u16::saturating_sub(1)`.
pub open spec fn scroll_up(scroll: u16) -> u16 {
    if scroll > 0 {
        (scroll - 1) as u16
    } else {
        0
    }
}

/// The browser's answer to a key, on a terminal that is `wide` or not, with
/// `count` insights:
/// - `q` quits; Esc goes back from the narrow detail view and quits otherwise;
/// - Down/`j` and Up/`k` move the selection in the list (and in the wide
///   layout), and scroll the narrow detail view;
/// - Enter/`l` opens the narrow detail view; `h`/Backspace leaves it;
/// - `n`/`p` move the selection from the detail view;
/// - Home/`g` and End/`G` jump to the first and last insight from the list.
///
/// Moving the selection resets the scroll.
pub open spec fn step_of(s: BrowseState, key: Key, wide: bool, count: usize) -> Step {
    let is_list = s.view == Pane::List;
    match key {
        Key::Char('q') => Step::Quit,
        Key::Esc => if s.view == Pane::Detail && !wide {
            Step::Continue(BrowseState { view: Pane::List, ..s })
        } else {
            Step::Quit
        },
        Key::Down | Key::Char('j') => if is_list || wide {
            Step::Continue(moved_down(s, count))
        } else {
            Step::Continue(BrowseState { scroll: scroll_down(s.scroll), ..s })
        },
        Key::Up | Key::Char('k') => if is_list || wide {
            Step::Continue(moved_up(s))
        } else {
            Step::Continue(BrowseState { scroll: scroll_up(s.scroll), ..s })
        },
        Key::Enter | Key::Char('l') => if !wide && is_list {
            Step::Continue(BrowseState { view: Pane::Detail, scroll: 0, ..s })
        } else {
            Step::Continue(s)
        },
        Key::Char('h') | Key::Backspace => if !is_list && !wide {
            Step::Continue(BrowseState { view: Pane::List, scroll: 0, ..s })
        } else {
            Step::Continue(s)
        },
        Key::Char('n') => if !is_list {
            Step::Continue(moved_down(s, count))
        } else {
            Step::Continue(s)
        },
        Key::Char('p') => if !is_list {
            Step::Continue(moved_up(s))
        } else {
            Step::Continue(s)
        },
        Key::Home | Key::Char('g') => if is_list {
            Step::Continue(BrowseState { selected: 0, scroll: 0, ..s })
        } else {
            Step::Continue(s)
        },
        Key::End | Key::Char('G') => if is_list {
            Step::Continue(
                BrowseState {
                    selected: if count > 0 {
                        (count - 1) as usize
                    } else {
                        0
                    },
                    scroll: 0,
                    ..s
                },
            )
        } else {
            Step::Continue(s)
        },
        _ => Step::Continue(s),
    }
}

fn move_down(s: BrowseState, count: usize) -> (r: BrowseState)
    ensures
        r == moved_down(s, count),
{
    if count > 0 && s.selected < count - 1 {
        BrowseState { view: s.view, selected: s.selected + 1, scroll: 0 }
    } else {
        s
    }
}

fn move_up(s: BrowseState) -> (r: BrowseState)
    ensures
        r == moved_up(s),
{
    if s.selected > 0 {
        BrowseState { view: s.view, selected: s.selected - 1, scroll: 0 }
    } else {
        s
    }
}

/// The browser's answer to a key press.
pub fn step(s: BrowseState, key: Key, wide: bool, count: usize) -> (r: Step)
    ensures
        r == step_of(s, key, wide, count),
{
    let is_list = match s.view {
        Pane::List => true,
        Pane::Detail => false,
    };
    match key {
        Key::Char('q') => Step::Quit,
        Key::Esc => if !is_list && !wide {
            Step::Continue(BrowseState { view: Pane::List, selected: s.selected, scroll: s.scroll })
        } else {
            Step::Quit
        },
        Key::Down | Key::Char('j') => if is_list || wide {
            Step::Continue(move_down(s, count))
        } else {
            let scroll = if s.scroll < u16::MAX {
                s.scroll + 1
            } else {
                s.scroll
            };
            Step::Continue(BrowseState { view: s.view, selected: s.selected, scroll })
        },
        Key::Up | Key::Char('k') => if is_list || wide {
            Step::Continue(move_up(s))
        } else {
            let scroll = if s.scroll > 0 {
                s.scroll - 1
            } else {
                0
            };
            Step::Continue(BrowseState { view: s.view, selected: s.selected, scroll })
        },
        Key::Enter | Key::Char('l') => if !wide && is_list {
            Step::Continue(BrowseState { view: Pane::Detail, selected: s.selected, scroll: 0 })
        } else {
            Step::Continue(s)
        },
        Key::Char('h') | Key::Backspace => if !is_list && !wide {
            Step::Continue(BrowseState { view: Pane::List, selected: s.selected, scroll: 0 })
        } else {
            Step::Continue(s)
        },
        Key::Char('n') => if !is_list {
            Step::Continue(move_down(s, count))
        } else {
            Step::Continue(s)
        },
        Key::Char('p') => if !is_list {
            Step::Continue(move_up(s))
        } else {
            Step::Continue(s)
        },
        Key::Home | Key::Char('g') => if is_list {
            Step::Continue(BrowseState { view: s.view, selected: 0, scroll: 0 })
        } else {
            Step::Continue(s)
        },
        Key::End | Key::Char('G') => if is_list {
            let last = if count > 0 {
                count - 1
            } else {
                0
            };
            Step::Continue(BrowseState { view: s.view, selected: last, scroll: 0 })
        } else {
            Step::Continue(s)
        },
        _ => Step::Continue(s),
    }
}

/// Every key keeps the selection on an insight: from a state whose
/// selection is within a non-empty list, any step leads to such a state.
pub proof fn law_selection_stays_in_range(s: BrowseState, key: Key, wide: bool, count: usize)
    requires
        s.selected < count,
    ensures
        step_of(s, key, wide, count) matches Step::Continue(t) ==> t.selected < count,
{
}

/// Only `q`, or Esc outside the narrow detail view, quits.
pub proof fn law_quit_keys(s: BrowseState, key: Key, wide: bool, count: usize)
    ensures
        (step_of(s, key, wide, count) is Quit) <==> (key == Key::Char('q') || (key == Key::Esc && !(
        s.view == Pane::Detail && !wide))),
{
}

/// On a narrow terminal, opening the detail view and going back returns
/// to the list with the same insight selected.
pub proof fn law_detail_round_trip(s: BrowseState, count: usize)
    requires
        s.view == Pane::List,
    ensures
        step_of(s, Key::Enter, false, count) matches Step::Continue(d) && step_of(
            d,
            Key::Char('h'),
            false,
            count,
        ) == Step::Continue(BrowseState { view: Pane::List, selected: s.selected, scroll: 0 }),
{
}

// ---------------------------------------------------------------------------
// What is shown
// ---------------------------------------------------------------------------

/// The key help shown at the bottom.
pub open spec fn help_text_of(view: Pane, wide: bool) -> Seq<char> {
    if wide || view == Pane::List {
        " j/k navigate   Enter detail   q quit "@
    } else {
        " j/k scroll   h/Esc back   n/p prev/next   q quit "@
    }
}

/// The key help shown at the bottom of the screen.
pub fn help_text(view: Pane, wide: bool) -> (r: &'static str)
    ensures
        r@ == help_text_of(view, wide),
{
    if wide || view == Pane::List {
        " j/k navigate   Enter detail   q quit "
    } else {
        " j/k scroll   h/Esc back   n/p prev/next   q quit "
    }
}

/// The title of the list's frame.
pub open spec fn list_title_of(repo: Seq<char>, count: nat) -> Seq<char> {
    " diwa  "@ + repo + "  ("@ + decimal(count) + ") "@
}

/// The title of the list's frame: the repository and the number of insights.
pub fn list_title(repo: &str, count: u64) -> (r: String)
    ensures
        r@ == list_title_of(repo@, count as nat),
{
    let mut r = String::new();
    push_str(&mut r, " diwa  ");
    push_str(&mut r, repo);
    push_str(&mut r, "  (");
    push_decimal(&mut r, count);
    push_str(&mut r, ") ");
    r
}

/// One row of the list: the date (dimmed), the category tag (in the
/// category's colour) and the title.
#[derive(Debug)]
pub struct ListRow {
    pub date: String,
    pub category: String,
    pub title: String,
    pub color: CategoryColor,
}

/// The row shown for an insight.
pub open spec fn list_row_of(r: StoredInsight) -> (Seq<char>, Seq<char>, Seq<char>, CategoryColor) {
    (date_part(r.commit_date@) + " "@, "["@ + r.category@ + "] "@, r.title@, category_color_of(r.category@))
}

/// The list row of an insight.
pub fn list_row(r: &StoredInsight) -> (row: ListRow)
    ensures
        (row.date@, row.category@, row.title@, row.color) == list_row_of(*r),
{
    let mut date = date_of(r.commit_date.as_str());
    push_str(&mut date, " ");
    let mut category = String::new();
    push_str(&mut category, "[");
    push_str(&mut category, r.category.as_str());
    push_str(&mut category, "] ");
    let title = from_chars(&to_chars(r.title.as_str()));
    ListRow { date, category, title, color: category_color(r.category.as_str()) }
}

/// The detail view of an insight: its title, its category tag and
/// date-and-sha line, its body line by line, and its tags and files when
/// it has any.
#[derive(Debug)]
pub struct Detail {
    pub title: String,
    pub category: String,
    pub color: CategoryColor,
    pub meta: String,
    pub body: Vec<String>,
    pub tags: Option<String>,
    pub files: Vec<String>,
}

/// The detail view's tag line, when there are tags.
pub open spec fn tags_line_of(tags: Seq<char>) -> Option<Seq<char>> {
    if tags.len() > 0 {
        Some("tags: "@ + tags)
    } else {
        None
    }
}

/// The detail view's date-and-sha line.
pub open spec fn meta_line_of(r: StoredInsight) -> Seq<char> {
    "  "@ + date_part(r.commit_date@) + "  "@ + short_sha_of(r.commit_sha@)
}

/// The file lines of the detail view.
pub open spec fn file_lines_of(files: Seq<Seq<char>>) -> Seq<Seq<char>> {
    files.map_values(|f: Seq<char>| "  "@ + f)
}

/// The detail view of an insight.
pub fn detail(r: &StoredInsight) -> (d: Detail)
    requires
        byte_len(r.commit_sha@) > 7 ==> is_boundary(r.commit_sha@, 7),
    ensures
        d.title@ == r.title@,
        d.category@ == "["@ + r.category@ + "]"@,
        d.color == category_color_of(r.category@),
        d.meta@ == meta_line_of(*r),
        str_views(d.body@) == lines(r.body@),
        match d.tags {
            Some(t) => tags_line_of(r.tags@) == Some(t@),
            None => tags_line_of(r.tags@) is None,
        },
        str_views(d.files@) == file_lines_of(str_views(r.files@)),
{
    let title = from_chars(&to_chars(r.title.as_str()));
    let mut category = String::new();
    push_str(&mut category, "[");
    push_str(&mut category, r.category.as_str());
    push_str(&mut category, "]");
    let mut meta = String::new();
    push_str(&mut meta, "  ");
    let date = date_of(r.commit_date.as_str());
    push_str(&mut meta, date.as_str());
    push_str(&mut meta, "  ");
    let sha = short_sha(r.commit_sha.as_str());
    push_str(&mut meta, sha.as_str());
    let ls = split_lines(&to_chars(r.body.as_str()));
    let mut body: Vec<String> = Vec::new();
    let mut i: usize = 0;
    while i < ls.len()
        invariant
            i <= ls.len(),
            str_views(body@) == views(ls@).take(i as int),
        decreases ls.len() - i,
    {
        let ghost before = body@;
        let l = from_chars(&ls[i]);
        body.push(l);
        proof {
            assert(str_views(body@) =~= str_views(before).push(ls@[i as int]@));
            assert(views(ls@).take(i + 1) =~= views(ls@).take(i as int).push(ls@[i as int]@));
        }
        i = i + 1;
    }
    assert(views(ls@).take(i as int) =~= views(ls@));
    let t = to_chars(r.tags.as_str());
    let tags = if t.len() > 0 {
        let mut line = String::new();
        push_str(&mut line, "tags: ");
        push_str(&mut line, r.tags.as_str());
        Some(line)
    } else {
        None
    };
    let mut files: Vec<String> = Vec::new();
    let mut k: usize = 0;
    while k < r.files.len()
        invariant
            k <= r.files.len(),
            str_views(files@) == file_lines_of(str_views(r.files@).take(k as int)),
        decreases r.files.len() - k,
    {
        let mut line = String::new();
        push_str(&mut line, "  ");
        push_str(&mut line, r.files[k].as_str());
        let ghost before = files@;
        let ghost lv = line@;
        files.push(line);
        proof {
            assert(str_views(files@) =~= str_views(before).push(lv));
            assert(str_views(r.files@).take(k + 1) =~= str_views(r.files@).take(k as int).push(
                r.files@[k as int]@,
            ));
            assert(str_views(files@) =~= file_lines_of(str_views(r.files@).take(k + 1)));
        }
        k = k + 1;
    }
    assert(str_views(r.files@).take(k as int) =~= str_views(r.files@));
    Detail { title, category, color: category_color(r.category.as_str()), meta, body, tags, files }
}

} // verus!
