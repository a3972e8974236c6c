//! The background indexing daemon's launchd agent: the property list that
//! describes it, the `PATH` it runs with, and what `status` shows of
//! launchd's answer.
use vstd::prelude::*;
use crate::cli::path_join;
use crate::numbers::unsigned_value;
use crate::text::{
    contains, from_chars, join, join_chars, lines, push_all, push_str, replace_all, replace_chars,
    split_lines, starts_with, starts_with_chars, to_chars, trim, trim_chars, views,
};

verus! {

/// The launchd label of the agent.
pub const PLIST_LABEL: &'static str = "com.dorky-robot.diwa";
/// The file name of the agent's property list.
pub const PLIST_FILENAME: &'static str = "com.dorky-robot.diwa.plist";
/// Where launchd agents live, under the home directory.
pub const LAUNCH_AGENTS_DIR: &'static str = "Library/LaunchAgents";

// ---------------------------------------------------------------------------
// XML text
// ---------------------------------------------------------------------------

/// Text escaped for an XML element: `&`, `<` and `>` become entities, in
/// that order (`&` first, so the entities' own `&` are not escaped again).
pub open spec fn xml_escaped(s: Seq<char>) -> Seq<char> {
    replace_all(replace_all(replace_all(s, "&"@, "&amp;"@), "<"@, "&lt;"@), ">"@, "&gt;"@)
}

/// Escapes text for an XML element.
pub fn xml_escape(s: &str) -> (r: String)
    ensures
        r@ == xml_escaped(s@),
{
    proof {
        reveal_strlit("&");
        reveal_strlit("<");
        reveal_strlit(">");
    }
    let v = to_chars(s);
    let a = replace_chars(&v, &to_chars("&"), &to_chars("&amp;"));
    let b = replace_chars(&a, &to_chars("<"), &to_chars("&lt;"));
    let c = replace_chars(&b, &to_chars(">"), &to_chars("&gt;"));
    from_chars(&c)
}

/// Replacing a one-character pattern by a text without that character
/// leaves none of it.
pub proof fn lemma_replace_removes(s: Seq<char>, c: char, to: Seq<char>)
    requires
        !to.contains(c),
    ensures
        !replace_all(s, seq![c], to).contains(c),
    decreases s.len(),
{
    if s.len() > 0 {
        if starts_with(s, seq![c]) {
            lemma_replace_removes(s.skip(1), c, to);
            assert(!(to + replace_all(s.skip(1), seq![c], to)).contains(c)) by {
                let t = to + replace_all(s.skip(1), seq![c], to);
                if t.contains(c) {
                    let i = choose|i: int| 0 <= i < t.len() && t[i] == c;
                    if i < to.len() {
                        assert(to[i] == c);
                    } else {
                        assert(replace_all(s.skip(1), seq![c], to)[i - to.len()] == c);
                    }
                }
            }
        } else {
            lemma_replace_removes(s.skip(1), c, to);
            assert(s.take(1) =~= seq![s[0]]);
            let t = seq![s[0]] + replace_all(s.skip(1), seq![c], to);
            if t.contains(c) {
                let i = choose|i: int| 0 <= i < t.len() && t[i] == c;
                if i > 0 {
                    assert(replace_all(s.skip(1), seq![c], to)[i - 1] == c);
                }
            }
        }
    }
}

/// Replacing leaves a character out when neither the text nor the
/// replacement holds it.
pub proof fn lemma_replace_keeps_out(s: Seq<char>, pat: Seq<char>, to: Seq<char>, c: char)
    requires
        !s.contains(c),
        !to.contains(c),
    ensures
        !replace_all(s, pat, to).contains(c),
    decreases s.len(),
{
    if s.len() > 0 && pat.len() > 0 {
        if starts_with(s, pat) {
            let rest = s.skip(pat.len() as int);
            assert(!rest.contains(c)) by {
                if rest.contains(c) {
                    let i = choose|i: int| 0 <= i < rest.len() && rest[i] == c;
                    assert(s[i + pat.len()] == c);
                }
            }
            lemma_replace_keeps_out(rest, pat, to, c);
            let t = to + replace_all(rest, pat, to);
            if t.contains(c) {
                let i = choose|i: int| 0 <= i < t.len() && t[i] == c;
                if i < to.len() {
                    assert(to[i] == c);
                } else {
                    assert(replace_all(rest, pat, to)[i - to.len()] == c);
                }
            }
        } else {
            let rest = s.skip(1);
            assert(!rest.contains(c)) by {
                if rest.contains(c) {
                    let i = choose|i: int| 0 <= i < rest.len() && rest[i] == c;
                    assert(s[i + 1] == c);
                }
            }
            lemma_replace_keeps_out(rest, pat, to, c);
            let t = seq![s[0]] + replace_all(rest, pat, to);
            if t.contains(c) {
                let i = choose|i: int| 0 <= i < t.len() && t[i] == c;
                if i > 0 {
                    assert(replace_all(rest, pat, to)[i - 1] == c);
                } else {
                    assert(s.contains(s[0]));
                }
            }
        }
    }
}

/// Escaped text holds no `<` and no `>`, so it cannot open or close an
/// element of the property list.
pub proof fn law_xml_escaped_has_no_markup(s: Seq<char>)
    ensures
        !xml_escaped(s).contains('<'),
        !xml_escaped(s).contains('>'),
{
    reveal_strlit("&");
    reveal_strlit("<");
    reveal_strlit(">");
    reveal_strlit("&amp;");
    reveal_strlit("&lt;");
    reveal_strlit("&gt;");
    let a = replace_all(s, "&"@, "&amp;"@);
    let b = replace_all(a, "<"@, "&lt;"@);
    assert("<"@ =~= seq!['<']);
    assert(">"@ =~= seq!['>']);
    assert(!"&lt;"@.contains('<')) by {
        assert("&lt;"@ =~= seq!['&', 'l', 't', ';']);
    }
    assert(!"&gt;"@.contains('<') && !"&gt;"@.contains('>')) by {
        assert("&gt;"@ =~= seq!['&', 'g', 't', ';']);
    }
    lemma_replace_removes(a, '<', "&lt;"@);
    lemma_replace_keeps_out(b, ">"@, "&gt;"@, '<');
    lemma_replace_removes(b, '>', "&gt;"@);
}

// ---------------------------------------------------------------------------
// The property list
// ---------------------------------------------------------------------------

/// The property list up to the label.
pub const PLIST_HEAD: &'static str = r#"<?xml version="1.0" encoding="UTF-8"?>
<!DOCTYPE plist PUBLIC "-//Apple//DTD PLIST 1.0//EN" "http://www.apple.com/DTDs/PropertyList-1.0.dtd">
<plist version="1.0">
<dict>
    <key>Label</key>
    <string>"#;
/// From the label to the program path.
pub const PLIST_PROGRAM: &'static str = r#"</string>
    <key>ProgramArguments</key>
    <array>
        <string>"#;
/// From the program path to the daemon's `PATH`.
pub const PLIST_ENV: &'static str = r#"</string>
        <string>daemon</string>
        <string>run</string>
    </array>
    <key>EnvironmentVariables</key>
    <dict>
        <key>PATH</key>
        <string>"#;
/// From the end of the environment to the log path.
pub const PLIST_OUT: &'static str = r#"
    </dict>
    <key>RunAtLoad</key>
    <true/>
    <key>KeepAlive</key>
    <true/>
    <key>StandardOutPath</key>
    <string>"#;
/// Between the two log paths.
pub const PLIST_ERR: &'static str = r#"</string>
    <key>StandardErrorPath</key>
    <string>"#;
/// The end of the property list.
pub const PLIST_TAIL: &'static str = r#"</string>
    <key>ProcessType</key>
    <string>Background</string>
</dict>
</plist>
"#;
/// The entry for the ONNX Runtime library, before its path.
pub const ORT_ENTRY_HEAD: &'static str = "\n        <key>ORT_DYLIB_PATH</key>\n        <string>";

/// The environment entry naming the ONNX Runtime library, when one was found.
pub open spec fn ort_entry(dylib: Option<Seq<char>>) -> Seq<char> {
    match dylib {
        Some(d) => ORT_ENTRY_HEAD@ + xml_escaped(d) + "</string>"@,
        None => seq![],
    }
}

/// The agent's property list: it runs `<exe> daemon run` at load, keeps it
/// alive, gives it `PATH` (and the ONNX Runtime library when found), and
/// sends its output to the log.
pub open spec fn plist_text(exe: Seq<char>, log: Seq<char>, path_env: Seq<char>, dylib: Option<Seq<char>>) -> Seq<char> {
    PLIST_HEAD@ + PLIST_LABEL@ + PLIST_PROGRAM@ + xml_escaped(exe) + PLIST_ENV@ + xml_escaped(path_env)
        + "</string>"@ + ort_entry(dylib) + PLIST_OUT@ + xml_escaped(log) + PLIST_ERR@ + xml_escaped(
        log,
    ) + PLIST_TAIL@
}

/// The agent's property list.
pub fn plist_body(exe: &str, log: &str, path_env: &str, dylib: Option<String>) -> (r: String)
    ensures
        r@ == plist_text(exe@, log@, path_env@, crate::text::opt_view(dylib)),
{
    let mut r = String::new();
    push_str(&mut r, PLIST_HEAD);
    push_str(&mut r, PLIST_LABEL);
    push_str(&mut r, PLIST_PROGRAM);
    let e = xml_escape(exe);
    push_str(&mut r, e.as_str());
    push_str(&mut r, PLIST_ENV);
    let p = xml_escape(path_env);
    push_str(&mut r, p.as_str());
    push_str(&mut r, "</string>");
    match dylib {
        Some(d) => {
            push_str(&mut r, ORT_ENTRY_HEAD);
            let x = xml_escape(d.as_str());
            push_str(&mut r, x.as_str());
            push_str(&mut r, "</string>");
        },
        None => {
            assert(r@ + Seq::<char>::empty() =~= r@);
        },
    }
    push_str(&mut r, PLIST_OUT);
    let l = xml_escape(log);
    push_str(&mut r, l.as_str());
    push_str(&mut r, PLIST_ERR);
    push_str(&mut r, l.as_str());
    push_str(&mut r, PLIST_TAIL);
    r
}

/// Where the agent's property list is written, under the home directory.
pub open spec fn plist_path_of(home: Seq<char>) -> Seq<char> {
    path_join(path_join(home, LAUNCH_AGENTS_DIR@), PLIST_FILENAME@)
}

/// The path of the agent's property list.
pub fn plist_path(home: &str) -> (r: String)
    ensures
        r@ == plist_path_of(home@),
{
    let dir = crate::cli::join_path(home, LAUNCH_AGENTS_DIR);
    crate::cli::join_path(dir.as_str(), PLIST_FILENAME)
}

// ---------------------------------------------------------------------------
// The daemon's PATH
// ---------------------------------------------------------------------------

/// The user directories put first on the daemon's `PATH` when they exist.
pub open spec fn user_bin_dirs_of(home: Seq<char>) -> Seq<Seq<char>> {
    seq![path_join(home, ".local/bin"@), path_join(home, "bin"@), path_join(home, ".cargo/bin"@)]
}

/// The user directories that may go on the daemon's `PATH`, in order; the
/// caller keeps those that exist.
pub fn user_bin_dirs(home: &str) -> (r: Vec<String>)
    ensures
        crate::text::str_views(r@) == user_bin_dirs_of(home@),
{
    let mut r: Vec<String> = Vec::new();
    r.push(crate::cli::join_path(home, ".local/bin"));
    r.push(crate::cli::join_path(home, "bin"));
    r.push(crate::cli::join_path(home, ".cargo/bin"));
    assert(crate::text::str_views(r@) =~= user_bin_dirs_of(home@));
    r
}

/// The system directories always on the daemon's `PATH`.
pub open spec fn system_bin_dirs() -> Seq<Seq<char>> {
    seq!["/opt/homebrew/bin"@, "/usr/local/bin"@, "/usr/bin"@, "/bin"@]
}

/// The daemon's `PATH`: the existing user directories, then the system ones,
/// joined with `:`.
pub open spec fn daemon_path_of(user_dirs: Seq<Seq<char>>) -> Seq<char> {
    join(user_dirs + system_bin_dirs(), ":"@)
}

/// Builds the daemon's `PATH` from the user directories that exist.
pub fn daemon_path(user_dirs: &Vec<String>) -> (r: String)
    ensures
        r@ == daemon_path_of(crate::text::str_views(user_dirs@)),
{
    let mut parts: Vec<Vec<char>> = Vec::new();
    let mut i: usize = 0;
    while i < user_dirs.len()
        invariant
            i <= user_dirs.len(),
            views(parts@) == crate::text::str_views(user_dirs@).take(i as int),
        decreases user_dirs.len() - i,
    {
        let ghost before = parts@;
        let d = to_chars(user_dirs[i].as_str());
        parts.push(d);
        proof {
            assert(views(parts@) =~= views(before).push(user_dirs@[i as int]@));
            assert(crate::text::str_views(user_dirs@).take(i + 1) =~= crate::text::str_views(
                user_dirs@,
            ).take(i as int).push(user_dirs@[i as int]@));
        }
        i = i + 1;
    }
    assert(crate::text::str_views(user_dirs@).take(i as int) =~= crate::text::str_views(user_dirs@));
    let ghost users = views(parts@);
    let a = to_chars("/opt/homebrew/bin");
    let b = to_chars("/usr/local/bin");
    let c = to_chars("/usr/bin");
    let d = to_chars("/bin");
    let ghost (av, bv, cv, dv) = (a@, b@, c@, d@);
    parts.push(a);
    parts.push(b);
    parts.push(c);
    parts.push(d);
    assert(views(parts@) =~= users + seq![av, bv, cv, dv]);
    assert(seq![av, bv, cv, dv] =~= system_bin_dirs());
    let j = join_chars(&parts, &to_chars(":"));
    from_chars(&j)
}

// ---------------------------------------------------------------------------
// launchd's answers
// ---------------------------------------------------------------------------

/// The user id printed by `id -u`, read as `str::parse::<u32>` reads the
/// trimmed text.
pub open spec fn uid_of(text: Seq<char>) -> Option<u32> {
    match unsigned_value(trim(text)) {
        Some(v) => if v <= u32::MAX {
            Some(v as u32)
        } else {
            None
        },
        None => None,
    }
}

/// Reads the user id from the output of `id -u`.
pub fn parse_uid(text: &str) -> (r: Option<u32>)
    ensures
        r == uid_of(text@),
{
    let t = trim_chars(&to_chars(text));
    let s = from_chars(&t);
    crate::numbers::parse_u32(s.as_str())
}

/// The launchd domain of a user's agents.
pub open spec fn gui_domain_of(uid: u32) -> Seq<char> {
    "gui/"@ + crate::numbers::decimal(uid as nat)
}

/// The launchd domain of a user's agents (`gui/<uid>`).
pub fn gui_domain(uid: u32) -> (r: String)
    ensures
        r@ == gui_domain_of(uid),
{
    let mut r = String::new();
    push_str(&mut r, "gui/");
    crate::numbers::push_decimal(&mut r, uid as u64);
    r
}

/// A line of `launchctl print` worth showing: the agent's state, its pid,
/// or its last exit code.
pub open spec fn summary_worthy(line: Seq<char>) -> bool {
    starts_with(trim(line), "state ="@) || starts_with(trim(line), "pid ="@) || starts_with(
        trim(line),
        "last exit code"@,
    )
}

/// The summary `status` prints of `launchctl print`: the worthy lines,
/// trimmed and indented by two spaces.
pub open spec fn status_summary_of(text: Seq<char>) -> Seq<Seq<char>> {
    lines(text).filter(|l: Seq<char>| summary_worthy(l)).map_values(|l: Seq<char>| "  "@ + trim(l))
}

/// Summarises the output of `launchctl print`.
pub fn status_summary(text: &str) -> (r: Vec<String>)
    ensures
        crate::text::str_views(r@) == status_summary_of(text@),
{
    let ls = split_lines(&to_chars(text));
    let ghost pred = |l: Seq<char>| summary_worthy(l);
    let ghost f = |l: Seq<char>| "  "@ + trim(l);
    let p1 = to_chars("state =");
    let p2 = to_chars("pid =");
    let p3 = to_chars("last exit code");
    let mut r: Vec<String> = Vec::new();
    let mut i: usize = 0;
    while i < ls.len()
        invariant
            i <= ls.len(),
            p1@ == "state ="@,
            p2@ == "pid ="@,
            p3@ == "last exit code"@,
            pred == (|l: Seq<char>| summary_worthy(l)),
            f == (|l: Seq<char>| "  "@ + trim(l)),
            crate::text::str_views(r@) == views(ls@).take(i as int).filter(pred).map_values(f),
        decreases ls.len() - i,
    {
        proof {
            crate::lemmas::lemma_filter_step(views(ls@), i as int, pred);
        }
        let t = trim_chars(&ls[i]);
        if starts_with_chars(&t, &p1) || starts_with_chars(&t, &p2) || starts_with_chars(&t, &p3) {
            let mut line = String::new();
            push_str(&mut line, "  ");
            push_all(&mut line, &t);
            let ghost before = r@;
            let ghost lv = line@;
            r.push(line);
            proof {
                assert(crate::text::str_views(r@) =~= crate::text::str_views(before).push(lv));
                assert(views(ls@).take(i + 1).filter(pred) == views(ls@).take(i as int).filter(
                    pred,
                ).push(ls@[i as int]@));
                assert(crate::text::str_views(r@) =~= views(ls@).take(i + 1).filter(pred).map_values(
                    f,
                ));
            }
        } else {
            assert(views(ls@).take(i + 1).filter(pred) == views(ls@).take(i as int).filter(pred));
        }
        i = i + 1;
    }
    proof {
        assert(views(ls@).take(i as int) =~= views(ls@));
    }
    r
}

} // verus!
