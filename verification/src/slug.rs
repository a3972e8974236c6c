//! Index slugs: `owner--repo`, the directory name of a repository's index.
//!
//! A command's repository argument is a path (resolved through the git
//! remote by the caller), an `owner/repo` name, or a bare name matched
//! against the indexed slugs.
use vstd::prelude::*;
use crate::lemmas::{lemma_filter_step, lemma_str_views_push};
use crate::text::{
    contains, contains_chars, eq_str, join, join_chars, last_piece, split,
    push_all, push_str, replace_all, replace_chars, str_views, to_chars, views, from_chars,
};

verus! {

// ---------------------------------------------------------------------------
// Case folding
// ---------------------------------------------------------------------------

/// What `str::to_lowercase` returns for a text (full Unicode lower-casing).
pub uninterp spec fn unicode_lowercase(s: Seq<char>) -> Seq<char>;

/// Lower-cases a text.
/// Trusted: `str::to_lowercase` returns a value determined by its argument
/// alone, named `unicode_lowercase`; nothing more is stated of it.
#[verifier::external_body]
fn to_lowercase(s: &str) -> (r: String)
    ensures
        r@ == unicode_lowercase(s@),
{
    s.to_lowercase()
}

/// The code of a character once ASCII upper-case letters are folded to lower case.
pub open spec fn ascii_fold(c: char) -> u32 {
    let u = c as u32;
    if 65 <= u && u <= 90 {
        (u + 32) as u32
    } else {
        u
    }
}

/// `str::eq_ignore_ascii_case`: equal once ASCII letters are folded.
pub open spec fn eq_ignore_ascii_case(a: Seq<char>, b: Seq<char>) -> bool {
    a.len() == b.len() && forall|i: int| 0 <= i < a.len() ==> ascii_fold(a[i]) == ascii_fold(b[i])
}

fn ascii_fold_exec(c: char) -> (r: u32)
    ensures
        r == ascii_fold(c),
{
    let u = c as u32;
    if 65 <= u && u <= 90 {
        u + 32
    } else {
        u
    }
}

/// Executable `eq_ignore_ascii_case`.
pub fn eq_ignore_ascii_case_chars(a: &Vec<char>, b: &Vec<char>) -> (r: bool)
    ensures
        r == eq_ignore_ascii_case(a@, b@),
{
    if a.len() != b.len() {
        return false;
    }
    let mut i: usize = 0;
    while i < a.len()
        invariant
            i <= a.len(),
            a.len() == b.len(),
            forall|j: int| 0 <= j < i ==> ascii_fold(a@[j]) == ascii_fold(b@[j]),
        decreases a.len() - i,
    {
        if ascii_fold_exec(a[i]) != ascii_fold_exec(b[i]) {
            return false;
        }
        i = i + 1;
    }
    true
}

// ---------------------------------------------------------------------------
// Slugs and display names
// ---------------------------------------------------------------------------

/// The slug of a repository: `owner--name`.
pub open spec fn slug_of(owner: Seq<char>, name: Seq<char>) -> Seq<char> {
    owner + "--"@ + name
}

/// The slug of a repository.
pub fn slug_for(owner: &str, name: &str) -> (r: String)
    ensures
        r@ == slug_of(owner@, name@),
{
    let mut r = String::new();
    push_str(&mut r, owner);
    push_str(&mut r, "--");
    push_str(&mut r, name);
    r
}

/// The display name of a slug: each `--` shown as `/`.
pub open spec fn display_of(slug: Seq<char>) -> Seq<char> {
    replace_all(slug, "--"@, "/"@)
}

/// The display name of a slug (`slug.replace("--", "/")`).
pub fn slug_display(slug: &str) -> (r: String)
    ensures
        r@ == display_of(slug@),
{
    proof {
        reveal_strlit("--");
    }
    let s = to_chars(slug);
    let pat = to_chars("--");
    let to = to_chars("/");
    let r = replace_chars(&s, &pat, &to);
    from_chars(&r)
}

/// The slug named by an `owner/repo` argument: each `/` becomes `--`.
pub open spec fn slug_of_name(arg: Seq<char>) -> Seq<char> {
    replace_all(arg, "/"@, "--"@)
}

/// An argument that names a path: it starts with `.` or `/`.
pub open spec fn is_path_like(arg: Seq<char>) -> bool {
    arg.len() > 0 && (arg[0] == '.' || arg[0] == '/')
}

/// Whether an argument names a path.
pub fn path_like(arg: &str) -> (r: bool)
    ensures
        r == is_path_like(arg@),
{
    let v = to_chars(arg);
    v.len() > 0 && (v[0] == '.' || v[0] == '/')
}

// ---------------------------------------------------------------------------
// Matching a bare name against the indexed slugs
// ---------------------------------------------------------------------------

/// The index directories that can hold a repository (`models` holds the
/// embedding model).
pub open spec fn candidates(entries: Seq<Seq<char>>) -> Seq<Seq<char>> {
    entries.filter(|e: Seq<char>| e != "models"@)
}

/// Slugs whose last `--` piece (`name.split("--").last()`) equals the
/// argument, ignoring ASCII case.
pub open spec fn exact_matches(cands: Seq<Seq<char>>, arg: Seq<char>) -> Seq<Seq<char>> {
    cands.filter(|n: Seq<char>| eq_ignore_ascii_case(split(n, "--"@).last(), arg))
}

/// Slugs that contain the argument once both are lower-cased.
pub open spec fn fuzzy_matches(cands: Seq<Seq<char>>, arg: Seq<char>) -> Seq<Seq<char>> {
    cands.filter(|n: Seq<char>| contains(unicode_lowercase(n), unicode_lowercase(arg)))
}

/// Where a repository argument leads.
#[derive(Debug)]
pub enum SlugResolution {
    /// The argument is a path: the slug comes from the repository's git remote.
    FromRemote,
    /// The slug itself.
    Named(String),
}

/// Why a repository argument names no single index.
#[derive(Debug)]
pub enum SlugError {
    /// Several slugs end in the name; they are listed.
    Ambiguous(Vec<String>),
    /// No slug ends in the name and several contain it; they are listed.
    AmbiguousFuzzy(Vec<String>),
    /// Nothing matches.
    NotFound,
}

/// The outcome of resolving a bare name, as a specification value.
pub enum NameMatch {
    One(Seq<char>),
    Ambiguous(Seq<Seq<char>>),
    AmbiguousFuzzy(Seq<Seq<char>>),
    NotFound,
}

/// Resolving a bare name against the index directories (`None` when the
/// index root does not exist).
pub open spec fn name_match(arg: Seq<char>, entries: Option<Seq<Seq<char>>>) -> NameMatch {
    match entries {
        None => NameMatch::NotFound,
        Some(es) => {
            let c = candidates(es);
            let exact = exact_matches(c, arg);
            let fuzzy = fuzzy_matches(c, arg);
            if exact.len() == 1 {
                NameMatch::One(exact[0])
            } else if exact.len() > 1 {
                NameMatch::Ambiguous(exact)
            } else if fuzzy.len() == 1 {
                NameMatch::One(fuzzy[0])
            } else if fuzzy.len() > 1 {
                NameMatch::AmbiguousFuzzy(fuzzy)
            } else {
                NameMatch::NotFound
            }
        },
    }
}

/// An error as a specification value.
pub open spec fn error_view(e: SlugError) -> NameMatch {
    match e {
        SlugError::Ambiguous(v) => NameMatch::Ambiguous(str_views(v@)),
        SlugError::AmbiguousFuzzy(v) => NameMatch::AmbiguousFuzzy(str_views(v@)),
        SlugError::NotFound => NameMatch::NotFound,
    }
}

/// What resolution gives, as a specification value.
pub open spec fn resolution_view(r: Result<SlugResolution, SlugError>) -> Option<NameMatch> {
    match r {
        Ok(SlugResolution::FromRemote) => None,
        Ok(SlugResolution::Named(s)) => Some(NameMatch::One(s@)),
        Err(e) => Some(error_view(e)),
    }
}

/// The resolution of a repository argument.
pub open spec fn resolution(arg: Seq<char>, entries: Option<Seq<Seq<char>>>) -> Option<NameMatch> {
    if is_path_like(arg) {
        None
    } else if contains(arg, "/"@) {
        Some(NameMatch::One(slug_of_name(arg)))
    } else {
        Some(name_match(arg, entries))
    }
}

/// The options views of the index directory names.
pub open spec fn entries_view(entries: Option<Vec<String>>) -> Option<Seq<Seq<char>>> {
    match entries {
        None => None,
        Some(v) => Some(str_views(v@)),
    }
}

/// The entries that are not `models`.
fn candidate_entries(entries: &Vec<String>) -> (r: Vec<String>)
    ensures
        str_views(r@) == candidates(str_views(entries@)),
{
    let ghost pred = |e: Seq<char>| e != "models"@;
    let mut r: Vec<String> = Vec::new();
    let mut i: usize = 0;
    while i < entries.len()
        invariant
            i <= entries.len(),
            pred == (|e: Seq<char>| e != "models"@),
            str_views(r@) == str_views(entries@).take(i as int).filter(pred),
        decreases entries.len() - i,
    {
        proof {
            lemma_filter_step(str_views(entries@), i as int, pred);
            lemma_str_views_push(r@, entries@[i as int]);
        }
        if !eq_str(entries[i].as_str(), "models") {
            r.push(entries[i].clone());
        }
        i = i + 1;
    }
    assert(str_views(entries@).take(i as int) =~= str_views(entries@));
    r
}

/// The slugs whose last `--` piece equals the argument, ignoring ASCII case.
fn exact_entries(cands: &Vec<String>, arg: &str) -> (r: Vec<String>)
    ensures
        str_views(r@) == exact_matches(str_views(cands@), arg@),
{
    proof {
        reveal_strlit("--");
    }
    let ghost pred = |n: Seq<char>| eq_ignore_ascii_case(split(n, "--"@).last(), arg@);
    let a = to_chars(arg);
    let sep = to_chars("--");
    let mut r: Vec<String> = Vec::new();
    let mut i: usize = 0;
    while i < cands.len()
        invariant
            i <= cands.len(),
            a@ == arg@,
            sep@ == "--"@,
            sep.len() > 0,
            pred == (|n: Seq<char>| eq_ignore_ascii_case(split(n, "--"@).last(), arg@)),
            str_views(r@) == str_views(cands@).take(i as int).filter(pred),
        decreases cands.len() - i,
    {
        proof {
            lemma_filter_step(str_views(cands@), i as int, pred);
            lemma_str_views_push(r@, cands@[i as int]);
        }
        let name = to_chars(cands[i].as_str());
        let piece = last_piece(&name, &sep);
        proof {
            crate::text::lemma_last_piece(name@, sep@);
        }
        if eq_ignore_ascii_case_chars(&piece, &a) {
            r.push(cands[i].clone());
        }
        i = i + 1;
    }
    assert(str_views(cands@).take(i as int) =~= str_views(cands@));
    r
}

/// The slugs that contain the argument once both are lower-cased.
fn fuzzy_entries(cands: &Vec<String>, arg: &str) -> (r: Vec<String>)
    ensures
        str_views(r@) == fuzzy_matches(str_views(cands@), arg@),
{
    let ghost pred = |n: Seq<char>| contains(unicode_lowercase(n), unicode_lowercase(arg@));
    let lower_arg = to_lowercase(arg);
    let a = to_chars(lower_arg.as_str());
    let mut r: Vec<String> = Vec::new();
    let mut i: usize = 0;
    while i < cands.len()
        invariant
            i <= cands.len(),
            a@ == unicode_lowercase(arg@),
            pred == (|n: Seq<char>| contains(unicode_lowercase(n), unicode_lowercase(arg@))),
            str_views(r@) == str_views(cands@).take(i as int).filter(pred),
        decreases cands.len() - i,
    {
        proof {
            lemma_filter_step(str_views(cands@), i as int, pred);
            lemma_str_views_push(r@, cands@[i as int]);
        }
        let lower = to_lowercase(cands[i].as_str());
        let name = to_chars(lower.as_str());
        if contains_chars(&name, &a) {
            r.push(cands[i].clone());
        }
        i = i + 1;
    }
    assert(str_views(cands@).take(i as int) =~= str_views(cands@));
    r
}

/// Resolves a repository argument to a slug.
///
/// A path (`.`, `/…`) is left to the caller, who reads the git remote. An
/// `owner/repo` name becomes `owner--repo`. A bare name is matched against
/// `entries`, the names of the index root's subdirectories (`None` when the
/// index root does not exist): first by the slug's last `--` piece, ignoring
/// ASCII case, then by lower-cased containment. One match is the answer;
/// several are an ambiguity; none is `NotFound`.
pub fn resolve_slug(repo_arg: &str, entries: Option<Vec<String>>) -> (r: Result<SlugResolution, SlugError>)
    ensures
        resolution_view(r) == resolution(repo_arg@, entries_view(entries)),
{
    if path_like(repo_arg) {
        return Ok(SlugResolution::FromRemote);
    }
    let a = to_chars(repo_arg);
    let slash = to_chars("/");
    if contains_chars(&a, &slash) {
        let to = to_chars("--");
        proof {
            reveal_strlit("/");
        }
        let s = replace_chars(&a, &slash, &to);
        return Ok(SlugResolution::Named(from_chars(&s)));
    }
    match entries {
        None => Err(SlugError::NotFound),
        Some(es) => {
            let c = candidate_entries(&es);
            let exact = exact_entries(&c, repo_arg);
            if exact.len() == 1 {
                return Ok(SlugResolution::Named(exact[0].clone()));
            }
            if exact.len() > 1 {
                return Err(SlugError::Ambiguous(exact));
            }
            let fuzzy = fuzzy_entries(&c, repo_arg);
            if fuzzy.len() == 1 {
                return Ok(SlugResolution::Named(fuzzy[0].clone()));
            }
            if fuzzy.len() > 1 {
                return Err(SlugError::AmbiguousFuzzy(fuzzy));
            }
            Err(SlugError::NotFound)
        },
    }
}

// ---------------------------------------------------------------------------
// Error messages
// ---------------------------------------------------------------------------

/// The display names of several slugs, separated by `, `.
pub open spec fn display_list(slugs: Seq<Seq<char>>) -> Seq<char> {
    join(slugs.map_values(|s: Seq<char>| display_of(s)), ", "@)
}

/// The message for an argument that names no single index.
pub open spec fn slug_error_text(e: NameMatch, arg: Seq<char>) -> Seq<char> {
    match e {
        NameMatch::Ambiguous(v) => "Ambiguous repo name '"@ + arg + "'. Matches: "@ + display_list(v),
        NameMatch::AmbiguousFuzzy(v) => "Ambiguous repo name '"@ + arg + "'. Did you mean one of: "@
            + display_list(v),
        _ => "No indexed repo matching '"@ + arg + "'. Run `diwa index` in the repo first."@,
    }
}

fn display_list_exec(slugs: &Vec<String>) -> (r: Vec<char>)
    ensures
        r@ == display_list(str_views(slugs@)),
{
    let mut parts: Vec<Vec<char>> = Vec::new();
    let mut i: usize = 0;
    while i < slugs.len()
        invariant
            i <= slugs.len(),
            views(parts@) == str_views(slugs@).take(i as int).map_values(|s: Seq<char>| display_of(s)),
        decreases slugs.len() - i,
    {
        let d = slug_display(slugs[i].as_str());
        let ghost before = parts@;
        parts.push(to_chars(d.as_str()));
        proof {
            assert(views(parts@) =~= views(before).push(display_of(slugs@[i as int]@)));
            assert(str_views(slugs@).take(i + 1) =~= str_views(slugs@).take(i as int).push(
                slugs@[i as int]@,
            ));
            assert(views(parts@) =~= str_views(slugs@).take(i + 1).map_values(
                |s: Seq<char>| display_of(s),
            ));
        }
        i = i + 1;
    }
    assert(str_views(slugs@).take(i as int) =~= str_views(slugs@));
    let sep = to_chars(", ");
    join_chars(&parts, &sep)
}

impl SlugError {
    /// The message shown for this error.
    pub fn message(&self, repo_arg: &str) -> (r: String)
        ensures
            r@ == slug_error_text(error_view(*self), repo_arg@),
    {
        let mut r = String::new();
        match self {
            SlugError::Ambiguous(v) => {
                push_str(&mut r, "Ambiguous repo name '");
                push_str(&mut r, repo_arg);
                push_str(&mut r, "'. Matches: ");
                let l = display_list_exec(v);
                push_all(&mut r, &l);
            },
            SlugError::AmbiguousFuzzy(v) => {
                push_str(&mut r, "Ambiguous repo name '");
                push_str(&mut r, repo_arg);
                push_str(&mut r, "'. Did you mean one of: ");
                let l = display_list_exec(v);
                push_all(&mut r, &l);
            },
            SlugError::NotFound => {
                push_str(&mut r, "No indexed repo matching '");
                push_str(&mut r, repo_arg);
                push_str(&mut r, "'. Run `diwa index` in the repo first.");
            },
        }
        r
    }
}

// ---------------------------------------------------------------------------
// GitHub remotes
// ---------------------------------------------------------------------------

/// The part of a GitHub remote address after the host, for the three forms
/// git accepts: `https://github.com/`, `git@github.com:` and
/// `ssh://git@github.com/`.
pub open spec fn github_path(url: Seq<char>) -> Option<Seq<char>> {
    if crate::text::starts_with(url, "https://github.com/"@) {
        Some(url.skip("https://github.com/"@.len() as int))
    } else if crate::text::starts_with(url, "git@github.com:"@) {
        Some(url.skip("git@github.com:"@.len() as int))
    } else if crate::text::starts_with(url, "ssh://git@github.com/"@) {
        Some(url.skip("ssh://git@github.com/"@.len() as int))
    } else {
        None
    }
}

/// A repository path without its `.git` suffix.
pub open spec fn without_git_suffix(p: Seq<char>) -> Seq<char> {
    if p.len() >= 4 && p.skip(p.len() - 4) == ".git"@ {
        p.take(p.len() - 4)
    } else {
        p
    }
}

/// The owner and the name of the GitHub repository a remote address points
/// at: the two non-empty parts of `owner/name`, after the host and before
/// an optional `.git`.
pub open spec fn owner_repo_of(url: Seq<char>) -> Option<(Seq<char>, Seq<char>)> {
    match github_path(crate::text::trim(url)) {
        Some(p) => {
            let q = without_git_suffix(p);
            let i = crate::text::first_index(q, '/');
            if 0 < i && i < q.len() - 1 && !q.skip(i + 1).contains('/') {
                Some((q.take(i), q.skip(i + 1)))
            } else {
                None
            }
        },
        None => None,
    }
}

fn strip_prefix_chars(s: &Vec<char>, p: &str) -> (r: Option<Vec<char>>)
    ensures
        match r {
            Some(rest) => crate::text::starts_with(s@, p@) && rest@ == s@.skip(p@.len() as int),
            None => !crate::text::starts_with(s@, p@),
        },
{
    let pv = to_chars(p);
    if crate::text::starts_with_chars(s, &pv) {
        Some(crate::text::slice_chars(s, pv.len(), s.len()))
    } else {
        None
    }
}

/// The owner and name of the GitHub repository behind a remote address, or
/// `None` when it is not a GitHub repository address.
pub fn github_owner_repo(url: &str) -> (r: Option<(String, String)>)
    ensures
        match r {
            Some((o, n)) => owner_repo_of(url@) == Some((o@, n@)),
            None => owner_repo_of(url@) is None,
        },
{
    let t = crate::text::trim_chars(&to_chars(url));
    let path = match strip_prefix_chars(&t, "https://github.com/") {
        Some(p) => p,
        None => match strip_prefix_chars(&t, "git@github.com:") {
            Some(p) => p,
            None => match strip_prefix_chars(&t, "ssh://git@github.com/") {
                Some(p) => p,
                None => return None,
            },
        },
    };
    assert(github_path(t@) == Some(path@));
    let suffix = to_chars(".git");
    let q = if path.len() >= 4 && crate::text::eq_chars(
        &crate::text::slice_chars(&path, path.len() - 4, path.len()),
        &suffix,
    ) {
        crate::text::slice_chars(&path, 0, path.len() - 4)
    } else {
        crate::text::slice_chars(&path, 0, path.len())
    };
    assert(q@ =~= without_git_suffix(path@));
    let mut i: usize = 0;
    while i < q.len() && q[i] != '/'
        invariant
            i <= q.len(),
            forall|j: int| 0 <= j < i ==> q@[j] != '/',
        decreases q.len() - i,
    {
        i = i + 1;
    }
    proof {
        crate::text::lemma_first_index_unique(q@, '/', i as int);
    }
    if !(0 < i && i < q.len() && q.len() - i > 1) {
        return None;
    }
    let name = crate::text::slice_chars(&q, i + 1, q.len());
    assert(name@ =~= q@.skip(i + 1));
    let ghost u = url@;
    let mut k: usize = 0;
    while k < name.len()
        invariant
            k <= name.len(),
            name@ == q@.skip(i + 1),
            forall|j: int| 0 <= j < k ==> name@[j] != '/',
            u == url@,
            github_path(crate::text::trim(u)) == Some(path@),
            q@ == without_git_suffix(path@),
            crate::text::first_index(q@, '/') == i,
            0 < i < q.len() - 1,
        decreases name.len() - k,
    {
        if name[k] == '/' {
            assert(q@.skip(i + 1)[k as int] == '/');
            assert(q@.skip(i + 1).contains('/'));
            return None;
        }
        k = k + 1;
    }
    let owner = crate::text::slice_chars(&q, 0, i);
    assert(owner@ =~= q@.take(i as int));
    Some((from_chars(&owner), from_chars(&name)))
}

} // verus!
