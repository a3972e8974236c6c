//! The command line: its commands, and the decisions and texts of the
//! commands that are not I/O (where the index lives, when to reflect, how a
//! search answer is laid out, how paths are shown).
use vstd::prelude::*;
use crate::db::StoredInsight;
use crate::deep_search::{short_sha, short_sha_of, shas_shortenable};
use crate::extract::is_boundary;
use crate::numbers::{decimal, push_decimal, push_signed_decimal, signed_decimal};
use crate::reflect::{date_of, date_part};
use crate::text::{byte_len, from_chars, push_all, push_str, slice_chars, starts_with, starts_with_chars, to_chars};

verus! {

// ---------------------------------------------------------------------------
// Commands
// ---------------------------------------------------------------------------

/// The parsed command line.
#[derive(Debug)]
pub struct Cli {
    pub command: Commands,
}

/// The subcommands.
#[derive(Debug)]
pub enum Commands {
    /// Index git history (incremental).
    Index { dir: String, max_commits: usize, batch_size: usize },
    /// Rebuild index from scratch.
    Reindex { dir: String, max_commits: usize, batch_size: usize },
    /// Search indexed git history.
    Search { repo: String, query: String, json: bool, n: usize, deep: bool },
    /// Force-regenerate reflections (deeper cross-commit insights).
    Reflect { repo: String },
    /// Browse insights in a scrollable TUI.
    Browse { repo: String },
    /// Install diwa into a repo (adds post-commit hook).
    Init { dir: String },
    /// Remove diwa from a repo.
    Uninit { dir: String },
    /// Refresh hooks and reindex all registered repos.
    Update,
    /// List all indexed repos.
    Ls,
    /// Show index stats.
    Stats { repo: String },
    /// Upgrade diwa to the latest release.
    Upgrade,
    /// Queue a repo for background indexing (what the git hooks run).
    Enqueue { dir: String },
    /// Manage the background indexing daemon.
    Daemon { action: DaemonAction },
    /// Move repos installed before the daemon to hooks that enqueue.
    Migrate,
}

/// What to do with the background indexing daemon.
#[derive(Debug, Clone, Copy, PartialEq, Eq)]
pub enum DaemonAction {
    /// Run the queue watcher in the foreground (the service's entry point).
    Run,
    /// Install the service that starts the daemon at login.
    Install,
    /// Remove that service.
    Uninstall,
    /// Report whether the daemon is installed and running.
    Status,
}

/// Commits processed by `init` and `update` in one indexing pass.
pub const DEFAULT_MAX_COMMITS: usize = 5000;
/// Commits per extraction batch for `init` and `update`.
pub const DEFAULT_BATCH_SIZE: usize = 8;

// ---------------------------------------------------------------------------
// Paths
// ---------------------------------------------------------------------------

/// `Path::join` on Unix paths: an absolute part replaces the base; otherwise
/// one `/` separates them unless the base is empty or already ends in `/`.
pub open spec fn path_join(base: Seq<char>, part: Seq<char>) -> Seq<char> {
    if part.len() > 0 && part[0] == '/' {
        part
    } else if base.len() == 0 || base.last() == '/' {
        base + part
    } else {
        base + seq!['/'] + part
    }
}

/// Executable `path_join`.
pub fn join_path(base: &str, part: &str) -> (r: String)
    ensures
        r@ == path_join(base@, part@),
{
    let b = to_chars(base);
    let p = to_chars(part);
    if p.len() > 0 && p[0] == '/' {
        return from_chars(&p);
    }
    let mut r = from_chars(&b);
    if !(b.len() == 0 || b[b.len() - 1] == '/') {
        crate::text::push_char(&mut r, '/');
    }
    push_all(&mut r, &p);
    r
}

/// A directory named by an environment variable, else `fallback` under the
/// home directory, else `fallback` itself.
pub open spec fn dir_choice_of(env: Option<Seq<char>>, home: Option<Seq<char>>, fallback: Seq<char>) -> Seq<char> {
    match env {
        Some(d) => d,
        None => match home {
            Some(h) => path_join(h, fallback),
            None => fallback,
        },
    }
}

/// Where a diwa directory lives, from the value of its environment variable
/// and of `HOME` (`None` when unset).
pub fn dir_choice(env: Option<String>, home: Option<String>, fallback: &str) -> (r: String)
    ensures
        r@ == dir_choice_of(crate::text::opt_view(env), crate::text::opt_view(home), fallback@),
{
    match env {
        Some(d) => d,
        None => match home {
            Some(h) => join_path(h.as_str(), fallback),
            None => from_chars(&to_chars(fallback)),
        },
    }
}

/// A path shown with the home directory written `~`.
pub open spec fn shortened_path(path: Seq<char>, home: Seq<char>) -> Seq<char> {
    if home.len() > 0 && starts_with(path, home) {
        seq!['~'] + path.skip(home.len() as int)
    } else {
        path
    }
}

/// A path for display, with a leading home directory written `~`.
pub fn shorten_home(path: &str, home: &str) -> (r: String)
    ensures
        r@ == shortened_path(path@, home@),
{
    let p = to_chars(path);
    let h = to_chars(home);
    if h.len() > 0 && starts_with_chars(&p, &h) {
        let mut r = String::new();
        crate::text::push_char(&mut r, '~');
        let rest = slice_chars(&p, h.len(), p.len());
        push_all(&mut r, &rest);
        assert(r@ =~= seq!['~'] + p@.skip(h.len() as int));
        r
    } else {
        from_chars(&p)
    }
}

// ---------------------------------------------------------------------------
// When to reflect after indexing
// ---------------------------------------------------------------------------

/// Days after which a reflection pass is due again.
pub const REFLECTION_PERIOD_DAYS: i64 = 7;
/// Level-1 insights needed before reflecting makes sense.
pub const MIN_INSIGHTS_TO_REFLECT: usize = 3;

/// Whether enough insights exist to reflect on.
pub open spec fn enough_to_reflect(level1_count: int) -> bool {
    level1_count >= MIN_INSIGHTS_TO_REFLECT
}

/// Whether a periodic reflection is due: a week has passed since the last
/// one, whatever the number of insights.
pub open spec fn periodic_due(days_since: int) -> bool {
    days_since >= REFLECTION_PERIOD_DAYS
}

/// Days since the last reflection; never reflecting counts as overdue.
pub open spec fn days_or_overdue(days_since: Option<i64>) -> i64 {
    match days_since {
        Some(d) => d,
        None => i64::MAX,
    }
}

/// What to do after indexing.
#[derive(Debug)]
pub enum ReflectionPlan {
    /// Reflect: the reason to report, and the period the reflections cover.
    Reflect { reason: String, period_label: &'static str },
    /// New insights arrived but no reflection is due yet.
    NotWarranted,
    /// Nothing new, nothing due.
    Idle,
}

/// Why a reflection pass runs.
pub open spec fn reflection_reason(days: int) -> Seq<char> {
    "periodic ("@ + signed_decimal(days) + " days since last reflection)"@
}

/// The period a periodic reflection covers.
pub open spec fn full_history_label() -> Seq<char> {
    "the full project history"@
}

/// Decides whether to reflect after indexing: reflections regenerate every
/// seven days (or when there has never been one), whatever the number of
/// insights; otherwise nothing is done, and it is reported when new insights
/// arrived.
pub fn reflection_plan(days_since: Option<i64>, has_new: bool) -> (r: ReflectionPlan)
    ensures
        ({
            let days = days_or_overdue(days_since) as int;
            &&& periodic_due(days) ==> (r matches ReflectionPlan::Reflect { reason, period_label }
                && reason@ == reflection_reason(days) && period_label@ == full_history_label())
            &&& !periodic_due(days) && has_new ==> r is NotWarranted
            &&& !periodic_due(days) && !has_new ==> r is Idle
        }),
{
    let days: i64 = match days_since {
        Some(d) => d,
        None => i64::MAX,
    };
    if days < REFLECTION_PERIOD_DAYS {
        return if has_new {
            ReflectionPlan::NotWarranted
        } else {
            ReflectionPlan::Idle
        };
    }
    let mut reason = String::new();
    push_str(&mut reason, "periodic (");
    push_signed_decimal(&mut reason, days);
    push_str(&mut reason, " days since last reflection)");
    proof {
        reveal_strlit("periodic (");
        reveal_strlit(" days since last reflection)");
    }
    let period_label = "the full project history";
    proof {
        reveal_strlit("the full project history");
    }
    ReflectionPlan::Reflect { reason, period_label }
}

/// Whether a forced reflection has enough insights to work with.
pub fn can_reflect(level1_count: usize) -> (r: bool)
    ensures
        r == enough_to_reflect(level1_count as int),
{
    level1_count >= MIN_INSIGHTS_TO_REFLECT
}

// ---------------------------------------------------------------------------
// Search answers
// ---------------------------------------------------------------------------

/// A commit cited by search results: its short sha, its date, and the
/// 1-based numbers of the results that cite it.
#[derive(Debug)]
pub struct CommitCitation {
    pub short_sha: String,
    pub date: String,
    pub cited_by: Vec<usize>,
}

/// A citation as a specification value.
pub open spec fn citation_view(c: CommitCitation) -> (Seq<char>, Seq<char>, Seq<int>) {
    (c.short_sha@, c.date@, c.cited_by@.map_values(|n: usize| n as int))
}

/// The position of the first citation for a short sha, or the number of
/// citations when there is none.
pub open spec fn citation_index(cs: Seq<(Seq<char>, Seq<char>, Seq<int>)>, sha: Seq<char>) -> int
    decreases cs.len(),
{
    if cs.len() == 0 {
        0
    } else if cs[0].0 == sha {
        0
    } else {
        1 + citation_index(cs.drop_first(), sha)
    }
}

/// `citation_index` is the first position holding the sha.
pub proof fn lemma_citation_index(cs: Seq<(Seq<char>, Seq<char>, Seq<int>)>, sha: Seq<char>, k: int)
    requires
        0 <= k <= cs.len(),
        forall|j: int| 0 <= j < k ==> cs[j].0 != sha,
        k < cs.len() ==> cs[k].0 == sha,
    ensures
        citation_index(cs, sha) == k,
    decreases cs.len(),
{
    if cs.len() > 0 && k > 0 {
        assert forall|j: int| 0 <= j < k - 1 implies cs.drop_first()[j].0 != sha by {
            assert(cs.drop_first()[j] == cs[j + 1]);
        }
        lemma_citation_index(cs.drop_first(), sha, k - 1);
    }
}

/// The commit index of a result list: each commit once, in the order in
/// which results first cite it, with the numbers of the results citing it
/// (dated by the first of them).
pub open spec fn commit_index_of(rs: Seq<StoredInsight>) -> Seq<(Seq<char>, Seq<char>, Seq<int>)>
    decreases rs.len(),
{
    if rs.len() == 0 {
        seq![]
    } else {
        let cs = commit_index_of(rs.drop_last());
        let sha = short_sha_of(rs.last().commit_sha@);
        let j = citation_index(cs, sha);
        if j < cs.len() {
            cs.update(j, (cs[j].0, cs[j].1, cs[j].2.push(rs.len() as int)))
        } else {
            cs.push((sha, date_part(rs.last().commit_date@), seq![rs.len() as int]))
        }
    }
}

/// The citations as specification values.
pub open spec fn citations_view(cs: Seq<CommitCitation>) -> Seq<(Seq<char>, Seq<char>, Seq<int>)> {
    cs.map_values(|c: CommitCitation| citation_view(c))
}

/// The position of the citation for `sha`, or the number of citations.
fn find_citation(index: &Vec<CommitCitation>, sha: &str) -> (j: usize)
    ensures
        j == citation_index(citations_view(index@), sha@),
{
    let mut j: usize = 0;
    while j < index.len()
        invariant
            j <= index.len(),
            forall|k: int| 0 <= k < j ==> citations_view(index@)[k].0 != sha@,
        decreases index.len() - j,
    {
        if crate::text::eq_str(index[j].short_sha.as_str(), sha) {
            proof {
                lemma_citation_index(citations_view(index@), sha@, j as int);
            }
            return j;
        }
        j = j + 1;
    }
    proof {
        lemma_citation_index(citations_view(index@), sha@, j as int);
    }
    j
}

/// The commit index printed under search results: each cited commit once,
/// in order of first citation, with its date and the 1-based numbers of the
/// results that cite it.
pub fn commit_index(results: &Vec<StoredInsight>) -> (r: Vec<CommitCitation>)
    requires
        shas_shortenable(results@),
    ensures
        citations_view(r@) == commit_index_of(results@),
{
    let mut index: Vec<CommitCitation> = Vec::new();
    let mut i: usize = 0;
    while i < results.len()
        invariant
            i <= results.len(),
            shas_shortenable(results@),
            citations_view(index@) == commit_index_of(results@.take(i as int)),
        decreases results.len() - i,
    {
        let ghost rs = results@.take(i + 1);
        assert(rs.drop_last() =~= results@.take(i as int));
        assert(rs.last() == results@[i as int]);
        let r = &results[i];
        assert(byte_len(r.commit_sha@) > 7 ==> is_boundary(r.commit_sha@, 7));
        let sha = short_sha(r.commit_sha.as_str());
        let j = find_citation(&index, sha.as_str());
        let n: usize = i + 1;
        let ghost before = citations_view(index@);
        if j < index.len() {
            let c = index.remove(j);
            let mut refs = c.cited_by;
            let ghost old_refs = refs@;
            refs.push(n);
            let updated = CommitCitation { short_sha: c.short_sha, date: c.date, cited_by: refs };
            proof {
                assert(updated.cited_by@.map_values(|m: usize| m as int) =~= old_refs.map_values(
                    |m: usize| m as int,
                ).push(n as int));
            }
            index.insert(j, updated);
            proof {
                assert(citations_view(index@) =~= before.update(
                    j as int,
                    (before[j as int].0, before[j as int].1, before[j as int].2.push(n as int)),
                ));
            }
        } else {
            let date = date_of(r.commit_date.as_str());
            let mut refs: Vec<usize> = Vec::new();
            refs.push(n);
            let c = CommitCitation { short_sha: sha, date, cited_by: refs };
            proof {
                assert(c.cited_by@.map_values(|m: usize| m as int) =~= seq![n as int]);
            }
            index.push(c);
            proof {
                assert(citations_view(index@) =~= before.push(citation_view(c)));
            }
        }
        i = i + 1;
    }
    assert(results@.take(i as int) =~= results@);
    index
}

/// A citation's line in the commit index:
/// `  <sha>  <date>  cited by [1] [3]`, dimmed.
pub open spec fn citation_line_of(c: (Seq<char>, Seq<char>, Seq<int>)) -> Seq<char> {
    "  \x1b[90m"@ + c.0 + "  "@ + c.1 + "  cited by "@ + ref_list(c.2) + "\x1b[0m"@
}

/// Result numbers written `[n]`, separated by spaces.
pub open spec fn ref_list(refs: Seq<int>) -> Seq<char>
    decreases refs.len(),
{
    if refs.len() == 0 {
        seq![]
    } else if refs.len() == 1 {
        seq!['['] + decimal(refs[0] as nat) + seq![']']
    } else {
        ref_list(refs.drop_last()) + seq![' ', '['] + decimal(refs.last() as nat) + seq![']']
    }
}

/// The line of the commit index for one citation.
pub fn citation_line(c: &CommitCitation) -> (r: String)
    ensures
        r@ == citation_line_of(citation_view(*c)),
{
    let mut r = String::new();
    push_str(&mut r, "  \x1b[90m");
    push_str(&mut r, c.short_sha.as_str());
    push_str(&mut r, "  ");
    push_str(&mut r, c.date.as_str());
    push_str(&mut r, "  cited by ");
    let ghost head = r@;
    let ghost refs = citation_view(*c).2;
    let mut k: usize = 0;
    while k < c.cited_by.len()
        invariant
            k <= c.cited_by.len(),
            refs == c.cited_by@.map_values(|m: usize| m as int),
            r@ == head + ref_list(refs.take(k as int)),
        decreases c.cited_by.len() - k,
    {
        proof {
            assert(refs.take(k + 1).drop_last() =~= refs.take(k as int));
            assert(refs.take(k + 1).last() == c.cited_by@[k as int] as int);
        }
        if k > 0 {
            crate::text::push_char(&mut r, ' ');
        }
        crate::text::push_char(&mut r, '[');
        push_decimal(&mut r, c.cited_by[k] as u64);
        crate::text::push_char(&mut r, ']');
        proof {
            if k == 0 {
                assert(r@ =~= head + ref_list(refs.take(k + 1)));
            } else {
                assert(r@ =~= head + ref_list(refs.take(k + 1)));
            }
        }
        k = k + 1;
    }
    assert(refs.take(k as int) =~= refs);
    push_str(&mut r, "\x1b[0m");
    r
}

/// How one search result is printed: its number, category, title and short
/// sha in bold, the body indented, the tags (when there are any) dimmed,
/// and a blank line.
pub open spec fn result_block_of(n: int, r: StoredInsight) -> Seq<char> {
    "\x1b[1m"@ + decimal(n as nat) + ". ["@ + r.category@ + "] "@ + r.title@ + "\x1b[0m  \x1b[90m["@
        + short_sha_of(r.commit_sha@) + "]\x1b[0m\n"@ + "   "@ + r.body@ + "\n"@ + (if r.tags@.len() > 0 {
        "   \x1b[90mtags: "@ + r.tags@ + "\x1b[0m\n"@
    } else {
        seq![]
    }) + "\n"@
}

/// The printed form of the `n`-th search result.
pub fn result_block(n: u64, r: &StoredInsight) -> (t: String)
    requires
        byte_len(r.commit_sha@) > 7 ==> is_boundary(r.commit_sha@, 7),
    ensures
        t@ == result_block_of(n as int, *r),
{
    let mut t = String::new();
    push_str(&mut t, "\x1b[1m");
    push_decimal(&mut t, n);
    push_str(&mut t, ". [");
    push_str(&mut t, r.category.as_str());
    push_str(&mut t, "] ");
    push_str(&mut t, r.title.as_str());
    push_str(&mut t, "\x1b[0m  \x1b[90m[");
    let sha = short_sha(r.commit_sha.as_str());
    push_str(&mut t, sha.as_str());
    push_str(&mut t, "]\x1b[0m\n");
    push_str(&mut t, "   ");
    push_str(&mut t, r.body.as_str());
    push_str(&mut t, "\n");
    let tags = to_chars(r.tags.as_str());
    if tags.len() > 0 {
        push_str(&mut t, "   \x1b[90mtags: ");
        push_str(&mut t, r.tags.as_str());
        push_str(&mut t, "\x1b[0m\n");
    }
    push_str(&mut t, "\n");
    t
}

// ---------------------------------------------------------------------------
// The commit index partitions the results
// ---------------------------------------------------------------------------

/// No commit is listed twice.
pub open spec fn shas_distinct(cs: Seq<(Seq<char>, Seq<char>, Seq<int>)>) -> bool {
    forall|a: int, b: int| 0 <= a < b < cs.len() ==> (#[trigger] cs[a]).0 != (#[trigger] cs[b]).0
}

/// Every number listed under a commit is a result that cites that commit.
pub open spec fn refs_cite(rs: Seq<StoredInsight>, cs: Seq<(Seq<char>, Seq<char>, Seq<int>)>) -> bool {
    forall|j: int, k: int|
        0 <= j < cs.len() && 0 <= k < cs[j].2.len() ==> {
            let n = #[trigger] cs[j].2[k];
            1 <= n <= rs.len() && short_sha_of(rs[n - 1].commit_sha@) == cs[j].0
        }
}

/// The numbers under each commit increase.
pub open spec fn refs_increasing(cs: Seq<(Seq<char>, Seq<char>, Seq<int>)>) -> bool {
    forall|j: int, k1: int, k2: int|
        0 <= j < cs.len() && 0 <= k1 < k2 < cs[j].2.len() ==> #[trigger] cs[j].2[k1]
            < #[trigger] cs[j].2[k2]
}

/// Result `m` is listed under some commit.
pub open spec fn is_listed(cs: Seq<(Seq<char>, Seq<char>, Seq<int>)>, m: int) -> bool {
    exists|j: int| 0 <= j < cs.len() && #[trigger] cs[j].2.contains(m)
}

/// Every result is listed under some commit.
pub open spec fn refs_cover(n: int, cs: Seq<(Seq<char>, Seq<char>, Seq<int>)>) -> bool {
    forall|m: int| 1 <= m <= n ==> #[trigger] is_listed(cs, m)
}

proof fn lemma_citation_index_bounds(cs: Seq<(Seq<char>, Seq<char>, Seq<int>)>, sha: Seq<char>)
    ensures
        0 <= citation_index(cs, sha) <= cs.len(),
        citation_index(cs, sha) < cs.len() ==> cs[citation_index(cs, sha)].0 == sha,
        citation_index(cs, sha) == cs.len() ==> forall|k: int| 0 <= k < cs.len() ==> cs[k].0 != sha,
    decreases cs.len(),
{
    if cs.len() > 0 && cs[0].0 != sha {
        lemma_citation_index_bounds(cs.drop_first(), sha);
        assert forall|k: int| 1 <= k < cs.len() implies cs[k] == cs.drop_first()[k - 1] by {}
    }
}

/// The commit index lists each cited commit once, and every result appears,
/// exactly once, under the commit it cites: the numbers under distinct
/// commits are the results citing them, in increasing order, and together
/// they are all the results.
pub proof fn law_commit_index_partition(rs: Seq<StoredInsight>)
    ensures
        shas_distinct(commit_index_of(rs)),
        refs_cite(rs, commit_index_of(rs)),
        refs_increasing(commit_index_of(rs)),
        refs_cover(rs.len() as int, commit_index_of(rs)),
    decreases rs.len(),
{
    if rs.len() > 0 {
        let prev = rs.drop_last();
        law_commit_index_partition(prev);
        let cs = commit_index_of(prev);
        let n = rs.len() as int;
        let sha = short_sha_of(rs.last().commit_sha@);
        let j = citation_index(cs, sha);
        lemma_citation_index_bounds(cs, sha);
        let out = commit_index_of(rs);
        assert forall|m: int| 0 <= m < n - 1 implies #[trigger] rs[m] == prev[m] by {}
        if j < cs.len() {
            let g = (cs[j].0, cs[j].1, cs[j].2.push(n));
            assert(out == cs.update(j, g));
            assert forall|a: int, b: int| 0 <= a < b < out.len() implies (#[trigger] out[a]).0 != (
            #[trigger] out[b]).0 by {
                assert(out[a].0 == cs[a].0 && out[b].0 == cs[b].0);
            }
            assert forall|jj: int, k: int| 0 <= jj < out.len() && 0 <= k < out[jj].2.len() implies {
                let m = #[trigger] out[jj].2[k];
                1 <= m <= rs.len() && short_sha_of(rs[m - 1].commit_sha@) == out[jj].0
            } by {
                if jj == j && k == cs[j].2.len() {
                } else {
                    assert(out[jj].2[k] == cs[jj].2[k]);
                }
            }
            assert forall|jj: int, k1: int, k2: int|
                0 <= jj < out.len() && 0 <= k1 < k2 < out[jj].2.len() implies #[trigger] out[jj].2[k1]
                < #[trigger] out[jj].2[k2] by {
                assert(out[jj].2[k1] == cs[jj].2[k1]);
                if jj == j && k2 == cs[j].2.len() {
                } else {
                    assert(out[jj].2[k2] == cs[jj].2[k2]);
                }
            }
            assert forall|m: int| 1 <= m <= n implies #[trigger] is_listed(out, m) by {
                if m == n {
                    assert(out[j].2[cs[j].2.len() as int] == n);
                    assert(out[j].2.contains(m));
                } else {
                    assert(is_listed(cs, m));
                    let jj = choose|jj: int| 0 <= jj < cs.len() && #[trigger] cs[jj].2.contains(m);
                    let k = choose|k: int| 0 <= k < cs[jj].2.len() && cs[jj].2[k] == m;
                    assert(out[jj].2[k] == m);
                    assert(out[jj].2.contains(m));
                }
            }
        } else {
            let g = (sha, date_part(rs.last().commit_date@), seq![n]);
            assert(out == cs.push(g));
            assert forall|a: int, b: int| 0 <= a < b < out.len() implies (#[trigger] out[a]).0 != (
            #[trigger] out[b]).0 by {
                if b < cs.len() {
                    assert(out[a] == cs[a] && out[b] == cs[b]);
                } else {
                    assert(out[a] == cs[a]);
                }
            }
            assert forall|jj: int, k: int| 0 <= jj < out.len() && 0 <= k < out[jj].2.len() implies {
                let m = #[trigger] out[jj].2[k];
                1 <= m <= rs.len() && short_sha_of(rs[m - 1].commit_sha@) == out[jj].0
            } by {
                if jj < cs.len() {
                    assert(out[jj] == cs[jj]);
                }
            }
            assert forall|jj: int, k1: int, k2: int|
                0 <= jj < out.len() && 0 <= k1 < k2 < out[jj].2.len() implies #[trigger] out[jj].2[k1]
                < #[trigger] out[jj].2[k2] by {
                assert(out[jj] == cs[jj]);
            }
            assert forall|m: int| 1 <= m <= n implies #[trigger] is_listed(out, m) by {
                if m == n {
                    assert(out[cs.len() as int].2[0] == n);
                    assert(out[cs.len() as int].2.contains(m));
                } else {
                    assert(is_listed(cs, m));
                    let jj = choose|jj: int| 0 <= jj < cs.len() && #[trigger] cs[jj].2.contains(m);
                    assert(out[jj] == cs[jj]);
                    assert(out[jj].2.contains(m));
                }
            }
        }
    }
}

} // verus!
