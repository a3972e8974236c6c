//! Is the index far enough behind the repo that its answers should be distrusted?
//!
//! A stale index is worse than a missing one: it answers the question and the
//! reader stops looking. The warning is shown next to the results, at the
//! moment of use.
use vstd::prelude::*;
use crate::numbers::{parse_i64, parse_usize, push_decimal, push_signed_decimal, decimal,
    signed_decimal, signed_value, unsigned_value};
use crate::text::push_str;

verus! {

/// Warn once the index is this many commits behind. Tight on purpose: the
/// daemon normally indexes within seconds of a commit.
pub const COMMITS_THRESHOLD: usize = 10;

/// Warn once the index is this many days behind.
pub const DAYS_THRESHOLD: i64 = 2;

#[derive(Debug, PartialEq, Eq)]
pub enum Staleness {
    /// Index is at (or effectively at) HEAD.
    Fresh,
    /// Index trails HEAD by `commits` commits / `days` days.
    Behind { commits: usize, days: i64 },
    /// The indexed commit isn't in this repo's history at all — a rebase, a
    /// force-push, or the wrong checkout. Re-indexing will not fix it.
    Detached,
}

/// The classification of an index `commits` commits and `days` days behind HEAD.
pub open spec fn classified(commits: usize, days: i64, reachable: bool) -> Staleness {
    if !reachable {
        Staleness::Detached
    } else if commits >= COMMITS_THRESHOLD || days >= DAYS_THRESHOLD {
        Staleness::Behind { commits, days }
    } else {
        Staleness::Fresh
    }
}

/// Pure decision, split from the git calls so it can be tested directly.
pub fn classify(commits: usize, days: i64, reachable: bool) -> (s: Staleness)
    ensures
        s == classified(commits, days, reachable),
{
    if !reachable {
        return Staleness::Detached;
    }
    if commits >= COMMITS_THRESHOLD || days >= DAYS_THRESHOLD {
        Staleness::Behind { commits, days }
    } else {
        Staleness::Fresh
    }
}

/// The warning for an index that trails HEAD.
pub open spec fn behind_warning(slug: Seq<char>, commits: nat, days: int) -> Seq<char> {
    "⚠️  diwa index for "@ + slug + " is "@ + decimal(commits) + " commits / "@ + signed_decimal(
        days,
    ) + " days BEHIND HEAD.\n⚠️  Answers below may predate recent work — verify against the code before\n⚠️  relying on them. Catch up with:  diwa index <repo-path>\n⚠️  If this keeps happening the post-commit hook is not firing (husky v9\n⚠️  repos: the hook must live in .husky/, never the regenerated .husky/_)."@
}

/// The warning for an index whose commit is not in the repo's history.
pub open spec fn detached_warning(slug: Seq<char>) -> Seq<char> {
    "⚠️  diwa index for "@ + slug
        + " points at a commit that is NOT in this repo's\n⚠️  history (rebase, force-push, or the wrong checkout). Re-indexing will\n⚠️  not fix it — rebuild with:  diwa reindex <repo-path>"@
}

/// The human-facing warning for a staleness, `None` when there is nothing to say.
pub open spec fn warning_text(slug: Seq<char>, s: Staleness) -> Option<Seq<char>> {
    match s {
        Staleness::Fresh => None,
        Staleness::Behind { commits, days } => Some(
            behind_warning(slug, commits as nat, days as int),
        ),
        Staleness::Detached => Some(detached_warning(slug)),
    }
}

/// The human-facing warning, or None when there's nothing worth saying.
pub fn warning(slug: &str, s: &Staleness) -> (r: Option<String>)
    ensures
        match r {
            Some(t) => warning_text(slug@, *s) == Some(t@),
            None => warning_text(slug@, *s) is None,
        },
{
    match s {
        Staleness::Fresh => None,
        Staleness::Behind { commits, days } => {
            let mut t = String::new();
            push_str(&mut t, "⚠️  diwa index for ");
            push_str(&mut t, slug);
            push_str(&mut t, " is ");
            push_decimal(&mut t, *commits as u64);
            push_str(&mut t, " commits / ");
            push_signed_decimal(&mut t, *days);
            push_str(
                &mut t,
                " days BEHIND HEAD.\n⚠️  Answers below may predate recent work — verify against the code before\n⚠️  relying on them. Catch up with:  diwa index <repo-path>\n⚠️  If this keeps happening the post-commit hook is not firing (husky v9\n⚠️  repos: the hook must live in .husky/, never the regenerated .husky/_).",
            );
            assert(t@ =~= behind_warning(slug@, *commits as nat, *days as int));
            Some(t)
        },
        Staleness::Detached => {
            let mut t = String::new();
            push_str(&mut t, "⚠️  diwa index for ");
            push_str(&mut t, slug);
            push_str(
                &mut t,
                " points at a commit that is NOT in this repo's\n⚠️  history (rebase, force-push, or the wrong checkout). Re-indexing will\n⚠️  not fix it — rebuild with:  diwa reindex <repo-path>",
            );
            assert(t@ =~= detached_warning(slug@));
            Some(t)
        },
    }
}

/// Law: a warning is shown exactly when the index is not fresh.
pub proof fn law_warning_iff_stale(slug: Seq<char>, s: Staleness)
    ensures
        (warning_text(slug, s) is None) <==> (s == Staleness::Fresh),
{
}

/// Law: the classification only grows more alarming as the index falls
/// further behind: once stale at some lag, stale at every larger lag.
pub proof fn law_classify_monotone(c1: usize, d1: i64, c2: usize, d2: i64)
    requires
        c1 <= c2,
        d1 <= d2,
        classified(c1, d1, true) != Staleness::Fresh,
    ensures
        classified(c2, d2, true) != Staleness::Fresh,
{
}

// ---------------------------------------------------------------------------
// Measuring the gap from git's answers
// ---------------------------------------------------------------------------

/// What git answered about the indexed commit and HEAD. Each text is git's
/// trimmed output, `None` when the git command failed.
pub struct GitAnswers {
    /// `git merge-base --is-ancestor <indexed> HEAD` succeeded.
    pub is_ancestor: bool,
    /// `git cat-file -e <indexed>^{commit}` succeeded.
    pub commit_known: bool,
    /// Output of `git rev-list --count <indexed>..HEAD`.
    pub count: Option<String>,
    /// Output of `git log -1 --format=%ct <indexed>`.
    pub indexed_time: Option<String>,
    /// Output of `git log -1 --format=%ct HEAD`.
    pub head_time: Option<String>,
}

/// A number git printed, read as `usize::from_str` does; 0 when unreadable.
pub open spec fn count_from(out: Option<String>) -> usize {
    match out {
        Some(t) => match unsigned_value(t@) {
            Some(v) => if v <= usize::MAX {
                v as usize
            } else {
                0
            },
            None => 0,
        },
        None => 0,
    }
}

/// A timestamp git printed, read as `i64::from_str` does.
pub open spec fn time_from(out: Option<String>) -> Option<i64> {
    match out {
        Some(t) => match signed_value(t@) {
            Some(v) => if i64::MIN <= v <= i64::MAX {
                Some(v as i64)
            } else {
                None
            },
            None => None,
        },
        None => None,
    }
}

/// Whole days from the indexed commit to HEAD, 0 unless both times are known
/// and HEAD is later.
pub open spec fn days_between(indexed: Option<i64>, head: Option<i64>) -> i64 {
    match (indexed, head) {
        (Some(a), Some(b)) => if b > a {
            ((b - a) / 86400) as i64
        } else {
            0
        },
        _ => 0,
    }
}

/// The staleness git's answers show. An indexed commit that is not an ancestor
/// of HEAD is detached when git knows it, and fresh when git cannot tell (a
/// warning that cannot be substantiated is worse than none).
pub open spec fn assessed(a: GitAnswers) -> Staleness {
    if !a.is_ancestor {
        if a.commit_known {
            Staleness::Detached
        } else {
            Staleness::Fresh
        }
    } else {
        classified(
            count_from(a.count),
            days_between(time_from(a.indexed_time), time_from(a.head_time)),
            true,
        )
    }
}

fn parse_count(out: &Option<String>) -> (r: usize)
    ensures
        r == count_from(*out),
{
    match out {
        Some(t) => match parse_usize(t.as_str()) {
            Some(v) => v,
            None => 0,
        },
        None => 0,
    }
}

fn parse_time(out: &Option<String>) -> (r: Option<i64>)
    ensures
        r == time_from(*out),
{
    match out {
        Some(t) => parse_i64(t.as_str()),
        None => None,
    }
}

/// Measure the gap between the indexed commit and HEAD from git's answers.
pub fn assess(answers: &GitAnswers) -> (s: Staleness)
    ensures
        s == assessed(*answers),
{
    if !answers.is_ancestor {
        return if answers.commit_known {
            Staleness::Detached
        } else {
            Staleness::Fresh
        };
    }
    let commits = parse_count(&answers.count);
    let a = parse_time(&answers.indexed_time);
    let b = parse_time(&answers.head_time);
    let days: i64 = match (a, b) {
        (Some(x), Some(y)) => if y > x {
            let diff: i128 = y as i128 - x as i128;
            (diff / 86400) as i64
        } else {
            0
        },
        _ => 0,
    };
    classify(commits, days, true)
}

} // verus!
