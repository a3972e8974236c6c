//! GitHub enrichment: PR references in commit messages and the PR context
//! attached to commits.
use vstd::prelude::*;
use crate::git::{CommitData, CommitView};
use crate::numbers::{dec_value, decimal, digit_char, digit_value, is_digit, is_digit_exec};
use crate::text::{contains, occurs_at, occurs_at_chars, opt_view, str_views, to_chars};

verus! {

// ---------------------------------------------------------------------------
// PR numbers in commit messages
// ---------------------------------------------------------------------------

/// An ASCII letter or digit.
pub open spec fn is_ascii_alnum(c: char) -> bool {
    ||| ('0' <= c && c <= '9')
    ||| ('a' <= c && c <= 'z')
    ||| ('A' <= c && c <= 'Z')
}

/// Number of consecutive ASCII digits starting at position `j`.
pub open spec fn digits_len(s: Seq<char>, j: int) -> int
    decreases s.len() - j,
{
    if 0 <= j < s.len() && is_digit(s[j]) {
        1 + digits_len(s, j + 1)
    } else {
        0
    }
}

/// The number `u64::from_str` reads from the digits at `j`: `None` when there
/// are no digits or the value does not fit in a `u64`.
pub open spec fn number_at(s: Seq<char>, j: int) -> Option<u64> {
    let d = s.subrange(j, j + digits_len(s, j));
    if digits_len(s, j) == 0 || dec_value(d) > u64::MAX {
        None
    } else {
        Some(dec_value(d) as u64)
    }
}

/// The number after the first `(#` at or after `i` that is followed by a number.
pub open spec fn paren_number_from(s: Seq<char>, i: int) -> Option<u64>
    decreases s.len() - i,
{
    if i < 0 || i >= s.len() {
        None
    } else if occurs_at(s, seq!['(', '#'], i) && number_at(s, i + 2) is Some {
        number_at(s, i + 2)
    } else {
        paren_number_from(s, i + 1)
    }
}

/// The number after the first `#` at or after `i` that does not follow an
/// ASCII letter or digit and is followed by a number.
pub open spec fn hash_number_from(s: Seq<char>, i: int) -> Option<u64>
    decreases s.len() - i,
{
    if i < 0 || i >= s.len() {
        None
    } else if s[i] == '#' && !(i > 0 && is_ascii_alnum(s[i - 1])) && number_at(s, i + 1) is Some {
        number_at(s, i + 1)
    } else {
        hash_number_from(s, i + 1)
    }
}

/// The PR number a commit message refers to: a `(#N)` reference first, then a
/// standalone `#N` (as in "Fixes #N").
pub open spec fn pr_number_in(message: Seq<char>) -> Option<u64> {
    match paren_number_from(message, 0) {
        Some(n) => Some(n),
        None => hash_number_from(message, 0),
    }
}

proof fn lemma_digits_len_bounds(s: Seq<char>, j: int)
    ensures
        0 <= digits_len(s, j),
        0 <= j ==> j + digits_len(s, j) <= s.len() || digits_len(s, j) == 0,
        forall|k: int| j <= k < j + digits_len(s, j) ==> is_digit(#[trigger] s[k]),
        0 <= j + digits_len(s, j) < s.len() ==> !is_digit(s[j + digits_len(s, j)]),
    decreases s.len() - j,
{
    if 0 <= j < s.len() && is_digit(s[j]) {
        lemma_digits_len_bounds(s, j + 1);
    }
}

fn is_ascii_alnum_exec(c: char) -> (b: bool)
    ensures
        b == is_ascii_alnum(c),
{
    ('0' <= c && c <= '9') || ('a' <= c && c <= 'z') || ('A' <= c && c <= 'Z')
}

/// `u64::from_str` on the digits starting at `j`.
fn number_at_exec(s: &Vec<char>, j: usize) -> (r: Option<u64>)
    ensures
        r == number_at(s@, j as int),
{
    if j >= s.len() {
        return None;
    }
    let mut k = j;
    let mut value: u64 = 0;
    let mut overflow = false;
    assert(dec_value(s@.subrange(j as int, j as int)) == 0) by {
        assert(s@.subrange(j as int, j as int) =~= Seq::<char>::empty());
    }
    while k < s.len() && is_digit_exec(s[k])
        invariant
            j <= k <= s.len(),
            forall|m: int| j <= m < k ==> is_digit(#[trigger] s@[m]),
            !overflow ==> value == dec_value(s@.subrange(j as int, k as int)),
            overflow ==> dec_value(s@.subrange(j as int, k as int)) > u64::MAX,
        decreases s.len() - k,
    {
        let d = (s[k] as u32 - '0' as u32) as u64;
        let ghost prev = s@.subrange(j as int, k as int);
        assert(s@.subrange(j as int, k + 1).drop_last() =~= prev);
        assert(s@.subrange(j as int, k + 1).last() == s@[k as int]);
        if !overflow {
            if value > (u64::MAX - d) / 10 {
                overflow = true;
                assert(value * 10 + d > u64::MAX) by (nonlinear_arith)
                    requires
                        value > (u64::MAX - d) / 10,
                        d <= 9,
                ;
            } else {
                assert(value * 10 + d <= u64::MAX) by (nonlinear_arith)
                    requires
                        value <= (u64::MAX - d) / 10,
                        d <= 9,
                ;
                value = value * 10 + d;
            }
        } else {
            assert(dec_value(prev) * 10 + d > u64::MAX) by (nonlinear_arith)
                requires
                    dec_value(prev) > u64::MAX,
            ;
        }
        k = k + 1;
    }
    proof {
        lemma_digits_len_bounds(s@, j as int);
        let n = digits_len(s@, j as int);
        // The loop stopped at the end of the digit run.
        if j + n < k {
            assert(!is_digit(s@[j + n]));
        }
        if k < j + n {
            assert(is_digit(s@[k as int]));
        }
        assert(k == j + n);
    }
    if k == j || overflow {
        None
    } else {
        Some(value)
    }
}

/// Extract a PR number from a commit message.
///
/// Matches patterns like "(#123)", "Fixes #123", "Closes #123", "#123".
pub fn extract_pr_number(message: &str) -> (r: Option<u64>)
    ensures
        r == pr_number_in(message@),
{
    let s = to_chars(message);
    let pat = vec!['(', '#'];
    assert(pat@ =~= seq!['(', '#']);
    let mut i: usize = 0;
    while i < s.len()
        invariant
            i <= s.len(),
            s@ == message@,
            pat@ == seq!['(', '#'],
            paren_number_from(s@, 0) == paren_number_from(s@, i as int),
        decreases s.len() - i,
    {
        if occurs_at_chars(&s, &pat, i) {
            let n = number_at_exec(&s, i + 2);
            if n.is_some() {
                assert(paren_number_from(s@, i as int) == n);
                assert(paren_number_from(message@, 0) == n);
                assert(n matches Some(v) && pr_number_in(message@) == Some(v));
                return n;
            }
        }
        i = i + 1;
    }
    assert(paren_number_from(s@, i as int) is None);
    let mut i: usize = 0;
    while i < s.len()
        invariant
            i <= s.len(),
            s@ == message@,
            paren_number_from(s@, 0) is None,
            hash_number_from(s@, 0) == hash_number_from(s@, i as int),
        decreases s.len() - i,
    {
        if s[i] == '#' && !(i > 0 && is_ascii_alnum_exec(s[i - 1])) {
            let n = number_at_exec(&s, i + 1);
            if n.is_some() {
                assert(hash_number_from(s@, i as int) == n);
                assert(paren_number_from(message@, 0) is None);
                assert(pr_number_in(message@) == hash_number_from(message@, 0));
                return n;
            }
        }
        i = i + 1;
    }
    assert(hash_number_from(s@, i as int) is None);
    None
}

// ---------------------------------------------------------------------------
// Attaching PR data to commits
// ---------------------------------------------------------------------------

/// A merged pull request: its number, title, description and the non-empty
/// bodies of its reviews.
#[derive(Debug)]
pub struct PrData {
    pub number: u64,
    pub title: String,
    pub body: String,
    pub review_comments: Vec<String>,
}

/// The review bodies that are present and non-empty, in order.
pub open spec fn present_reviews(reviews: Seq<Option<String>>) -> Seq<String>
    decreases reviews.len(),
{
    if reviews.len() == 0 {
        seq![]
    } else {
        match reviews.last() {
            Some(r) => if r@.len() > 0 {
                present_reviews(reviews.drop_last()).push(r)
            } else {
                present_reviews(reviews.drop_last())
            },
            None => present_reviews(reviews.drop_last()),
        }
    }
}

impl PrData {
    /// Build a PR record from the fields read from GitHub's JSON: a missing
    /// number reads as 0, a missing title or body as the empty string, and
    /// missing or empty review bodies are dropped.
    pub fn from_fields(
        number: Option<u64>,
        title: Option<String>,
        body: Option<String>,
        reviews: Vec<Option<String>>,
    ) -> (r: PrData)
        ensures
            r.number == (match number {
                Some(n) => n,
                None => 0,
            }),
            r.title@ == (match title {
                Some(t) => t@,
                None => Seq::<char>::empty(),
            }),
            r.body@ == (match body {
                Some(b) => b@,
                None => Seq::<char>::empty(),
            }),
            r.review_comments@ == present_reviews(reviews@),
    {
        let ghost all = reviews@;
        let mut kept: Vec<String> = Vec::new();
        let mut items = reviews;
        let mut i: usize = 0;
        assert(all.len() == items.len());
        assert(items@ =~= all.skip(0));
        assert(kept@ =~= present_reviews(all.take(0)));
        while items.len() > 0
            invariant
                all.len() <= usize::MAX,
                i + items.len() == all.len(),
                items@ == all.skip(i as int),
                kept@ == present_reviews(all.take(i as int)),
            decreases items.len(),
        {
            let r = items.remove(0);
            assert(r == all[i as int]);
            assert(items@ =~= all.skip(i + 1));
            assert(all.take(i + 1).drop_last() =~= all.take(i as int));
            assert(all.take(i + 1).last() == r);
            match r {
                Some(text) => {
                    if text.as_str().is_empty() {
                    } else {
                        kept.push(text);
                    }
                },
                None => {},
            }
            i = i + 1;
        }
        assert(all.take(all.len() as int) =~= all);
        PrData {
            number: match number {
                Some(n) => n,
                None => 0,
            },
            title: match title {
                Some(t) => t,
                None => String::new(),
            },
            body: match body {
                Some(b) => b,
                None => String::new(),
            },
            review_comments: kept,
        }
    }
}

// ---------------------------------------------------------------------------
// Reading `gh pr list --json number,title,body,reviews`
// ---------------------------------------------------------------------------

/// The texts of optional strings.
pub open spec fn opt_views(rs: Seq<Option<String>>) -> Seq<Option<Seq<char>>> {
    rs.map_values(|o: Option<String>| opt_view(o))
}

/// One PR's fields as read from the JSON, as plain values: number, title,
/// body, and the body of each review (each `None` where it is missing or not
/// of the expected JSON type).
pub open spec fn fields_view(f: (Option<u64>, Option<String>, Option<String>, Vec<Option<String>>)) -> (
    Option<u64>,
    Option<Seq<char>>,
    Option<Seq<char>>,
    Seq<Option<Seq<char>>>,
) {
    (f.0, opt_view(f.1), opt_view(f.2), opt_views(f.3@))
}

/// What `serde_json::from_slice` reads from `gh pr list` output: for each PR
/// of the JSON array, its `number` (as `u64`), `title`, `body`, and each of
/// its `reviews`' `body`; an empty list when the output is not a JSON array.
pub uninterp spec fn gh_pr_fields(out: Seq<u8>) -> Seq<
    (Option<u64>, Option<Seq<char>>, Option<Seq<char>>, Seq<Option<Seq<char>>>),
>;

/// Reads the PR fields out of `gh pr list` output.
/// Trusted: `serde_json::from_slice::<Vec<serde_json::Value>>`, an error read
/// as an empty list, each PR's fields picked by name; the result depends on
/// the bytes alone and is named `gh_pr_fields`.
#[verifier::external_body]
fn parse_gh_prs(out: &[u8]) -> (r: Vec<(Option<u64>, Option<String>, Option<String>, Vec<Option<String>>)>)
    ensures
        r@.map_values(|f: (Option<u64>, Option<String>, Option<String>, Vec<Option<String>>)| fields_view(f))
            == gh_pr_fields(out@),
{
    let parsed: Vec<serde_json::Value> = serde_json::from_slice(out).unwrap_or_default();
    parsed.iter().map(|pr| (
        pr["number"].as_u64(),
        pr["title"].as_str().map(String::from),
        pr["body"].as_str().map(String::from),
        pr["reviews"].as_array().map(|a| a.iter().map(|v| v["body"].as_str().map(String::from)).collect())
            .unwrap_or_default(),
    )).collect()
}

/// The review texts that are present and non-empty, in order.
pub open spec fn present_review_texts(reviews: Seq<Option<Seq<char>>>) -> Seq<Seq<char>>
    decreases reviews.len(),
{
    if reviews.len() == 0 {
        seq![]
    } else {
        match reviews.last() {
            Some(r) => if r.len() > 0 {
                present_review_texts(reviews.drop_last()).push(r)
            } else {
                present_review_texts(reviews.drop_last())
            },
            None => present_review_texts(reviews.drop_last()),
        }
    }
}

/// A PR record as plain values: number, title, body, review texts.
pub open spec fn pr_view(p: PrData) -> (u64, Seq<char>, Seq<char>, Seq<Seq<char>>) {
    (p.number, p.title@, p.body@, str_views(p.review_comments@))
}

/// The record built from one PR's fields: a missing number reads as 0, a
/// missing title or body as the empty text, and missing or empty review
/// bodies are dropped.
pub open spec fn pr_record(f: (Option<u64>, Option<Seq<char>>, Option<Seq<char>>, Seq<Option<Seq<char>>>)) -> (
    u64,
    Seq<char>,
    Seq<char>,
    Seq<Seq<char>>,
) {
    (
        match f.0 {
            Some(n) => n,
            None => 0,
        },
        match f.1 {
            Some(t) => t,
            None => Seq::<char>::empty(),
        },
        match f.2 {
            Some(b) => b,
            None => Seq::<char>::empty(),
        },
        present_review_texts(f.3),
    )
}

proof fn lemma_present_reviews_view(rs: Seq<Option<String>>)
    ensures
        str_views(present_reviews(rs)) == present_review_texts(opt_views(rs)),
    decreases rs.len(),
{
    if rs.len() > 0 {
        lemma_present_reviews_view(rs.drop_last());
        assert(opt_views(rs.drop_last()) =~= opt_views(rs).drop_last());
        assert(opt_views(rs).last() == opt_view(rs.last()));
        let p = present_reviews(rs.drop_last());
        match rs.last() {
            Some(r) => {
                if r@.len() > 0 {
                    assert(str_views(p.push(r)) =~= str_views(p).push(r@));
                }
            },
            None => {},
        }
    }
}

/// The merged PRs described by `gh pr list --json number,title,body,reviews`
/// output: one record per PR the JSON holds, in order, each built as
/// `PrData::from_fields` builds it.
pub fn prs_from_gh_output(out: &[u8]) -> (r: Vec<PrData>)
    ensures
        r@.len() == gh_pr_fields(out@).len(),
        forall|i: int| 0 <= i < r@.len() ==> pr_view(#[trigger] r@[i]) == pr_record(gh_pr_fields(out@)[i]),
{
    let mut items = parse_gh_prs(out);
    let ghost all = items@;
    let ghost fv = gh_pr_fields(out@);
    let mut r: Vec<PrData> = Vec::new();
    let mut i: usize = 0;
    assert(all.len() == items.len());
    assert(items@ =~= all.skip(0));
    while items.len() > 0
        invariant
            all.len() <= usize::MAX,
            i + items.len() == all.len(),
            items@ == all.skip(i as int),
            all.map_values(|f: (Option<u64>, Option<String>, Option<String>, Vec<Option<String>>)| fields_view(f)) == fv,
            r@.len() == i,
            forall|k: int| 0 <= k < i ==> pr_view(#[trigger] r@[k]) == pr_record(fv[k]),
        decreases items.len(),
    {
        let f = items.remove(0);
        assert(f == all[i as int]);
        assert(items@ =~= all.skip(i + 1));
        let ghost reviews = f.3@;
        let p = PrData::from_fields(f.0, f.1, f.2, f.3);
        proof {
            lemma_present_reviews_view(reviews);
            assert(fv[i as int] == fields_view(all[i as int]));
        }
        r.push(p);
        i = i + 1;
    }
    r
}

/// The first PR with the given number.
pub open spec fn find_pr(prs: Seq<PrData>, n: u64) -> Option<PrData>
    decreases prs.len(),
{
    if prs.len() == 0 {
        None
    } else if prs[0].number == n {
        Some(prs[0])
    } else {
        find_pr(prs.drop_first(), n)
    }
}

/// A commit with the context of the PR its message refers to: the PR's
/// title and description, and its review comments when there are any. A
/// commit that refers to no known PR is unchanged.
pub open spec fn enriched(c: CommitView, prs: Seq<PrData>) -> CommitView {
    match pr_number_in(c.message) {
        Some(n) => match find_pr(prs, n) {
            Some(p) => CommitView {
                pr_title: Some(p.title@),
                pr_body: Some(p.body@),
                review_comments: if p.review_comments@.len() > 0 {
                    Some(str_views(p.review_comments@))
                } else {
                    c.review_comments
                },
                ..c
            },
            None => c,
        },
        None => c,
    }
}

fn find_pr_index(prs: &Vec<PrData>, n: u64) -> (r: Option<usize>)
    ensures
        match r {
            Some(i) => i < prs.len() && find_pr(prs@, n) == Some(prs@[i as int]),
            None => find_pr(prs@, n) is None,
        },
{
    let mut i: usize = 0;
    assert(prs@.skip(0) =~= prs@);
    while i < prs.len()
        invariant
            i <= prs.len(),
            find_pr(prs@, n) == find_pr(prs@.skip(i as int), n),
        decreases prs.len() - i,
    {
        assert(prs@.skip(i as int).drop_first() =~= prs@.skip(i + 1));
        if prs[i].number == n {
            return Some(i);
        }
        i = i + 1;
    }
    None
}

fn clone_strings(v: &Vec<String>) -> (r: Vec<String>)
    ensures
        r@ == v@,
{
    let mut r: Vec<String> = Vec::new();
    let mut i: usize = 0;
    while i < v.len()
        invariant
            i <= v.len(),
            r@ == v@.take(i as int),
        decreases v.len() - i,
    {
        r.push(v[i].clone());
        i = i + 1;
        assert(r@ =~= v@.take(i as int));
    }
    assert(v@.take(v.len() as int) =~= v@);
    r
}

/// Enrich commits with PR data: each commit whose message refers to a PR in
/// `prs` gets that PR's title, description and review comments.
pub fn enrich_with_prs(commits: &mut Vec<CommitData>, prs: &Vec<PrData>)
    ensures
        final(commits)@.len() == old(commits)@.len(),
        forall|i: int|
            0 <= i < old(commits)@.len() ==> #[trigger] final(commits)@[i]@ == enriched(
                old(commits)@[i]@,
                prs@,
            ),
{
    let ghost all = commits@;
    let mut out: Vec<CommitData> = Vec::new();
    let mut i: usize = 0;
    assert(all.len() == commits.len());
    assert(commits@ =~= all.skip(0));
    while commits.len() > 0
        invariant
            all.len() <= usize::MAX,
            i + commits.len() == all.len(),
            commits@ == all.skip(i as int),
            out.len() == i,
            forall|j: int| 0 <= j < i ==> #[trigger] out@[j]@ == enriched(all[j]@, prs@),
        decreases commits.len(),
    {
        let c = commits.remove(0);
        assert(c == all[i as int]);
        assert(commits@ =~= all.skip(i + 1));
        let ghost c0 = c;
        let updated = match extract_pr_number(c.message.as_str()) {
            Some(n) => match find_pr_index(prs, n) {
                Some(k) => {
                    assert(find_pr(prs@, n) == Some(prs@[k as int]));
                    let reviews = if prs[k].review_comments.len() > 0 {
                        Some(clone_strings(&prs[k].review_comments))
                    } else {
                        c.review_comments
                    };
                    let t = prs[k].title.clone();
                    let b = prs[k].body.clone();
                    let u = CommitData {
                        pr_title: Some(t),
                        pr_body: Some(b),
                        review_comments: reviews,
                        ..c
                    };
                    assert(u@ == enriched(c0@, prs@));
                    u
                },
                None => c,
            },
            None => c,
        };
        assert(updated@ == enriched(all[i as int]@, prs@));
        out.push(updated);
        i = i + 1;
    }
    *commits = out;
}

/// The first PR numbered `n` is the one at `k` when no earlier PR has that number.
proof fn lemma_find_pr_at(prs: Seq<PrData>, n: u64, k: int)
    requires
        0 <= k < prs.len(),
        prs[k].number == n,
        forall|j: int| 0 <= j < k ==> (#[trigger] prs[j]).number != n,
    ensures
        find_pr(prs, n) == Some(prs[k]),
    decreases k,
{
    if k > 0 {
        assert forall|j: int| 0 <= j < k - 1 implies (#[trigger] prs.drop_first()[j]).number != n by {
            assert(prs.drop_first()[j] == prs[j + 1]);
        }
        assert(prs.drop_first()[k - 1] == prs[k]);
        lemma_find_pr_at(prs.drop_first(), n, k - 1);
    }
}

/// Law: a commit whose message refers to PR `n` gets the title and the
/// description of the first PR numbered `n` in the list, and that PR's
/// review comments when it has any; the commit's own fields (sha, message,
/// diff, date, author, files) are kept. A commit that refers to no PR of the
/// list is left as it was.
pub proof fn law_enrich_takes_the_referenced_pr(c: CommitView, prs: Seq<PrData>, n: u64, k: int)
    requires
        pr_number_in(c.message) == Some(n),
        0 <= k < prs.len(),
        prs[k].number == n,
        forall|j: int| 0 <= j < k ==> (#[trigger] prs[j]).number != n,
    ensures
        enriched(c, prs).pr_title == Some(prs[k].title@),
        enriched(c, prs).pr_body == Some(prs[k].body@),
        enriched(c, prs).review_comments == (if prs[k].review_comments@.len() > 0 {
            Some(str_views(prs[k].review_comments@))
        } else {
            c.review_comments
        }),
        enriched(c, prs).sha == c.sha,
        enriched(c, prs).message == c.message,
        enriched(c, prs).diff == c.diff,
        enriched(c, prs).date == c.date,
        enriched(c, prs).author == c.author,
        enriched(c, prs).files == c.files,
{
    lemma_find_pr_at(prs, n, k);
}

/// Law: a commit whose message refers to no PR, or to a number no PR of the
/// list has, is left unchanged.
pub proof fn law_enrich_leaves_unreferenced(c: CommitView, prs: Seq<PrData>)
    requires
        match pr_number_in(c.message) {
            Some(n) => forall|j: int| 0 <= j < prs.len() ==> (#[trigger] prs[j]).number != n,
            None => true,
        },
    ensures
        enriched(c, prs) == c,
{
    match pr_number_in(c.message) {
        Some(n) => lemma_find_pr_absent(prs, n),
        None => {},
    }
}

proof fn lemma_find_pr_absent(prs: Seq<PrData>, n: u64)
    requires
        forall|j: int| 0 <= j < prs.len() ==> (#[trigger] prs[j]).number != n,
    ensures
        find_pr(prs, n) is None,
    decreases prs.len(),
{
    if prs.len() > 0 {
        assert forall|j: int| 0 <= j < prs.drop_first().len() implies (#[trigger] prs.drop_first()[j]).number != n by {
            assert(prs.drop_first()[j] == prs[j + 1]);
        }
        assert(prs[0].number != n);
        lemma_find_pr_absent(prs.drop_first(), n);
    }
}

// ---------------------------------------------------------------------------
// Reading a `(#N)` reference
// ---------------------------------------------------------------------------

/// The decimal digits of a number are digits, and read back as that number.
proof fn lemma_decimal_reads_back(n: nat)
    ensures
        decimal(n).len() > 0,
        forall|k: int| 0 <= k < decimal(n).len() ==> is_digit(#[trigger] decimal(n)[k]),
        dec_value(decimal(n)) == n,
    decreases n,
{
    assert(('0' as u32) == 48);
    if n < 10 {
        let d = decimal(n);
        assert(d =~= seq![digit_char(n)]);
        assert(d.drop_last() =~= Seq::<char>::empty());
        assert(digit_value(digit_char(n)) == n);
        assert(dec_value(d.drop_last()) == 0);
        assert(dec_value(d) == dec_value(d.drop_last()) * 10 + digit_value(d.last()));
    } else {
        lemma_decimal_reads_back(n / 10);
        let d = decimal(n);
        let m = (n % 10) as nat;
        assert(d.drop_last() =~= decimal(n / 10));
        assert(d.last() == digit_char(m));
        assert(digit_value(digit_char(m)) == m);
        assert(forall|k: int| 0 <= k < d.len() - 1 ==> d[k] == decimal(n / 10)[k]);
        assert(n == (n / 10) * 10 + m);
        assert(dec_value(d) == dec_value(d.drop_last()) * 10 + digit_value(d.last()));
        assert(dec_value(d.drop_last()) == n / 10);
    }
}

/// A run of `len` digits at `j` followed by a non-digit is read as `len` digits.
proof fn lemma_digits_len_run(s: Seq<char>, j: int, len: int)
    requires
        0 <= j,
        0 <= len,
        j + len <= s.len(),
        forall|k: int| j <= k < j + len ==> is_digit(#[trigger] s[k]),
        j + len < s.len() ==> !is_digit(s[j + len]),
    ensures
        digits_len(s, j) == len,
    decreases len,
{
    if len > 0 {
        lemma_digits_len_run(s, j + 1, len - 1);
    }
}

/// Before the `(#`, a text without `(#` offers no parenthesised reference.
proof fn lemma_paren_skip(m: Seq<char>, p: Seq<char>, i: int)
    requires
        0 <= i <= p.len(),
        m.len() > p.len() + 1,
        m.subrange(0, p.len() as int) == p,
        m[p.len() as int] == '(',
        m[p.len() as int + 1] == '#',
        !contains(p, seq!['(', '#']),
    ensures
        paren_number_from(m, i) == paren_number_from(m, p.len() as int),
    decreases p.len() - i,
{
    if i < p.len() {
        if occurs_at(m, seq!['(', '#'], i) {
            assert(m.subrange(i, i + 2)[0] == m[i]);
            assert(m.subrange(i, i + 2)[1] == m[i + 1]);
            assert(m[i] == m.subrange(0, p.len() as int)[i]);
            if i + 1 < p.len() {
                assert(m[i + 1] == m.subrange(0, p.len() as int)[i + 1]);
                assert(p.subrange(i, i + 2) =~= seq!['(', '#']);
                assert(occurs_at(p, seq!['(', '#'], i));
            }
        }
        lemma_paren_skip(m, p, i + 1);
    }
}

/// A text without `#` holds no `(#`.
proof fn lemma_no_hash_no_paren(p: Seq<char>)
    requires
        forall|k: int| 0 <= k < p.len() ==> p[k] != '#',
    ensures
        !contains(p, seq!['(', '#']),
{
    if contains(p, seq!['(', '#']) {
        let i = choose|i: int| occurs_at(p, seq!['(', '#'], i);
        assert(p.subrange(i, i + 2)[1] == p[i + 1]);
    }
}

/// Law: a `(#N)` reference is read as the number N, for every `u64` N, and
/// it wins over any standalone `#M` before it. A message made of a text
/// without `(#`, then `(#`, the decimal digits of N and `)`, refers to PR N;
/// for example "x (#1024)" refers to PR 1024, and "Fixes #5 (#7)" to PR 7.
pub proof fn law_paren_reference_is_read(p: Seq<char>, n: u64)
    requires
        !contains(p, seq!['(', '#']),
    ensures
        pr_number_in(p + seq!['(', '#'] + decimal(n as nat) + seq![')']) == Some(n),
{
    let d = decimal(n as nat);
    let m = p + seq!['(', '#'] + d + seq![')'];
    let j: int = p.len() as int + 2;
    lemma_decimal_reads_back(n as nat);
    assert(m.subrange(0, p.len() as int) =~= p);
    assert(m[p.len() as int] == '(');
    assert(m[p.len() as int + 1] == '#');
    assert forall|k: int| j <= k < j + d.len() implies is_digit(#[trigger] m[k]) by {
        assert(m[k] == d[k - j]);
    }
    assert(m[j + d.len()] == ')');
    lemma_digits_len_run(m, j, d.len() as int);
    assert(m.subrange(j, j + d.len()) =~= d);
    assert(number_at(m, j) == Some(n));
    assert(m.subrange(p.len() as int, p.len() as int + 2) =~= seq!['(', '#']);
    assert(occurs_at(m, seq!['(', '#'], p.len() as int));
    lemma_paren_skip(m, p, 0);
}

/// No `(#` at or after `i` means no parenthesised reference there.
proof fn lemma_paren_none(m: Seq<char>, i: int)
    requires
        0 <= i,
        forall|k: int| i <= k < m.len() ==> !occurs_at(m, seq!['(', '#'], k),
    ensures
        paren_number_from(m, i) is None,
    decreases m.len() - i,
{
    if i < m.len() {
        lemma_paren_none(m, i + 1);
    }
}

/// Before the `#`, a text without `#` offers no standalone reference.
proof fn lemma_hash_skip(m: Seq<char>, p: Seq<char>, i: int)
    requires
        0 <= i <= p.len(),
        m.len() > p.len(),
        m.subrange(0, p.len() as int) == p,
        forall|k: int| 0 <= k < p.len() ==> p[k] != '#',
    ensures
        hash_number_from(m, i) == hash_number_from(m, p.len() as int),
    decreases p.len() - i,
{
    if i < p.len() {
        assert(m[i] == m.subrange(0, p.len() as int)[i]);
        lemma_hash_skip(m, p, i + 1);
    }
}

/// Law: a standalone `#N` reference (as in "Fixes #N") is read as the number
/// N, for every `u64` N: a message made of a text without `#` that does not
/// end in an ASCII letter or digit, then `#` and the decimal digits of N,
/// refers to PR N.
pub proof fn law_hash_reference_is_read(p: Seq<char>, n: u64)
    requires
        forall|k: int| 0 <= k < p.len() ==> p[k] != '#',
        p.len() == 0 || !is_ascii_alnum(p.last()),
    ensures
        pr_number_in(p + seq!['#'] + decimal(n as nat)) == Some(n),
{
    let d = decimal(n as nat);
    let m = p + seq!['#'] + d;
    let h: int = p.len() as int;
    let j: int = h + 1;
    lemma_decimal_reads_back(n as nat);
    assert(m.subrange(0, h) =~= p);
    assert(m[h] == '#');
    assert forall|k: int| j <= k < j + d.len() implies is_digit(#[trigger] m[k]) by {
        assert(m[k] == d[k - j]);
    }
    lemma_digits_len_run(m, j, d.len() as int);
    assert(m.subrange(j, j + d.len()) =~= d);
    assert(number_at(m, j) == Some(n));
    if h > 0 && p.last() == '(' {
        // The `#` closes a `(#` reference, read as the same number.
        assert(m.subrange(h - 1, h + 1) =~= seq!['(', '#']);
        assert(occurs_at(m, seq!['(', '#'], h - 1));
        assert(m.subrange(0, h - 1) =~= p.drop_last());
        assert forall|k: int| 0 <= k < p.drop_last().len() implies p.drop_last()[k] != '#' by {
            assert(p.drop_last()[k] == p[k]);
        }
        lemma_no_hash_no_paren(p.drop_last());
        lemma_paren_skip(m, p.drop_last(), 0);
    } else {
        assert forall|k: int| 0 <= k < m.len() implies !occurs_at(m, seq!['(', '#'], k) by {
            if occurs_at(m, seq!['(', '#'], k) {
                assert(m.subrange(k, k + 2)[0] == m[k]);
                assert(m.subrange(k, k + 2)[1] == m[k + 1]);
                if k + 1 < h {
                    assert(m[k + 1] == p[k + 1]);
                } else if k + 1 == h {
                    assert(m[k] == p.last());
                } else {
                    assert(m[k] == d[k - j]);
                }
            }
        }
        lemma_paren_none(m, 0);
        assert(h > 0 ==> m[h - 1] == p.last());
        lemma_hash_skip(m, p, 0);
    }
}

} // verus!
