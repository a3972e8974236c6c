//! Building the prompt that asks for insights about a batch of commits, and
//! turning the model's answer into insight records.
use vstd::prelude::*;
use crate::db::{Insight, InsightView};
use crate::git::{CommitData, CommitView};
use crate::numbers::{decimal, push_decimal};
use crate::text::{byte_len, from_chars, join, join_chars, lemma_byte_len_take, prefix_within_bytes, push_all, push_str, slice_chars, starts_with, starts_with_chars, str_views, to_chars, views};

verus! {

// ---------------------------------------------------------------------------
// Cutting text at a byte offset
// ---------------------------------------------------------------------------

/// Byte offset `n` falls between two characters of `s` (`str::is_char_boundary`).
pub open spec fn is_boundary(s: Seq<char>, n: int) -> bool {
    exists|k: int| #![trigger byte_len(s.take(k))] 0 <= k <= s.len() && byte_len(s.take(k)) == n
}

/// The characters in the first `n` bytes of `s` (`&s[..n]`), when `n` is a boundary.
pub open spec fn bytes_prefix(s: Seq<char>, n: int) -> Seq<char> {
    s.take(choose|k: int| #![trigger byte_len(s.take(k))] 0 <= k <= s.len() && byte_len(s.take(k)) == n)
}

/// Text longer than `n` bytes cut to its first `n` bytes with `...` appended.
pub open spec fn shortened(s: Seq<char>, n: int) -> Seq<char> {
    if byte_len(s) > n {
        bytes_prefix(s, n) + "..."@
    } else {
        s
    }
}

/// `byte_len` of prefixes strictly grows.
proof fn lemma_byte_len_strict(s: Seq<char>, i: int, j: int)
    requires
        0 <= i < j <= s.len(),
    ensures
        byte_len(s.take(i)) < byte_len(s.take(j)),
    decreases j - i,
{
    lemma_byte_len_take(s, j - 1);
    if i < j - 1 {
        lemma_byte_len_strict(s, i, j - 1);
    }
}

/// `s` cut to `n` bytes (and marked with `...`) when longer than that.
pub fn shorten(s: &str, n: usize) -> (r: String)
    requires
        byte_len(s@) > n ==> is_boundary(s@, n as int),
    ensures
        r@ == shortened(s@, n as int),
{
    let v = to_chars(s);
    let (k, longer, used) = prefix_within_bytes(&v, n);
    if !longer {
        return from_chars(&v);
    }
    proof {
        let k2 = choose|k2: int|
            #![trigger byte_len(s@.take(k2))]
            0 <= k2 <= s@.len() && byte_len(s@.take(k2)) == n;
        if k2 < k {
            lemma_byte_len_strict(s@, k2, k as int);
        } else if k2 > k + 1 {
            lemma_byte_len_strict(s@, k + 1, k2);
        }
        if k2 == k + 1 {
            assert(false);
        }
        assert(k2 == k);
    }
    let mut r = from_chars(&slice_chars(&v, 0, k));
    push_str(&mut r, "...");
    assert(v@.subrange(0, k as int) =~= v@.take(k as int));
    r
}

// ---------------------------------------------------------------------------
// One commit in the prompt
// ---------------------------------------------------------------------------

/// The review-comment lines for the given comments, numbered from 1.
pub open spec fn review_lines(cs: Seq<Seq<char>>) -> Seq<char>
    decreases cs.len(),
{
    if cs.len() == 0 {
        seq![]
    } else {
        review_lines(cs.drop_last()) + "Review comment "@ + decimal(cs.len()) + ": "@ + shortened(
            cs.last(),
            200,
        ) + "\n"@
    }
}

/// The first three comments (fewer when there are fewer).
pub open spec fn first_three(cs: Seq<Seq<char>>) -> Seq<Seq<char>> {
    if cs.len() <= 3 {
        cs
    } else {
        cs.take(3)
    }
}

/// The prompt entry for one commit: header, message, PR title, PR description
/// (cut to 500 bytes), up to three review comments (each cut to 200 bytes),
/// files, diff, and a blank line.
pub open spec fn commit_entry(c: CommitView) -> Seq<char> {
    "### "@ + c.sha + " by "@ + c.author + " on "@ + c.date + "\n"@ + c.message + "\n"@ + pr_lines(c)
        + comment_lines(c) + tail_lines(c) + "\n"@
}

/// The commit can be formatted without cutting a character in half: its PR
/// description is at most 500 bytes or has a character boundary at byte 500,
/// and likewise for its first three review comments at byte 200.
pub open spec fn formattable(c: CommitView) -> bool {
    &&& (c.pr_body matches Some(b) ==> (byte_len(b) > 500 ==> is_boundary(b, 500)))
    &&& (c.review_comments matches Some(cs) ==> forall|k: int|
        0 <= k < first_three(cs).len() ==> (byte_len(#[trigger] first_three(cs)[k]) > 200
            ==> is_boundary(first_three(cs)[k], 200)))
}

/// The files of a commit joined by `, `.
fn joined_files(files: &Vec<String>) -> (r: Vec<char>)
    ensures
        r@ == join(str_views(files@), ", "@),
{
    let mut parts: Vec<Vec<char>> = Vec::new();
    let mut i: usize = 0;
    while i < files.len()
        invariant
            i <= files.len(),
            views(parts@) == str_views(files@).take(i as int),
        decreases files.len() - i,
    {
        let p = to_chars(files[i].as_str());
        let ghost prev = parts@;
        parts.push(p);
        assert(views(parts@) =~= views(prev).push(p@));
        assert(str_views(files@)[i as int] == files@[i as int]@);
        assert(views(parts@) =~= str_views(files@).take(i + 1));
        i = i + 1;
    }
    assert(str_views(files@).take(files.len() as int) =~= str_views(files@));
    let sep = to_chars(", ");
    join_chars(&parts, &sep)
}

/// The PR title and description lines of a commit's entry.
pub open spec fn pr_lines(c: CommitView) -> Seq<char> {
    (match c.pr_title {
        Some(t) => "PR: "@ + t + "\n"@,
        None => seq![],
    }) + (match c.pr_body {
        Some(b) => "PR body: "@ + shortened(b, 500) + "\n"@,
        None => seq![],
    })
}

fn push_pr_lines(entry: &mut String, commit: &CommitData)
    requires
        formattable(commit@),
    ensures
        final(entry)@ == old(entry)@ + pr_lines(commit@),
{
    let ghost start = entry@;
    match &commit.pr_title {
        Some(t) => {
            push_str(entry, "PR: ");
            push_str(entry, t.as_str());
            push_str(entry, "\n");
        },
        None => {},
    }
    let ghost after_title = entry@;
    match &commit.pr_body {
        Some(b) => {
            push_str(entry, "PR body: ");
            let body = shorten(b.as_str(), 500);
            push_str(entry, body.as_str());
            push_str(entry, "\n");
        },
        None => {},
    }
    assert(entry@ =~= start + pr_lines(commit@));
}

/// The review-comment lines of a commit's entry.
pub open spec fn comment_lines(c: CommitView) -> Seq<char> {
    match c.review_comments {
        Some(cs) => review_lines(first_three(cs)),
        None => seq![],
    }
}

fn push_comment_lines(entry: &mut String, commit: &CommitData)
    requires
        formattable(commit@),
    ensures
        final(entry)@ == old(entry)@ + comment_lines(commit@),
{
    match &commit.review_comments {
        Some(comments) => {
            let limit = if comments.len() <= 3 {
                comments.len()
            } else {
                3
            };
            let ghost cs = str_views(comments@);
            let ghost start = entry@;
            assert(commit@.review_comments == Some(cs));
            assert forall|k: int| 0 <= k < first_three(cs).len() implies (byte_len(
                #[trigger] first_three(cs)[k],
            ) > 200 ==> is_boundary(first_three(cs)[k], 200)) by {
                let v = commit@;
                assert(formattable(v));
                assert(v.review_comments is Some);
                let x = v.review_comments->0;
                assert(x == cs);
                assert(byte_len(first_three(x)[k]) > 200 ==> is_boundary(first_three(x)[k], 200));
            }
            let mut i: usize = 0;
            assert(first_three(cs).take(0) =~= Seq::<Seq<char>>::empty());
            assert(entry@ =~= start + review_lines(first_three(cs).take(0)));
            while i < limit
                invariant
                    i <= limit <= comments.len(),
                    limit <= 3,
                    cs == str_views(comments@),
                    first_three(cs).len() == limit,
                    forall|k: int|
                        0 <= k < first_three(cs).len() ==> (byte_len(#[trigger] first_three(cs)[k])
                            > 200 ==> is_boundary(first_three(cs)[k], 200)),
                    entry@ == start + review_lines(first_three(cs).take(i as int)),
                decreases limit - i,
            {
                assert(first_three(cs)[i as int] == comments@[i as int]@);
                push_str(entry, "Review comment ");
                push_decimal(entry, (i + 1) as u64);
                push_str(entry, ": ");
                let c = shorten(comments[i].as_str(), 200);
                push_str(entry, c.as_str());
                push_str(entry, "\n");
                proof {
                    let t = first_three(cs).take(i + 1);
                    assert(t.drop_last() =~= first_three(cs).take(i as int));
                    assert(t.last() == comments@[i as int]@);
                    assert(t.len() == i + 1);
                    assert(entry@ =~= start + review_lines(t));
                }
                i = i + 1;
            }
            assert(first_three(cs).take(limit as int) =~= first_three(cs));
        },
        None => {
            assert(old(entry)@ + comment_lines(commit@) =~= old(entry)@);
        },
    }
}

/// The files and diff lines of a commit's entry.
pub open spec fn tail_lines(c: CommitView) -> Seq<char> {
    (if c.files.len() > 0 {
        "Files: "@ + join(c.files, ", "@) + "\n"@
    } else {
        seq![]
    }) + (if c.diff.len() > 0 {
        "Diff:\n"@ + c.diff + "\n"@
    } else {
        seq![]
    })
}

fn push_tail_lines(entry: &mut String, commit: &CommitData)
    ensures
        final(entry)@ == old(entry)@ + tail_lines(commit@),
{
    let ghost start = entry@;
    if commit.files.len() > 0 {
        push_str(entry, "Files: ");
        let joined = joined_files(&commit.files);
        push_all(entry, &joined);
        push_str(entry, "\n");
    }
    if !commit.diff.as_str().is_empty() {
        push_str(entry, "Diff:\n");
        push_str(entry, commit.diff.as_str());
        push_str(entry, "\n");
    }
    assert(entry@ =~= start + tail_lines(commit@));
}

/// The prompt entry for one commit.
pub fn format_commit(commit: &CommitData) -> (r: String)
    requires
        formattable(commit@),
    ensures
        r@ == commit_entry(commit@),
{
    let mut entry = String::new();
    push_str(&mut entry, "### ");
    push_str(&mut entry, commit.sha.as_str());
    push_str(&mut entry, " by ");
    push_str(&mut entry, commit.author.as_str());
    push_str(&mut entry, " on ");
    push_str(&mut entry, commit.date.as_str());
    push_str(&mut entry, "\n");
    push_str(&mut entry, commit.message.as_str());
    push_str(&mut entry, "\n");
    push_pr_lines(&mut entry, commit);
    push_comment_lines(&mut entry, commit);
    push_tail_lines(&mut entry, commit);
    push_str(&mut entry, "\n");
    assert(entry@ =~= commit_entry(commit@));
    entry
}

// ---------------------------------------------------------------------------
// The whole prompt
// ---------------------------------------------------------------------------

/// Largest prompt size in bytes before commits are cut off.
pub const MAX_PROMPT_CHARS: usize = 12_000;

/// The instructions at the start of the extraction prompt.
pub const EXTRACT_INTRO: &'static str = r#"You are analyzing git commits to extract structured insights for a searchable knowledge base. For each meaningful change, extract the underlying decision, learning, or architectural pattern.

Output ONLY a JSON array. Each element must have these fields:
- "commit_sha": the commit hash this insight is about
- "category": one of "decision", "pattern", "learning", "architecture", "migration", "bugfix"
- "title": a one-line summary of the insight (not the commit message — the deeper meaning)
- "body": 2-4 sentences explaining the reasoning, context, and what was learned
- "files": array of key file paths involved
- "tags": space-separated relevant tags

Rules:
- Skip trivial commits (typos, version bumps, formatting)
- Group related commits into a single insight when they tell one story
- Focus on the WHY, not the WHAT
- If commits show a pattern of trying and reverting, that IS an insight about what doesn't work
- If a commit fixes a bug, explain what caused it and what was learned

Commits:

"#;

/// The instruction at the end of the extraction prompt.
pub const EXTRACT_OUTRO: &'static str = "\nOutput the JSON array now. No markdown fences, no explanation, just the JSON.\n";

/// The short entry used for the commit that no longer fits: header, message,
/// files, and a note that its diff was left out.
pub open spec fn short_entry(c: CommitView) -> Seq<char> {
    "### "@ + c.sha + " by "@ + c.author + " on "@ + c.date + "\n"@ + c.message + "\nFiles: "@
        + join(c.files, ", "@) + "\n(diff truncated)\n\n"@
}

/// The commit entries of the prompt, given the bytes already used: entries
/// are added while the total stays within `MAX_PROMPT_CHARS`; the first commit
/// that would go over gets a short entry and ends the list.
pub open spec fn prompt_entries(cs: Seq<CommitView>, used: int) -> Seq<char>
    decreases cs.len(),
{
    if cs.len() == 0 {
        seq![]
    } else if used + byte_len(commit_entry(cs[0])) > 12000 {
        short_entry(cs[0])
    } else {
        commit_entry(cs[0]) + prompt_entries(cs.drop_first(), used + byte_len(commit_entry(cs[0])))
    }
}

/// The extraction prompt for a batch of commits.
pub open spec fn extraction_prompt(cs: Seq<CommitView>) -> Seq<char> {
    EXTRACT_INTRO@ + prompt_entries(cs, byte_len(EXTRACT_INTRO@)) + EXTRACT_OUTRO@
}

/// The views of a sequence of commits.
pub open spec fn commit_views(cs: Seq<CommitData>) -> Seq<CommitView> {
    cs.map_values(|c: CommitData| c@)
}

fn short_entry_of(c: &CommitData) -> (r: String)
    ensures
        r@ == short_entry(c@),
{
    let mut e = String::new();
    push_str(&mut e, "### ");
    push_str(&mut e, c.sha.as_str());
    push_str(&mut e, " by ");
    push_str(&mut e, c.author.as_str());
    push_str(&mut e, " on ");
    push_str(&mut e, c.date.as_str());
    push_str(&mut e, "\n");
    push_str(&mut e, c.message.as_str());
    push_str(&mut e, "\nFiles: ");
    let joined = joined_files(&c.files);
    push_all(&mut e, &joined);
    push_str(&mut e, "\n(diff truncated)\n\n");
    assert(e@ =~= short_entry(c@));
    e
}

/// Build the prompt that asks for insights about a batch of commits.
pub fn build_prompt(commits: &[CommitData]) -> (r: String)
    requires
        forall|i: int| 0 <= i < commits@.len() ==> formattable(#[trigger] commits@[i]@),
    ensures
        r@ == extraction_prompt(commit_views(commits@)),
{
    let intro = to_chars(EXTRACT_INTRO);
    let (_, over, intro_bytes) = prefix_within_bytes(&intro, MAX_PROMPT_CHARS);
    let ghost cs = commit_views(commits@);
    let mut prompt = String::new();
    push_all(&mut prompt, &intro);
    if over {
        // The instructions alone exceed the budget: the first commit gets a short entry.
        if commits.len() > 0 {
            proof {
                crate::text::lemma_byte_len_bounds(commit_entry(cs[0]));
                assert(intro@.take(intro@.len() as int) =~= intro@);
            }
            let short = short_entry_of(&commits[0]);
            push_str(&mut prompt, short.as_str());
        }
        push_str(&mut prompt, EXTRACT_OUTRO);
        return prompt;
    }
    let mut total: usize = intro_bytes;
    assert(intro@.take(intro@.len() as int) =~= intro@);
    let mut i: usize = 0;
    let mut done = false;
    assert(cs.skip(0) =~= cs);
    while i < commits.len() && !done
        invariant
            i <= commits.len(),
            cs == commit_views(commits@),
            forall|j: int| 0 <= j < commits@.len() ==> formattable(#[trigger] commits@[j]@),
            total <= MAX_PROMPT_CHARS,
            !done ==> extraction_prompt(cs) == prompt@ + prompt_entries(cs.skip(i as int), total as int)
                + EXTRACT_OUTRO@,
            done ==> extraction_prompt(cs) == prompt@ + EXTRACT_OUTRO@,
        decreases commits.len() - i + (if done { 0int } else { 1int }),
    {
        let c = &commits[i];
        assert(cs[i as int] == c@);
        let ghost rest = cs.skip(i as int);
        assert(rest[0] == c@);
        assert(rest.drop_first() =~= cs.skip(i + 1));
        let entry = format_commit(c);
        let ev = to_chars(entry.as_str());
        assert(ev@ =~= commit_entry(rest[0]));
        let (_, too_big, ebytes) = prefix_within_bytes(&ev, MAX_PROMPT_CHARS - total);
        if too_big {
            let short = short_entry_of(c);
            push_str(&mut prompt, short.as_str());
            done = true;
        } else {
            assert(ev@.take(ev@.len() as int) =~= ev@);
            let ghost before = prompt@;
            push_all(&mut prompt, &ev);
            assert(prompt@ + prompt_entries(cs.skip(i + 1), total + ebytes) + EXTRACT_OUTRO@
                =~= before + (commit_entry(rest[0]) + prompt_entries(rest.drop_first(), total
                + ebytes)) + EXTRACT_OUTRO@);
            total = total + ebytes;
            i = i + 1;
        }
    }
    if !done {
        assert(cs.skip(i as int) =~= Seq::<CommitView>::empty());
    }
    push_str(&mut prompt, EXTRACT_OUTRO);
    prompt
}

// ---------------------------------------------------------------------------
// Turning the answer into insights
// ---------------------------------------------------------------------------

/// One insight as the model returns it; only title and body are required.
#[derive(Debug)]
pub struct RawInsight {
    pub commit_sha: Option<String>,
    pub category: Option<String>,
    pub title: String,
    pub body: String,
    pub files: Option<Vec<String>>,
    pub tags: Option<String>,
}

/// The first commit whose sha starts with `sha`.
pub open spec fn commit_with_prefix(cs: Seq<CommitView>, sha: Seq<char>) -> Option<CommitView>
    decreases cs.len(),
{
    if cs.len() == 0 {
        None
    } else if starts_with(cs[0].sha, sha) {
        Some(cs[0])
    } else {
        commit_with_prefix(cs.drop_first(), sha)
    }
}

/// The insight record for one raw insight. The date and source come from the
/// commit its sha abbreviates (`git+gh` when that commit has a PR
/// description); without such a commit the first commit's date is used and
/// the source is `git`. A missing sha falls back to the first commit's, a
/// missing category to `learning`, missing files and tags to empty.
pub open spec fn hydrated(r: RawInsight, cs: Seq<CommitView>) -> InsightView {
    let first_date = if cs.len() > 0 {
        cs[0].date
    } else {
        seq![]
    };
    let first_sha = if cs.len() > 0 {
        cs[0].sha
    } else {
        seq![]
    };
    let matching = match r.commit_sha {
        Some(s) => commit_with_prefix(cs, s@),
        None => None,
    };
    InsightView {
        commit_sha: match r.commit_sha {
            Some(s) => s@,
            None => first_sha,
        },
        commit_date: match matching {
            Some(c) => c.date,
            None => first_date,
        },
        category: match r.category {
            Some(c) => c@,
            None => "learning"@,
        },
        title: r.title@,
        body: r.body@,
        files: match r.files {
            Some(f) => str_views(f@),
            None => seq![],
        },
        tags: match r.tags {
            Some(t) => t@,
            None => seq![],
        },
        source_type: match matching {
            Some(c) => if c.pr_body is Some {
                "git+gh"@
            } else {
                "git"@
            },
            None => "git"@,
        },
        pr_number: None,
    }
}

fn find_commit_with_prefix(commits: &[CommitData], sha: &str) -> (r: Option<usize>)
    ensures
        match r {
            Some(i) => i < commits@.len() && commit_with_prefix(commit_views(commits@), sha@)
                == Some(commits@[i as int]@),
            None => commit_with_prefix(commit_views(commits@), sha@) is None,
        },
{
    let p = to_chars(sha);
    let ghost cs = commit_views(commits@);
    let mut i: usize = 0;
    assert(cs.skip(0) =~= cs);
    while i < commits.len()
        invariant
            i <= commits.len(),
            p@ == sha@,
            cs == commit_views(commits@),
            commit_with_prefix(cs, sha@) == commit_with_prefix(cs.skip(i as int), sha@),
        decreases commits.len() - i,
    {
        assert(cs.skip(i as int)[0] == commits@[i as int]@);
        assert(cs.skip(i as int).drop_first() =~= cs.skip(i + 1));
        let s = to_chars(commits[i].sha.as_str());
        if starts_with_chars(&s, &p) {
            return Some(i);
        }
        i = i + 1;
    }
    None
}

fn copy_string(s: &String) -> (r: String)
    ensures
        r@ == s@,
{
    s.clone()
}

fn hydrate_one(r: RawInsight, commits: &[CommitData]) -> (out: Insight)
    ensures
        out@ == hydrated(r, commit_views(commits@)),
{
    let ghost raw = r;
    let matching = match &r.commit_sha {
        Some(s) => find_commit_with_prefix(commits, s.as_str()),
        None => None,
    };
    let (date, source_type) = match matching {
        Some(k) => {
            let st = if commits[k].pr_body.is_some() {
                String::from_str("git+gh")
            } else {
                String::from_str("git")
            };
            (copy_string(&commits[k].date), st)
        },
        None => {
            let date = if commits.len() > 0 {
                copy_string(&commits[0].date)
            } else {
                String::new()
            };
            (date, String::from_str("git"))
        },
    };
    let commit_sha = match r.commit_sha {
        Some(s) => s,
        None => if commits.len() > 0 {
            copy_string(&commits[0].sha)
        } else {
            String::new()
        },
    };
    let out = Insight {
        commit_sha,
        commit_date: date,
        category: match r.category {
            Some(c) => c,
            None => String::from_str("learning"),
        },
        title: r.title,
        body: r.body,
        files: match r.files {
            Some(f) => f,
            None => Vec::new(),
        },
        tags: match r.tags {
            Some(t) => t,
            None => String::new(),
        },
        source_type,
        pr_number: None,
    };
    proof {
        let h = hydrated(raw, commit_views(commits@));
        assert(out@.commit_sha == h.commit_sha);
        assert(out@.commit_date == h.commit_date);
        assert(out@.category == h.category);
        assert(out@.files == h.files);
        assert(out@.tags == h.tags);
        assert(out@.source_type == h.source_type);
    }
    assert(out@ =~= hydrated(raw, commit_views(commits@)));
    out
}

/// Turn the model's raw insights into insight records, filling in what the
/// model left out from the commits of the batch.
pub fn hydrate(raw: Vec<RawInsight>, commits: &[CommitData]) -> (r: Vec<Insight>)
    ensures
        r@.len() == raw@.len(),
        forall|i: int|
            0 <= i < raw@.len() ==> #[trigger] r@[i]@ == hydrated(raw@[i], commit_views(commits@)),
{
    let ghost all = raw@;
    let mut items = raw;
    let mut out: Vec<Insight> = Vec::new();
    let mut i: usize = 0;
    assert(all.len() == items.len());
    assert(items@ =~= all.skip(0));
    while items.len() > 0
        invariant
            all.len() <= usize::MAX,
            i + items.len() == all.len(),
            items@ == all.skip(i as int),
            out.len() == i,
            forall|j: int|
                0 <= j < i ==> #[trigger] out@[j]@ == hydrated(all[j], commit_views(commits@)),
        decreases items.len(),
    {
        let r = items.remove(0);
        assert(r == all[i as int]);
        assert(items@ =~= all.skip(i + 1));
        out.push(hydrate_one(r, commits));
        i = i + 1;
    }
    out
}

/// The first commit whose sha starts with `sha` is the one at `k` when no
/// earlier commit's does.
proof fn lemma_commit_with_prefix_at(cs: Seq<CommitView>, sha: Seq<char>, k: int)
    requires
        0 <= k < cs.len(),
        starts_with(cs[k].sha, sha),
        forall|j: int| 0 <= j < k ==> !starts_with(#[trigger] cs[j].sha, sha),
    ensures
        commit_with_prefix(cs, sha) == Some(cs[k]),
    decreases k,
{
    if k > 0 {
        assert(!starts_with(cs[0].sha, sha));
        assert forall|j: int| 0 <= j < k - 1 implies !starts_with(#[trigger] cs.drop_first()[j].sha, sha) by {
            assert(cs.drop_first()[j] == cs[j + 1]);
        }
        assert(cs.drop_first()[k - 1] == cs[k]);
        lemma_commit_with_prefix_at(cs.drop_first(), sha, k - 1);
    }
}

proof fn lemma_commit_with_prefix_none(cs: Seq<CommitView>, sha: Seq<char>)
    requires
        forall|j: int| 0 <= j < cs.len() ==> !starts_with(#[trigger] cs[j].sha, sha),
    ensures
        commit_with_prefix(cs, sha) is None,
    decreases cs.len(),
{
    if cs.len() > 0 {
        assert(!starts_with(cs[0].sha, sha));
        assert forall|j: int| 0 <= j < cs.drop_first().len() implies !starts_with(#[trigger] cs.drop_first()[j].sha, sha) by {
            assert(cs.drop_first()[j] == cs[j + 1]);
        }
        lemma_commit_with_prefix_none(cs.drop_first(), sha);
    }
}

/// Law: an insight whose sha abbreviates a commit of the batch takes that
/// commit's date, the date of the first commit whose sha starts with it, and
/// is sourced `git+gh` exactly when that commit has a PR description. Its
/// sha, title and body are the model's.
pub proof fn law_hydrate_dates_from_matching_commit(r: RawInsight, cs: Seq<CommitView>, k: int)
    requires
        r.commit_sha is Some,
        0 <= k < cs.len(),
        starts_with(cs[k].sha, r.commit_sha->0@),
        forall|j: int| 0 <= j < k ==> !starts_with(#[trigger] cs[j].sha, r.commit_sha->0@),
    ensures
        hydrated(r, cs).commit_date == cs[k].date,
        hydrated(r, cs).source_type == (if cs[k].pr_body is Some {
            "git+gh"@
        } else {
            "git"@
        }),
        hydrated(r, cs).commit_sha == r.commit_sha->0@,
        hydrated(r, cs).title == r.title@,
        hydrated(r, cs).body == r.body@,
{
    lemma_commit_with_prefix_at(cs, r.commit_sha->0@, k);
}

/// Law: an insight whose sha abbreviates no commit of the batch (or that has
/// no sha) is dated by the batch's first commit and sourced `git`.
pub proof fn law_hydrate_unmatched_uses_first_commit(r: RawInsight, cs: Seq<CommitView>)
    requires
        cs.len() > 0,
        match r.commit_sha {
            Some(s) => forall|j: int| 0 <= j < cs.len() ==> !starts_with(#[trigger] cs[j].sha, s@),
            None => true,
        },
    ensures
        hydrated(r, cs).commit_date == cs[0].date,
        hydrated(r, cs).source_type == "git"@,
        hydrated(r, cs).commit_sha == match r.commit_sha {
            Some(s) => s@,
            None => cs[0].sha,
        },
{
    match r.commit_sha {
        Some(s) => lemma_commit_with_prefix_none(cs, s@),
        None => {},
    }
}

} // verus!
