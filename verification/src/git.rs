//! Commits read from git history: the record of one commit, the parsing of
//! `git log` output, and how commits are filtered and batched for extraction.
use vstd::prelude::*;
use crate::text::{
    byte_len, from_chars, lines, prefix_within_bytes, push_str, slice_chars, split, split_chars,
    split_lines, splitn_chars, splitn_from, str_views, to_chars, trim, trim_chars, views,
};

verus! {

/// Raw commit data from git log.
#[derive(Debug, Clone)]
pub struct CommitData {
    pub sha: String,
    pub message: String,
    pub diff: String,
    pub date: String,
    pub author: String,
    pub files: Vec<String>,
    pub pr_title: Option<String>,
    pub pr_body: Option<String>,
    pub review_comments: Option<Vec<String>>,
}

/// What a commit record holds, as text.
pub struct CommitView {
    pub sha: Seq<char>,
    pub message: Seq<char>,
    pub diff: Seq<char>,
    pub date: Seq<char>,
    pub author: Seq<char>,
    pub files: Seq<Seq<char>>,
    pub pr_title: Option<Seq<char>>,
    pub pr_body: Option<Seq<char>>,
    pub review_comments: Option<Seq<Seq<char>>>,
}

impl View for CommitData {
    type V = CommitView;

    open spec fn view(&self) -> CommitView {
        CommitView {
            sha: self.sha@,
            message: self.message@,
            diff: self.diff@,
            date: self.date@,
            author: self.author@,
            files: str_views(self.files@),
            pr_title: crate::text::opt_view(self.pr_title),
            pr_body: crate::text::opt_view(self.pr_body),
            review_comments: crate::text::opt_list_view(self.review_comments),
        }
    }
}

// ---------------------------------------------------------------------------
// Batching
// ---------------------------------------------------------------------------

/// The views of a sequence of vectors.
pub open spec fn vec_views<T>(vs: Seq<Vec<T>>) -> Seq<Seq<T>> {
    vs.map_values(|v: Vec<T>| v@)
}

/// `s` cut into consecutive chunks of `n` items; the last chunk holds the rest.
pub open spec fn chunks<T>(s: Seq<T>, n: nat) -> Seq<Seq<T>>
    decreases s.len(),
{
    if s.len() == 0 {
        seq![]
    } else if s.len() <= n || n == 0 {
        seq![s]
    } else {
        seq![s.take(n as int)] + chunks(s.skip(n as int), n)
    }
}

/// Split commits into batches for processing.
pub fn batch_commits(commits: Vec<CommitData>, batch_size: usize) -> (r: Vec<Vec<CommitData>>)
    requires
        batch_size > 0,
    ensures
        vec_views(r@) == chunks(commits@, batch_size as nat),
{
    let ghost all = commits@;
    let mut rest = commits;
    let mut out: Vec<Vec<CommitData>> = Vec::new();
    assert(vec_views(out@) + chunks(rest@, batch_size as nat) =~= chunks(all, batch_size as nat));
    while rest.len() > 0
        invariant
            batch_size > 0,
            chunks(all, batch_size as nat) == vec_views(out@) + chunks(rest@, batch_size as nat),
        decreases rest.len(),
    {
        let ghost before = rest@;
        let ghost old_out = out@;
        if rest.len() > batch_size {
            let tail = rest.split_off(batch_size);
            out.push(rest);
            rest = tail;
            proof {
                assert(before.take(batch_size as int) =~= before.subrange(0, batch_size as int));
                assert(before.skip(batch_size as int) =~= before.subrange(
                    batch_size as int,
                    before.len() as int,
                ));
                assert(vec_views(out@) =~= vec_views(old_out) + seq![before.take(
                    batch_size as int,
                )]);
            }
        } else {
            let last = rest;
            rest = Vec::new();
            out.push(last);
            proof {
                assert(vec_views(out@) =~= vec_views(old_out) + seq![before]);
                assert(chunks(rest@, batch_size as nat) =~= Seq::<Seq<CommitData>>::empty());
            }
        }
        assert(vec_views(out@) + chunks(rest@, batch_size as nat) =~= vec_views(old_out) + chunks(
            before,
            batch_size as nat,
        ));
    }
    assert(chunks(rest@, batch_size as nat) =~= Seq::<Seq<CommitData>>::empty());
    assert(vec_views(out@) + chunks(rest@, batch_size as nat) =~= vec_views(out@));
    out
}

/// All items of a sequence of sequences, in order.
pub open spec fn flatten<T>(ss: Seq<Seq<T>>) -> Seq<T>
    decreases ss.len(),
{
    if ss.len() == 0 {
        seq![]
    } else {
        ss[0] + flatten(ss.drop_first())
    }
}

/// Law: batching loses, duplicates and reorders nothing, and the batches are
/// full except possibly the last one, which is never empty.
pub proof fn law_batches_partition<T>(s: Seq<T>, n: nat)
    requires
        n > 0,
    ensures
        flatten(chunks(s, n)) == s,
        forall|i: int|
            0 <= i < chunks(s, n).len() ==> 0 < (#[trigger] chunks(s, n)[i]).len() <= n,
        forall|i: int| 0 <= i < chunks(s, n).len() - 1 ==> (#[trigger] chunks(s, n)[i]).len() == n,
        chunks(s, n).len() == (s.len() + n - 1) / (n as int),
    decreases s.len(),
{
    let c = chunks(s, n);
    if s.len() == 0 {
        assert(flatten(c) =~= s);
        assert((s.len() + n - 1) / (n as int) == 0) by (nonlinear_arith)
            requires
                s.len() == 0,
                n > 0,
        ;
    } else if s.len() <= n {
        assert(c.drop_first() =~= Seq::<Seq<T>>::empty());
        assert(flatten(c) =~= s + flatten(Seq::<Seq<T>>::empty()));
        assert(flatten(c) =~= s);
        let len = s.len() as int;
        assert((len + n - 1) / (n as int) == 1) by (nonlinear_arith)
            requires
                0 < len <= n,
        ;
    } else {
        let rest = s.skip(n as int);
        law_batches_partition(rest, n);
        assert(c.drop_first() =~= chunks(rest, n));
        assert(s.take(n as int) + rest =~= s);
        assert forall|i: int| 0 <= i < c.len() implies 0 < (#[trigger] c[i]).len() <= n by {
            if i > 0 {
                assert(c[i] == chunks(rest, n)[i - 1]);
            }
        }
        assert forall|i: int| 0 <= i < c.len() - 1 implies (#[trigger] c[i]).len() == n by {
            if i > 0 {
                assert(c[i] == chunks(rest, n)[i - 1]);
            }
        }
        let len = s.len() as int;
        let q = (rest.len() + n - 1) / (n as int);
        assert((len + n - 1) / (n as int) == q + 1) by (nonlinear_arith)
            requires
                q == (len - n + n - 1) / (n as int),
                n > 0,
                len > n,
        ;
    }
}

// ---------------------------------------------------------------------------
// Noise filtering
// ---------------------------------------------------------------------------

/// `c` equals the lower-case ASCII letter `p`, ignoring ASCII case.
pub open spec fn lower_eq(c: char, p: char) -> bool {
    c == p || (65 <= (c as u32) <= 90 && (c as u32) + 32 == (p as u32))
}

/// The text starts with `p` once ASCII letters are lower-cased.
///
/// For the noise prefixes below this is the same as
/// `text.to_lowercase().starts_with(p)`: the only characters outside ASCII
/// whose lower-case form starts with an ASCII letter are `İ` (to `i` and a
/// combining dot, which no prefix continues with) and the Kelvin sign (to
/// `k`, which no prefix contains).
pub open spec fn starts_with_ignore_case(s: Seq<char>, p: Seq<char>) -> bool {
    p.len() <= s.len() && forall|i: int| 0 <= i < p.len() ==> lower_eq(#[trigger] s[i], p[i])
}

/// A commit message that carries no insight: formula updates, releases,
/// version bumps and merge commits.
pub open spec fn is_noise(message: Seq<char>) -> bool {
    ||| starts_with_ignore_case(message, "formula:"@)
    ||| starts_with_ignore_case(message, "release:"@)
    ||| starts_with_ignore_case(message, "chore: bump version"@)
    ||| starts_with_ignore_case(message, "chore: update formula"@)
    ||| starts_with_ignore_case(message, "merge pull request"@)
    ||| starts_with_ignore_case(message, "merge branch"@)
}

/// The commits whose message is not noise, in the order given.
pub open spec fn without_noise(s: Seq<CommitData>) -> Seq<CommitData>
    decreases s.len(),
{
    if s.len() == 0 {
        seq![]
    } else if is_noise(s.last().message@) {
        without_noise(s.drop_last())
    } else {
        without_noise(s.drop_last()).push(s.last())
    }
}

fn lower_eq_exec(c: char, p: char) -> (b: bool)
    ensures
        b == lower_eq(c, p),
{
    let u = c as u32;
    c == p || (65 <= u && u <= 90 && u + 32 == p as u32)
}

fn starts_with_ignore_case_exec(s: &Vec<char>, p: &str) -> (b: bool)
    ensures
        b == starts_with_ignore_case(s@, p@),
{
    let pv = to_chars(p);
    if pv.len() > s.len() {
        return false;
    }
    let mut i: usize = 0;
    while i < pv.len()
        invariant
            pv@ == p@,
            pv.len() <= s.len(),
            i <= pv.len(),
            forall|j: int| 0 <= j < i ==> lower_eq(#[trigger] s@[j], pv@[j]),
        decreases pv.len() - i,
    {
        if !lower_eq_exec(s[i], pv[i]) {
            return false;
        }
        i = i + 1;
    }
    true
}

/// Whether a commit message is noise.
pub fn is_noise_message(message: &str) -> (b: bool)
    ensures
        b == is_noise(message@),
{
    let m = to_chars(message);
    starts_with_ignore_case_exec(&m, "formula:") || starts_with_ignore_case_exec(&m, "release:")
        || starts_with_ignore_case_exec(&m, "chore: bump version") || starts_with_ignore_case_exec(
        &m,
        "chore: update formula",
    ) || starts_with_ignore_case_exec(&m, "merge pull request") || starts_with_ignore_case_exec(
        &m,
        "merge branch",
    )
}

/// Filter out noise commits (formula updates, version bumps, release tags, merges).
pub fn filter_noise(commits: Vec<CommitData>) -> (r: Vec<CommitData>)
    ensures
        r@ == without_noise(commits@),
{
    let ghost all = commits@;
    let mut kept: Vec<CommitData> = Vec::new();
    let mut i: usize = 0;
    assert(all.len() == commits.len());
    let mut items = commits;
    assert(without_noise(all.take(0)) =~= kept@);
    assert(items@ =~= all.skip(0));
    while items.len() > 0
        invariant
            all.len() <= usize::MAX,
            i + items.len() == all.len(),
            items@ == all.skip(i as int),
            kept@ == without_noise(all.take(i as int)),
        decreases items.len(),
    {
        let c = items.remove(0);
        assert(c == all[i as int]);
        assert(items@ =~= all.skip(i + 1));
        assert(all.take(i + 1).drop_last() =~= all.take(i as int));
        assert(all.take(i + 1).last() == c);
        if !is_noise_message(c.message.as_str()) {
            kept.push(c);
        }
        i = i + 1;
    }
    assert(all.take(all.len() as int) =~= all);
    kept
}

/// Every commit kept by the noise filter has a meaningful message.
pub proof fn lemma_without_noise_clean(s: Seq<CommitData>)
    ensures
        forall|i: int|
            0 <= i < without_noise(s).len() ==> !is_noise((#[trigger] without_noise(s)[i]).message@),
        without_noise(s).len() <= s.len(),
    decreases s.len(),
{
    if s.len() > 0 {
        lemma_without_noise_clean(s.drop_last());
    }
}

/// Commits with meaningful messages all pass the filter.
pub proof fn lemma_without_noise_fixed(s: Seq<CommitData>)
    requires
        forall|i: int| 0 <= i < s.len() ==> !is_noise((#[trigger] s[i]).message@),
    ensures
        without_noise(s) == s,
    decreases s.len(),
{
    if s.len() > 0 {
        assert forall|i: int| 0 <= i < s.drop_last().len() implies !is_noise(
            (#[trigger] s.drop_last()[i]).message@,
        ) by {
            assert(s.drop_last()[i] == s[i]);
        }
        lemma_without_noise_fixed(s.drop_last());
        assert(s.drop_last().push(s.last()) =~= s);
    }
}

/// Law: after filtering no noise commit remains, and filtering again changes nothing.
pub proof fn law_filter_noise_idempotent(s: Seq<CommitData>)
    ensures
        forall|i: int|
            0 <= i < without_noise(s).len() ==> !is_noise((#[trigger] without_noise(s)[i]).message@),
        without_noise(without_noise(s)) == without_noise(s),
{
    lemma_without_noise_clean(s);
    lemma_without_noise_fixed(without_noise(s));
}

// ---------------------------------------------------------------------------
// Parsing `git log` output
// ---------------------------------------------------------------------------

/// Separator git log prints before each commit (`---SIPAG-COMMIT-SEP---`).
pub open spec fn record_sep() -> Seq<char> {
    "---SIPAG-COMMIT-SEP---"@
}

/// Separator between the fields of one commit (`---SIPAG-FIELD-SEP---`).
pub open spec fn field_sep() -> Seq<char> {
    "---SIPAG-FIELD-SEP---"@
}

/// One commit's header fields as printed by git log: sha, message, date, author.
#[derive(Debug, Clone)]
pub struct LogEntry {
    pub sha: String,
    pub message: String,
    pub date: String,
    pub author: String,
}

/// The view of a log entry: its four fields.
pub open spec fn entry_view(e: LogEntry) -> (Seq<char>, Seq<char>, Seq<char>, Seq<char>) {
    (e.sha@, e.message@, e.date@, e.author@)
}

/// The entry a record yields, if it has all four fields; each field trimmed.
pub open spec fn record_entry(record: Seq<char>) -> Option<(Seq<char>, Seq<char>, Seq<char>, Seq<char>)> {
    let f = splitn_from(record, field_sep(), 0, 4);
    if f.len() < 4 {
        None
    } else {
        Some((trim(f[0]), trim(f[1]), trim(f[2]), trim(f[3])))
    }
}

/// The entries of a sequence of records, skipping those with missing fields.
pub open spec fn record_entries(records: Seq<Seq<char>>) -> Seq<
    (Seq<char>, Seq<char>, Seq<char>, Seq<char>),
>
    decreases records.len(),
{
    if records.len() == 0 {
        seq![]
    } else {
        match record_entry(records.last()) {
            Some(e) => record_entries(records.drop_last()).push(e),
            None => record_entries(records.drop_last()),
        }
    }
}

/// The commits in git log output: the records after each record separator
/// (whatever precedes the first separator is ignored).
pub open spec fn log_entries(log: Seq<char>) -> Seq<(Seq<char>, Seq<char>, Seq<char>, Seq<char>)> {
    record_entries(split(log, record_sep()).skip(1))
}

/// Parse the output of
/// `git log --pretty=format:<RECORD_SEP>%H<FIELD_SEP>%s%n%b<FIELD_SEP>%aI<FIELD_SEP>%an`.
pub fn parse_log(log: &str) -> (r: Vec<LogEntry>)
    requires
        log@.len() + 2 <= usize::MAX,
    ensures
        r@.map_values(|e: LogEntry| entry_view(e)) == log_entries(log@),
{
    let text = to_chars(log);
    let rsep = to_chars("---SIPAG-COMMIT-SEP---");
    let fsep = to_chars("---SIPAG-FIELD-SEP---");
    proof {
        reveal_strlit("---SIPAG-COMMIT-SEP---");
        reveal_strlit("---SIPAG-FIELD-SEP---");
    }
    let records = split_chars(&text, &rsep);
    let ghost recs = views(records@).skip(1);
    let mut out: Vec<LogEntry> = Vec::new();
    let mut i: usize = 1;
    let ghost skip_base: Seq<Seq<char>> = seq![];
    assert(fsep.len() > 0);
    assert(recs.take(0) =~= Seq::<Seq<char>>::empty());
    assert(out@.map_values(|e: LogEntry| entry_view(e)) =~= record_entries(recs.take(0)));
    while i < records.len()
        invariant
            1 <= i <= records.len(),
            recs == views(records@).skip(1),
            fsep@ == field_sep(),
            fsep.len() > 0,
            out@.map_values(|e: LogEntry| entry_view(e)) == record_entries(recs.take(i - 1)),
        decreases records.len() - i,
    {
        let rec = slice_chars(&records[i], 0, records[i].len());
        assert(rec@ =~= recs[i - 1]);
        assert(recs.take(i as int).drop_last() =~= recs.take(i - 1));
        assert(recs.take(i as int).last() == rec@);
        let fields = splitn_chars(&rec, &fsep, 4);
        if fields.len() >= 4 {
            let sha = trim_chars(&fields[0]);
            let message = trim_chars(&fields[1]);
            let date = trim_chars(&fields[2]);
            let author = trim_chars(&fields[3]);
            let e = LogEntry {
                sha: from_chars(&sha),
                message: from_chars(&message),
                date: from_chars(&date),
                author: from_chars(&author),
            };
            let ghost prev = out@;
            out.push(e);
            proof {
                assert(views(fields@)[0] == fields@[0]@);
                assert(views(fields@)[1] == fields@[1]@);
                assert(views(fields@)[2] == fields@[2]@);
                assert(views(fields@)[3] == fields@[3]@);
                assert(out@.map_values(|e: LogEntry| entry_view(e)) =~= prev.map_values(
                    |e: LogEntry| entry_view(e),
                ).push(entry_view(e)));
            }
        }
        i = i + 1;
    }
    assert(recs.take(records.len() - 1) =~= recs);
    out
}

// ---------------------------------------------------------------------------
// Diffs and file lists
// ---------------------------------------------------------------------------

/// Largest diff kept per commit, in bytes.
pub const MAX_DIFF_CHARS: usize = 2000;

/// A diff cut to size: when longer than `MAX_DIFF_CHARS` bytes, the
/// characters before the last one that starts at or before byte 2000, then a
/// truncation note.
pub open spec fn truncated_diff(full: Seq<char>) -> Seq<char> {
    if byte_len(full) > 2000 {
        let k = choose|k: int|
            #![trigger byte_len(full.take(k))]
            0 <= k < full.len() && byte_len(full.take(k)) <= 2000 && byte_len(full.take(k + 1))
                > 2000;
        full.take(k) + "\n... (truncated)"@
    } else {
        full
    }
}

/// Truncate a diff to about `MAX_DIFF_CHARS` bytes on a character boundary.
pub fn truncate_diff(full: &str) -> (r: String)
    ensures
        r@ == truncated_diff(full@),
{
    let v = to_chars(full);
    let (k, longer, _) = prefix_within_bytes(&v, MAX_DIFF_CHARS);
    if !longer {
        return from_chars(&v);
    }
    // The first `k` characters fit within the limit and the next one does not,
    // so character `k` is the last one that starts at or before the limit.
    let cut = k;
    proof {
        assert(v@.take(v.len() as int) =~= v@);
        let k2 = choose|k2: int|
            #![trigger byte_len(v@.take(k2))]
            0 <= k2 < v@.len() && byte_len(v@.take(k2)) <= 2000 && byte_len(v@.take(k2 + 1))
                > 2000;
        assert(exists|k2: int|
            #![trigger byte_len(v@.take(k2))]
            0 <= k2 < v@.len() && byte_len(v@.take(k2)) <= 2000 && byte_len(v@.take(k2 + 1)) > 2000)
            by {
            assert(k < v.len());
        }
        if k2 < k {
            crate::text::lemma_byte_len_prefix_mono(v@, k2 + 1, k as int);
        } else if k2 > k {
            crate::text::lemma_byte_len_prefix_mono(v@, k + 1, k2);
        }
    }
    let mut out = from_chars(&slice_chars(&v, 0, cut));
    push_str(&mut out, "\n... (truncated)");
    assert(v@.subrange(0, cut as int) =~= v@.take(cut as int));
    out
}

/// The non-empty, trimmed lines of `git diff-tree --name-only` output.
pub open spec fn file_list(ls: Seq<Seq<char>>) -> Seq<Seq<char>>
    decreases ls.len(),
{
    if ls.len() == 0 {
        seq![]
    } else if trim(ls.last()).len() == 0 {
        file_list(ls.drop_last())
    } else {
        file_list(ls.drop_last()).push(trim(ls.last()))
    }
}

/// Parse the list of changed files from `git diff-tree --name-only` output.
pub fn parse_file_list(output: &str) -> (r: Vec<String>)
    ensures
        str_views(r@) == file_list(lines(output@)),
{
    let text = to_chars(output);
    let ls = split_lines(&text);
    let mut out: Vec<String> = Vec::new();
    let mut i: usize = 0;
    assert(str_views(out@) =~= file_list(views(ls@).take(0)));
    while i < ls.len()
        invariant
            i <= ls.len(),
            views(ls@) == lines(output@),
            str_views(out@) == file_list(views(ls@).take(i as int)),
        decreases ls.len() - i,
    {
        let t = trim_chars(&ls[i]);
        assert(views(ls@).take(i + 1).drop_last() =~= views(ls@).take(i as int));
        assert(views(ls@).take(i + 1).last() == ls@[i as int]@);
        if t.len() > 0 {
            let ghost prev = out@;
            out.push(from_chars(&t));
            assert(str_views(out@) =~= str_views(prev).push(t@));
        }
        i = i + 1;
    }
    assert(views(ls@).take(ls.len() as int) =~= views(ls@));
    out
}

} // verus!
