//! Deep search: the research loop's decisions and prompts, the merging of
//! what it finds, and the answer's citations.
use vstd::prelude::*;
use crate::db::StoredInsight;
use crate::extract::{bytes_prefix, is_boundary};
use crate::numbers::{decimal, push_decimal};
use crate::reflect::{date_of, date_part};
use crate::cli::{citation_view, citations_view, CommitCitation};
use crate::text::{
    byte_len, contains, contains_chars, first_index, from_chars, prefix_within_bytes, push_str,
    slice_chars, starts_with, starts_with_chars, str_views, to_chars, trim, trim_chars,
};

verus! {

/// A commit sha shortened to its first 7 bytes (`&sha[..7.min(sha.len())]`).
pub open spec fn short_sha_of(sha: Seq<char>) -> Seq<char> {
    if byte_len(sha) > 7 {
        bytes_prefix(sha, 7)
    } else {
        sha
    }
}

/// The first 7 bytes of a commit sha (all of it when shorter).
pub fn short_sha(sha: &str) -> (r: String)
    requires
        byte_len(sha@) > 7 ==> is_boundary(sha@, 7),
    ensures
        r@ == short_sha_of(sha@),
{
    let v = to_chars(sha);
    let (k, longer, used) = prefix_within_bytes(&v, 7);
    if !longer {
        return from_chars(&v);
    }
    proof {
        let k2 = choose|k2: int|
            #![trigger byte_len(sha@.take(k2))]
            0 <= k2 <= sha@.len() && byte_len(sha@.take(k2)) == 7;
        if k2 < k {
            crate::text::lemma_byte_len_prefix_mono(sha@, k2 + 1, k as int);
            crate::text::lemma_byte_len_take(sha@, k2);
        } else if k2 > k {
            crate::text::lemma_byte_len_prefix_mono(sha@, k + 1, k2);
        }
        assert(k2 == k);
    }
    let p = slice_chars(&v, 0, k);
    assert(p@ =~= v@.take(k as int));
    from_chars(&p)
}

/// Synthesis-prompt text before the query.
pub const SYNTHESIS_HEAD: &'static str = r#"A user asked this question about a software project's history:

""#;
/// Synthesis-prompt text after the query, before the insights.
pub const SYNTHESIS_RULES: &'static str = r#""

Below are relevant insights extracted from the git history. Synthesize a clear, concise answer.

Rules:
- 1-2 short paragraphs. No more.
- Reference specific commits inline like (abc1234).
- Tell the story — what happened, why, what was learned.
- If something was tried and failed, include it — that's the interesting part.
- If the insights don't fully answer the question, say so briefly.
- No markdown headers. No bullet lists. End with a one-line "Sources:" listing the insight titles you drew from.

Here are the insights:

"#;

/// One numbered candidate insight in the synthesis prompt.
pub open spec fn candidate_item(n: nat, r: StoredInsight) -> Seq<char> {
    candidate_head(n, r) + candidate_rest(r)
}

/// Number, category, title, short sha and date of a candidate.
pub open spec fn candidate_head(n: nat, r: StoredInsight) -> Seq<char> {
    decimal(n) + ". ["@ + r.category@ + "] "@ + r.title@ + " (commit: "@ + short_sha_of(
        r.commit_sha@,
    ) + ", date: "@ + date_part(r.commit_date@)
}

/// Body and tags of a candidate.
pub open spec fn candidate_rest(r: StoredInsight) -> Seq<char> {
    ")\n   "@ + r.body@ + "\n   tags: "@ + r.tags@ + "\n\n"@
}

/// The numbered candidate insights.
pub open spec fn candidate_items(items: Seq<StoredInsight>) -> Seq<char>
    decreases items.len(),
{
    if items.len() == 0 {
        seq![]
    } else {
        candidate_items(items.drop_last()) + candidate_item(items.len(), items.last())
    }
}

/// The prompt asking for an answer synthesised from the candidate insights.
pub open spec fn synthesis_prompt_text(query: Seq<char>, candidates: Seq<StoredInsight>) -> Seq<char> {
    SYNTHESIS_HEAD@ + query + SYNTHESIS_RULES@ + candidate_items(candidates)
}

/// Every candidate's sha can be shortened to 7 bytes.
pub open spec fn shas_shortenable(candidates: Seq<StoredInsight>) -> bool {
    forall|i: int|
        0 <= i < candidates.len() ==> (byte_len((#[trigger] candidates[i]).commit_sha@) > 7
            ==> is_boundary(candidates[i].commit_sha@, 7))
}

fn push_candidate_item(p: &mut String, n: u64, r: &StoredInsight)
    requires
        byte_len(r.commit_sha@) > 7 ==> is_boundary(r.commit_sha@, 7),
    ensures
        final(p)@ == old(p)@ + candidate_item(n as nat, *r),
{
    push_candidate_head(p, n, r);
    let ghost mid = p@;
    push_str(p, ")\n   ");
    push_str(p, r.body.as_str());
    push_str(p, "\n   tags: ");
    push_str(p, r.tags.as_str());
    push_str(p, "\n\n");
    assert(p@ =~= mid + candidate_rest(*r));
    assert(p@ =~= old(p)@ + candidate_item(n as nat, *r));
}

fn push_candidate_head(p: &mut String, n: u64, r: &StoredInsight)
    requires
        byte_len(r.commit_sha@) > 7 ==> is_boundary(r.commit_sha@, 7),
    ensures
        final(p)@ == old(p)@ + candidate_head(n as nat, *r),
{
    push_decimal(p, n);
    push_str(p, ". [");
    push_str(p, r.category.as_str());
    push_str(p, "] ");
    push_str(p, r.title.as_str());
    push_str(p, " (commit: ");
    let s = short_sha(r.commit_sha.as_str());
    push_str(p, s.as_str());
    push_str(p, ", date: ");
    let d = date_of(r.commit_date.as_str());
    push_str(p, d.as_str());
    assert(p@ =~= old(p)@ + candidate_head(n as nat, *r));
}

/// Build the prompt asking for an answer synthesised from the candidates.
pub fn synthesis_prompt(query: &str, candidates: &[StoredInsight]) -> (r: String)
    requires
        candidates@.len() < u64::MAX,
        shas_shortenable(candidates@),
    ensures
        r@ == synthesis_prompt_text(query@, candidates@),
{
    let mut p = String::new();
    push_str(&mut p, SYNTHESIS_HEAD);
    push_str(&mut p, query);
    push_str(&mut p, SYNTHESIS_RULES);
    let ghost head = p@;
    let mut i: usize = 0;
    assert(candidates@.take(0) =~= Seq::<StoredInsight>::empty());
    assert(p@ =~= head + candidate_items(candidates@.take(0)));
    while i < candidates.len()
        invariant
            i <= candidates.len(),
            candidates@.len() < u64::MAX,
            shas_shortenable(candidates@),
            p@ == head + candidate_items(candidates@.take(i as int)),
        decreases candidates.len() - i,
    {
        push_candidate_item(&mut p, (i + 1) as u64, &candidates[i]);
        proof {
            let t = candidates@.take(i + 1);
            assert(t.drop_last() =~= candidates@.take(i as int));
            assert(t.last() == candidates@[i as int]);
            assert(p@ =~= head + candidate_items(t));
        }
        i = i + 1;
    }
    assert(candidates@.take(candidates.len() as int) =~= candidates@);
    p
}

/// The answer given when no insight matched any of the searches.
pub open spec fn no_results_text(query: Seq<char>) -> Seq<char> {
    "No insights found for: "@ + query
}

/// The answer given when no insight matched any of the searches.
pub fn no_results_answer(query: &str) -> (r: String)
    ensures
        r@ == no_results_text(query@),
{
    let mut p = String::new();
    push_str(&mut p, "No insights found for: ");
    push_str(&mut p, query);
    p
}

// ---------------------------------------------------------------------------
// Gathering candidates
// ---------------------------------------------------------------------------

/// Some insight in the list has this id.
pub open spec fn has_id(s: Seq<StoredInsight>, id: i64) -> bool {
    exists|i: int| 0 <= i < s.len() && (#[trigger] s[i]).id == id
}

/// No id occurs twice.
pub open spec fn ids_unique(s: Seq<StoredInsight>) -> bool {
    forall|i: int, j: int| 0 <= i < j < s.len() ==> (#[trigger] s[i]).id != (#[trigger] s[j]).id
}

/// The candidates after adding a search's results: each result whose id is
/// not there yet is appended, in order; the first insight seen for an id is
/// kept.
pub open spec fn merged(seen: Seq<StoredInsight>, results: Seq<StoredInsight>) -> Seq<StoredInsight>
    decreases results.len(),
{
    if results.len() == 0 {
        seen
    } else {
        let m = merged(seen, results.drop_last());
        if has_id(m, results.last().id) {
            m
        } else {
            m.push(results.last())
        }
    }
}

/// Whether an insight with this id is among the candidates.
fn find_id(seen: &Vec<StoredInsight>, id: i64) -> (r: bool)
    ensures
        r == has_id(seen@, id),
{
    let mut i: usize = 0;
    while i < seen.len()
        invariant
            i <= seen.len(),
            forall|j: int| 0 <= j < i ==> (#[trigger] seen@[j]).id != id,
        decreases seen.len() - i,
    {
        if seen[i].id == id {
            return true;
        }
        i = i + 1;
    }
    false
}

/// Adds a search's results to the candidates, keeping one insight per id
/// (the first seen).
pub fn merge_results(seen: &mut Vec<StoredInsight>, results: Vec<StoredInsight>)
    ensures
        final(seen)@ == merged(old(seen)@, results@),
{
    let ghost all = results@;
    let ghost start = seen@;
    assert(all.len() == results.len());
    let mut rest = results;
    let mut k: usize = 0;
    assert(all.take(0) =~= Seq::<StoredInsight>::empty());
    assert(all.skip(0) =~= all);
    while rest.len() > 0
        invariant
            k <= all.len(),
            all.len() <= usize::MAX,
            rest@ == all.skip(k as int),
            seen@ == merged(start, all.take(k as int)),
        decreases rest.len(),
    {
        let r = rest.remove(0);
        proof {
            assert(r == all[k as int]);
            assert(all.take(k + 1).drop_last() =~= all.take(k as int));
            assert(rest@ =~= all.skip(k + 1));
        }
        if !find_id(seen, r.id) {
            seen.push(r);
        }
        k = k + 1;
    }
    assert(all.take(k as int) =~= all);
}

/// Merging keeps the candidates' ids unique, keeps every insight already
/// there, and leaves every result's id among the candidates.
pub proof fn law_merge_keeps_ids_unique(seen: Seq<StoredInsight>, results: Seq<StoredInsight>)
    requires
        ids_unique(seen),
    ensures
        ids_unique(merged(seen, results)),
        merged(seen, results).len() >= seen.len(),
        forall|i: int| 0 <= i < seen.len() ==> merged(seen, results)[i] == seen[i],
        forall|j: int| 0 <= j < results.len() ==> has_id(merged(seen, results), (#[trigger] results[j]).id),
    decreases results.len(),
{
    if results.len() > 0 {
        let prev = results.drop_last();
        law_merge_keeps_ids_unique(seen, prev);
        let m = merged(seen, prev);
        let x = results.last();
        if !has_id(m, x.id) {
            let out = m.push(x);
            assert forall|i: int, j: int| 0 <= i < j < out.len() implies (#[trigger] out[i]).id != (
            #[trigger] out[j]).id by {
                if j == m.len() {
                    assert(out[i] == m[i]);
                } else {
                    assert(out[i] == m[i] && out[j] == m[j]);
                }
            }
            assert forall|j: int| 0 <= j < results.len() implies has_id(out, (#[trigger] results[j]).id) by {
                if j < prev.len() {
                    assert(prev[j] == results[j]);
                    assert(has_id(m, prev[j].id));
                    let i = choose|i: int| 0 <= i < m.len() && (#[trigger] m[i]).id == prev[j].id;
                    assert(out[i] == m[i]);
                } else {
                    assert(out[m.len() as int] == x);
                }
            }
        } else {
            assert forall|j: int| 0 <= j < results.len() implies has_id(m, (#[trigger] results[j]).id) by {
                if j < prev.len() {
                    assert(prev[j] == results[j]);
                }
            }
        }
    }
}

// ---------------------------------------------------------------------------
// The research loop
// ---------------------------------------------------------------------------

/// Most research steps a deep search takes before it answers.
pub const MAX_STEPS: usize = 10;

/// The next step the model picks while researching a question.
#[derive(Debug, PartialEq, Eq)]
pub enum ResearchAction {
    /// Search the insights again with this query.
    Search(String),
    /// Read this commit's message and diff.
    GitShow(String),
    /// Read this file of the repository.
    ReadFile(String),
    /// Enough has been gathered: write the answer.
    Answer,
}

/// A research action as text.
pub enum ActionView {
    Search(Seq<char>),
    GitShow(Seq<char>),
    ReadFile(Seq<char>),
    Answer,
}

/// The view of a research action.
pub open spec fn action_view(a: ResearchAction) -> ActionView {
    match a {
        ResearchAction::Search(q) => ActionView::Search(q@),
        ResearchAction::GitShow(s) => ActionView::GitShow(s@),
        ResearchAction::ReadFile(p) => ActionView::ReadFile(p@),
        ResearchAction::Answer => ActionView::Answer,
    }
}

/// The first line of a text (all of it when it holds no `\n`).
pub open spec fn first_line(s: Seq<char>) -> Seq<char> {
    s.take(first_index(s, '\n'))
}

/// The argument of a line that starts with `word`: the rest of the line,
/// trimmed, when that is not empty.
pub open spec fn argument_after(line: Seq<char>, word: Seq<char>) -> Option<Seq<char>> {
    if starts_with(line, word) && trim(line.skip(word.len() as int)).len() > 0 {
        Some(trim(line.skip(word.len() as int)))
    } else {
        None
    }
}

/// The action a model reply names: its first line (trimmed) read as
/// `search <query>`, `git_show <sha>` or `read_file <path>`; anything else
/// (`answer` among it) is the answer.
pub open spec fn action_of(reply: Seq<char>) -> ActionView {
    let line = trim(first_line(trim(reply)));
    match argument_after(line, "search "@) {
        Some(q) => ActionView::Search(q),
        None => match argument_after(line, "git_show "@) {
            Some(sha) => ActionView::GitShow(sha),
            None => match argument_after(line, "read_file "@) {
                Some(path) => ActionView::ReadFile(path),
                None => ActionView::Answer,
            },
        },
    }
}

fn first_line_chars(s: &Vec<char>) -> (r: Vec<char>)
    ensures
        r@ == first_line(s@),
{
    let mut i: usize = 0;
    while i < s.len() && s[i] != '\n'
        invariant
            i <= s.len(),
            forall|j: int| 0 <= j < i ==> s@[j] != '\n',
        decreases s.len() - i,
    {
        i = i + 1;
    }
    proof {
        crate::text::lemma_first_index(s@, '\n');
        let f = first_index(s@, '\n');
        if f < i {
            assert(s@[f] == '\n');
        }
        if f > i {
            assert(s@[i as int] == '\n');
        }
    }
    slice_chars(s, 0, i)
}

fn argument_after_chars(line: &Vec<char>, word: &str) -> (r: Option<Vec<char>>)
    ensures
        match r {
            Some(a) => argument_after(line@, word@) == Some(a@),
            None => argument_after(line@, word@) is None,
        },
{
    let w = to_chars(word);
    if !starts_with_chars(line, &w) {
        return None;
    }
    let rest = slice_chars(line, w.len(), line.len());
    assert(rest@ =~= line@.skip(w.len() as int));
    let arg = trim_chars(&rest);
    if arg.len() == 0 {
        None
    } else {
        Some(arg)
    }
}

/// Reads the action a model reply names.
pub fn parse_action(reply: &str) -> (r: ResearchAction)
    ensures
        action_view(r) == action_of(reply@),
{
    let t = trim_chars(&to_chars(reply));
    let first = first_line_chars(&t);
    let line = trim_chars(&first);
    match argument_after_chars(&line, "search ") {
        Some(q) => return ResearchAction::Search(from_chars(&q)),
        None => {},
    }
    match argument_after_chars(&line, "git_show ") {
        Some(sha) => return ResearchAction::GitShow(from_chars(&sha)),
        None => {},
    }
    match argument_after_chars(&line, "read_file ") {
        Some(path) => ResearchAction::ReadFile(from_chars(&path)),
        None => ResearchAction::Answer,
    }
}

pub const STEP_HEAD: &'static str = "You are researching a question about a software project's history:\n\n\"";

pub const STEP_FOUND: &'static str = "\"\n\nWhat you have found so far:\n\n";

pub const STEP_NOTHING: &'static str = "(nothing yet)\n\n";

pub const STEP_RULES: &'static str = "Choose the single most useful next step and reply with exactly one line:\n\nsearch <query>      search the project's insights again, with better keywords\ngit_show <sha>      read a commit's message and diff\nread_file <path>    read a file of the repository as it is now\nanswer              you have enough to answer\n\nOutput ONLY that line.";

/// The notes gathered so far, each followed by a blank line.
pub open spec fn notes_text(notes: Seq<Seq<char>>) -> Seq<char>
    decreases notes.len(),
{
    if notes.len() == 0 {
        seq![]
    } else {
        notes_text(notes.drop_last()) + notes.last() + "\n\n"@
    }
}

/// The prompt asking the model for its next research step.
pub open spec fn step_prompt_text(query: Seq<char>, notes: Seq<Seq<char>>) -> Seq<char> {
    STEP_HEAD@ + query + STEP_FOUND@ + (if notes.len() == 0 {
        STEP_NOTHING@
    } else {
        notes_text(notes)
    }) + STEP_RULES@
}

/// Builds the prompt for the next research step from the notes so far.
pub fn step_prompt(query: &str, notes: &Vec<String>) -> (r: String)
    ensures
        r@ == step_prompt_text(query@, str_views(notes@)),
{
    let mut p = String::new();
    push_str(&mut p, STEP_HEAD);
    push_str(&mut p, query);
    push_str(&mut p, STEP_FOUND);
    let ghost head = p@;
    if notes.len() == 0 {
        push_str(&mut p, STEP_NOTHING);
    } else {
        let mut i: usize = 0;
        while i < notes.len()
            invariant
                i <= notes.len(),
                p@ == head + notes_text(str_views(notes@).take(i as int)),
            decreases notes.len() - i,
        {
            proof {
                let v = str_views(notes@);
                assert(v.take(i + 1).drop_last() =~= v.take(i as int));
                assert(v.take(i + 1).last() == notes@[i as int]@);
            }
            push_str(&mut p, notes[i].as_str());
            push_str(&mut p, "\n\n");
            i = i + 1;
        }
        assert(str_views(notes@).take(notes.len() as int) =~= str_views(notes@));
    }
    push_str(&mut p, STEP_RULES);
    p
}

/// One found insight in a search note.
pub open spec fn found_line(r: StoredInsight) -> Seq<char> {
    "- ["@ + r.category@ + "] "@ + r.title@ + " (commit "@ + r.commit_sha@ + ")\n"@
}

/// The found insights, one line each.
pub open spec fn found_lines(rs: Seq<StoredInsight>) -> Seq<char>
    decreases rs.len(),
{
    if rs.len() == 0 {
        seq![]
    } else {
        found_lines(rs.drop_last()) + found_line(rs.last())
    }
}

/// The note a search step leaves: the query, then each insight found, or
/// `(no results)`.
pub open spec fn search_note_text(query: Seq<char>, found: Seq<StoredInsight>) -> Seq<char> {
    "> search "@ + query + "\n"@ + (if found.len() == 0 {
        "(no results)"@
    } else {
        found_lines(found)
    })
}

/// Builds the note a search step leaves.
pub fn search_note(query: &str, found: &Vec<StoredInsight>) -> (r: String)
    ensures
        r@ == search_note_text(query@, found@),
{
    let mut p = String::new();
    push_str(&mut p, "> search ");
    push_str(&mut p, query);
    push_str(&mut p, "\n");
    if found.len() == 0 {
        push_str(&mut p, "(no results)");
        return p;
    }
    let ghost head = p@;
    let mut i: usize = 0;
    while i < found.len()
        invariant
            i <= found.len(),
            p@ == head + found_lines(found@.take(i as int)),
        decreases found.len() - i,
    {
        proof {
            assert(found@.take(i + 1).drop_last() =~= found@.take(i as int));
            assert(found@.take(i + 1).last() == found@[i as int]);
        }
        let r = &found[i];
        push_str(&mut p, "- [");
        push_str(&mut p, r.category.as_str());
        push_str(&mut p, "] ");
        push_str(&mut p, r.title.as_str());
        push_str(&mut p, " (commit ");
        push_str(&mut p, r.commit_sha.as_str());
        push_str(&mut p, ")\n");
        i = i + 1;
    }
    assert(found@.take(found.len() as int) =~= found@);
    p
}

/// The note a `git_show` or `read_file` step leaves: the step, then what
/// the tool gave, cut to about `MAX_DIFF_CHARS` bytes.
pub open spec fn tool_note_text(step: Seq<char>, argument: Seq<char>, output: Seq<char>) -> Seq<char> {
    "> "@ + step + " "@ + argument + "\n"@ + crate::git::truncated_diff(output)
}

/// Builds the note a `git_show` or `read_file` step leaves.
pub fn tool_note(step: &str, argument: &str, output: &str) -> (r: String)
    ensures
        r@ == tool_note_text(step@, argument@, output@),
{
    let mut p = String::new();
    push_str(&mut p, "> ");
    push_str(&mut p, step);
    push_str(&mut p, " ");
    push_str(&mut p, argument);
    push_str(&mut p, "\n");
    let cut = crate::git::truncate_diff(output);
    push_str(&mut p, cut.as_str());
    p
}

/// The commits an answer cites: those whose short sha occurs in it, in order.
pub fn cited_commits(answer: &str, citations: Vec<CommitCitation>) -> (r: Vec<CommitCitation>)
    ensures
        citations_view(r@) == citations_view(citations@).filter(
            |c: (Seq<char>, Seq<char>, Seq<int>)| contains(answer@, c.0),
        ),
{
    let a = to_chars(answer);
    let ghost all = citations_view(citations@);
    let ghost pred = |c: (Seq<char>, Seq<char>, Seq<int>)| contains(answer@, c.0);
    let mut out: Vec<CommitCitation> = Vec::new();
    let mut items = citations;
    let mut i: usize = 0;
    assert(all.take(0).filter(pred) =~= Seq::<(Seq<char>, Seq<char>, Seq<int>)>::empty());
    assert(citations_view(items@) =~= all.skip(0));
    assert(all.len() == items.len());
    while items.len() > 0
        invariant
            all.len() <= usize::MAX,
            i + items.len() == all.len(),
            citations_view(items@) == all.skip(i as int),
            citations_view(out@) == all.take(i as int).filter(pred),
            a@ == answer@,
            pred == (|c: (Seq<char>, Seq<char>, Seq<int>)| contains(answer@, c.0)),
        decreases items.len(),
    {
        let ghost before = items@;
        let c = items.remove(0);
        proof {
            assert(items@ =~= before.skip(1));
            assert(citations_view(before)[0] == citation_view(before[0]));
            assert(c == before[0]);
            assert(citations_view(items@) =~= all.skip(i + 1)) by {
                assert forall|k: int| 0 <= k < items@.len() implies citations_view(items@)[k]
                    == all.skip(i + 1)[k] by {
                    assert(items@[k] == before[k + 1]);
                    assert(citations_view(before)[k + 1] == all.skip(i as int)[k + 1]);
                }
            }
            assert(citation_view(c) == all[i as int]) by {
                assert(all.skip(i as int)[0] == all[i as int]);
            }
            crate::lemmas::lemma_filter_step(all, i as int, pred);
        }
        let sha = to_chars(c.short_sha.as_str());
        assert(sha@ == all[i as int].0);
        assert(pred(all[i as int]) == contains(answer@, all[i as int].0));
        if contains_chars(&a, &sha) {
            let ghost o = out@;
            out.push(c);
            assert(citations_view(out@) =~= citations_view(o).push(all[i as int]));
        }
        i = i + 1;
    }
    assert(all.take(all.len() as int) =~= all);
    out
}

} // verus!
