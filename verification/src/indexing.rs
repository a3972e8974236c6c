//! Incremental indexing: where a run starts, and how far the recorded
//! last-indexed commit moves as batches are processed.
//!
//! A run registers the repo, then indexes the commits after the recorded
//! one. The record moves to a batch's last commit once that batch is stored
//! (or had nothing to store); a batch whose embeddings failed leaves it
//! where it was, though a later batch of the same run that is stored moves
//! it on past that batch.
use vstd::prelude::*;
use crate::manifest::{register_repo, Manifest};
use crate::git::CommitData;
use crate::text::{eq_str, opt_view, str_views};

verus! {

/// Where a run starts: after the recorded commit, or from the whole history
/// when the index is rebuilt.
pub open spec fn start_after(reindex: bool, recorded: Option<Seq<char>>) -> Option<Seq<char>> {
    if reindex {
        None
    } else {
        recorded
    }
}

/// Starts an indexing run: registers the repo's slug and path in the
/// manifest (a path that is not text, `None`, is not registered), and gives
/// the commit the run starts after (`None`: the whole history).
pub fn index_start(
    manifest: &mut Manifest,
    slug: &str,
    local_path: Option<&str>,
    reindex: bool,
    recorded: Option<String>,
) -> (r: Option<String>)
    ensures
        final(manifest).map() == match local_path {
            Some(p) => old(manifest).map().insert(slug@, p@),
            None => old(manifest).map(),
        },
        opt_view(r) == start_after(reindex, opt_view(recorded)),
{
    match local_path {
        Some(p) => register_repo(manifest, slug, p),
        None => {},
    }
    if reindex {
        None
    } else {
        recorded
    }
}

/// What became of one batch of commits.
#[derive(Clone, Copy, Debug, PartialEq, Eq, Structural)]
pub enum BatchOutcome {
    /// The model found nothing worth storing in it.
    NoInsights,
    /// Its insights were stored with their embeddings.
    Stored,
    /// Embedding its insights failed; nothing was stored.
    EmbeddingFailed,
}

/// The recorded commit after one batch whose last commit is `batch_last`.
pub open spec fn recorded_step(
    recorded: Option<Seq<char>>,
    batch_last: Seq<char>,
    outcome: BatchOutcome,
) -> Option<Seq<char>> {
    match outcome {
        BatchOutcome::EmbeddingFailed => recorded,
        BatchOutcome::NoInsights => if batch_last.len() == 0 {
            recorded
        } else {
            Some(batch_last)
        },
        BatchOutcome::Stored => Some(batch_last),
    }
}

/// The recorded commit after a batch: it moves to the batch's last commit
/// when the batch was stored or had no insights (and has a last commit), and
/// stays where it was when embedding failed.
pub fn recorded_after(recorded: Option<String>, batch_last: &str, outcome: BatchOutcome) -> (r:
    Option<String>)
    ensures
        opt_view(r) == recorded_step(opt_view(recorded), batch_last@, outcome),
{
    match outcome {
        BatchOutcome::EmbeddingFailed => recorded,
        BatchOutcome::NoInsights => {
            if batch_last.is_empty() {
                recorded
            } else {
                Some(String::from_str(batch_last))
            }
        },
        BatchOutcome::Stored => Some(String::from_str(batch_last)),
    }
}

/// The recorded commit after a run of batches, each given by its last
/// commit and its outcome, in the order they were processed.
pub open spec fn recorded_through(
    start: Option<Seq<char>>,
    batches: Seq<(Seq<char>, BatchOutcome)>,
) -> Option<Seq<char>>
    decreases batches.len(),
{
    if batches.len() == 0 {
        start
    } else {
        recorded_step(
            recorded_through(start, batches.drop_last()),
            batches.last().0,
            batches.last().1,
        )
    }
}

/// Law: when every batch was stored or had no insights, the recorded commit
/// is the last commit of the last batch, so the next run (without a rebuild)
/// starts right after everything this run indexed.
pub proof fn law_rerun_starts_after_indexed(
    start: Option<Seq<char>>,
    batches: Seq<(Seq<char>, BatchOutcome)>,
)
    requires
        batches.len() > 0,
        batches.last().0.len() > 0,
        forall|i: int| 0 <= i < batches.len() ==> (#[trigger] batches[i]).1 != BatchOutcome::EmbeddingFailed,
    ensures
        recorded_through(start, batches) == Some(batches.last().0),
        start_after(false, recorded_through(start, batches)) == Some(batches.last().0),
{
    assert(batches[batches.len() - 1] == batches.last());
}

/// Law: the recorded commit never moves to a commit that is not the last
/// commit of a batch that was stored or had no insights; in particular a
/// batch whose embeddings failed is never recorded as indexed.
pub proof fn law_recorded_is_a_finished_batch(
    start: Option<Seq<char>>,
    batches: Seq<(Seq<char>, BatchOutcome)>,
)
    ensures
        recorded_through(start, batches) == start || exists|i: int|
            0 <= i < batches.len() && (#[trigger] batches[i]).1 != BatchOutcome::EmbeddingFailed
                && recorded_through(start, batches) == Some(batches[i].0),
    decreases batches.len(),
{
    if batches.len() > 0 {
        let init = batches.drop_last();
        law_recorded_is_a_finished_batch(start, init);
        let prev = recorded_through(start, init);
        let last = batches.last();
        assert(batches[batches.len() - 1] == last);
        if recorded_through(start, batches) != prev {
            assert(last.1 != BatchOutcome::EmbeddingFailed);
        } else if prev != start {
            let i = choose|i: int|
                0 <= i < init.len() && (#[trigger] init[i]).1 != BatchOutcome::EmbeddingFailed
                    && prev == Some(init[i].0);
            assert(batches[i] == init[i]);
        }
    }
}

// ---------------------------------------------------------------------------
// Skipping commits already indexed
// ---------------------------------------------------------------------------

/// The commits whose sha is not among `indexed`, in the order given.
pub open spec fn not_indexed(commits: Seq<CommitData>, indexed: Seq<Seq<char>>) -> Seq<CommitData>
    decreases commits.len(),
{
    if commits.len() == 0 {
        seq![]
    } else {
        let rest = not_indexed(commits.drop_last(), indexed);
        if indexed.contains(commits.last().sha@) {
            rest
        } else {
            rest.push(commits.last())
        }
    }
}

fn is_indexed(sha: &str, indexed: &Vec<String>) -> (b: bool)
    ensures
        b == str_views(indexed@).contains(sha@),
{
    let mut i: usize = 0;
    while i < indexed.len()
        invariant
            i <= indexed.len(),
            forall|j: int| 0 <= j < i ==> indexed@[j]@ != sha@,
        decreases indexed.len() - i,
    {
        if eq_str(indexed[i].as_str(), sha) {
            assert(str_views(indexed@)[i as int] == sha@);
            return true;
        }
        i = i + 1;
    }
    proof {
        if str_views(indexed@).contains(sha@) {
            let j = choose|j: int| 0 <= j < str_views(indexed@).len() && str_views(indexed@)[j] == sha@;
            assert(indexed@[j]@ == sha@);
        }
    }
    false
}

/// The commits still to index: those whose sha is not among the shas the
/// index already holds, in the order given.
pub fn unindexed(commits: Vec<CommitData>, indexed: &Vec<String>) -> (r: Vec<CommitData>)
    ensures
        r@ == not_indexed(commits@, str_views(indexed@)),
{
    let ghost all = commits@;
    let ghost idx = str_views(indexed@);
    let mut kept: Vec<CommitData> = Vec::new();
    let mut i: usize = 0;
    assert(all.len() == commits.len());
    let mut items = commits;
    assert(not_indexed(all.take(0), idx) =~= kept@);
    assert(items@ =~= all.skip(0));
    while items.len() > 0
        invariant
            all.len() <= usize::MAX,
            i + items.len() == all.len(),
            items@ == all.skip(i as int),
            idx == str_views(indexed@),
            kept@ == not_indexed(all.take(i as int), idx),
        decreases items.len(),
    {
        let c = items.remove(0);
        assert(c == all[i as int]);
        assert(items@ =~= all.skip(i + 1));
        assert(all.take(i + 1).drop_last() =~= all.take(i as int));
        assert(all.take(i + 1).last() == c);
        if !is_indexed(c.sha.as_str(), indexed) {
            kept.push(c);
        }
        i = i + 1;
    }
    assert(all.take(all.len() as int) =~= all);
    kept
}

/// What `not_indexed` keeps is drawn from the commits and holds no indexed
/// sha.
proof fn lemma_not_indexed_members(commits: Seq<CommitData>, indexed: Seq<Seq<char>>)
    ensures
        forall|k: int|
            0 <= k < not_indexed(commits, indexed).len() ==> !indexed.contains(
                (#[trigger] not_indexed(commits, indexed)[k]).sha@,
            ) && commits.contains(not_indexed(commits, indexed)[k]),
    decreases commits.len(),
{
    if commits.len() > 0 {
        let init = commits.drop_last();
        lemma_not_indexed_members(init, indexed);
        let rest = not_indexed(init, indexed);
        let r = not_indexed(commits, indexed);
        assert forall|k: int| 0 <= k < r.len() implies !indexed.contains((#[trigger] r[k]).sha@)
            && commits.contains(r[k]) by {
            if k < rest.len() {
                assert(r[k] == rest[k]);
                let j = choose|j: int| 0 <= j < init.len() && init[j] == rest[k];
                assert(commits[j] == init[j]);
            } else {
                assert(r[k] == commits.last());
                assert(commits[commits.len() - 1] == commits.last());
            }
        }
    }
}

/// Law: indexing is idempotent. No commit left to index is one the index
/// already holds; and once every commit left to index has been stored
/// (its sha added to those indexed), nothing is left: re-running indexes
/// nothing twice.
pub proof fn law_indexing_idempotent(commits: Seq<CommitData>, indexed: Seq<Seq<char>>)
    ensures
        forall|k: int|
            0 <= k < not_indexed(commits, indexed).len() ==> !indexed.contains(
                (#[trigger] not_indexed(commits, indexed)[k]).sha@,
            ),
        not_indexed(
            commits,
            indexed + not_indexed(commits, indexed).map_values(|c: CommitData| c.sha@),
        ).len() == 0,
{
    lemma_not_indexed_members(commits, indexed);
    let kept = not_indexed(commits, indexed);
    let shas = kept.map_values(|c: CommitData| c.sha@);
    let after = indexed + shas;
    assert forall|s: Seq<char>| #[trigger] indexed.contains(s) implies after.contains(s) by {
        let j = choose|j: int| 0 <= j < indexed.len() && indexed[j] == s;
        assert(after[j] == s);
    }
    assert forall|k: int| 0 <= k < kept.len() implies after.contains((#[trigger] kept[k]).sha@) by {
        assert(after[indexed.len() + k] == shas[k]);
    }
    lemma_all_stored(commits, indexed, after);
}

/// When every commit's sha is indexed or was kept, nothing is left.
proof fn lemma_all_stored(commits: Seq<CommitData>, indexed: Seq<Seq<char>>, after: Seq<Seq<char>>)
    requires
        forall|s: Seq<char>| #[trigger] indexed.contains(s) ==> after.contains(s),
        forall|k: int|
            0 <= k < not_indexed(commits, indexed).len() ==> after.contains(
                (#[trigger] not_indexed(commits, indexed)[k]).sha@,
            ),
    ensures
        not_indexed(commits, after).len() == 0,
    decreases commits.len(),
{
    if commits.len() > 0 {
        let init = commits.drop_last();
        let rest = not_indexed(init, indexed);
        let r = not_indexed(commits, indexed);
        assert forall|k: int| 0 <= k < rest.len() implies after.contains((#[trigger] rest[k]).sha@) by {
            assert(r[k] == rest[k]);
        }
        lemma_all_stored(init, indexed, after);
        if !indexed.contains(commits.last().sha@) {
            assert(r[rest.len() as int] == commits.last());
        }
    }
}

} // verus!
