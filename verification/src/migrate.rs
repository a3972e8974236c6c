//! Moving registered repositories to daemon-based indexing: when a
//! migration is due, and the tally of what it did.
use vstd::prelude::*;
use crate::numbers::{decimal, push_decimal};
use crate::text::{push_str, to_chars};

verus! {

/// What to do about migration when a command starts.
#[derive(Debug)]
pub enum MigrationNeed {
    /// The recorded version is the running one.
    UpToDate,
    /// A fresh install (nothing recorded, no manifest): only record the version.
    StampOnly,
    /// Migrate, reporting the version migrated from.
    Migrate { from: String },
}

/// The version a migration starts from, as reported: `<old>` when none was
/// recorded.
pub open spec fn from_label(last: Seq<char>) -> Seq<char> {
    if last.len() == 0 {
        "<old>"@
    } else {
        last
    }
}

/// Whether to migrate, from the last migrated version (empty when none was
/// recorded), the running version and whether a manifest of repositories
/// exists. Only an upgrade migrates: an empty record with no manifest is a
/// fresh install.
pub fn migration_need(last: &str, current: &str, manifest_exists: bool) -> (r: MigrationNeed)
    ensures
        last@ == current@ ==> r is UpToDate,
        last@ != current@ && last@.len() == 0 && !manifest_exists ==> r is StampOnly,
        last@ != current@ && !(last@.len() == 0 && !manifest_exists) ==> (r matches MigrationNeed::Migrate {
            from,
        } && from@ == from_label(last@)),
{
    if crate::text::eq_str(last, current) {
        return MigrationNeed::UpToDate;
    }
    let l = to_chars(last);
    if l.len() == 0 && !manifest_exists {
        return MigrationNeed::StampOnly;
    }
    let mut from = String::new();
    if l.len() == 0 {
        push_str(&mut from, "<old>");
    } else {
        push_str(&mut from, last);
    }
    MigrationNeed::Migrate { from }
}

/// What happened to one repository during a migration.
#[derive(Debug, Clone, Copy, PartialEq, Eq, Structural)]
pub enum RepoOutcome {
    Updated,
    Skipped,
    Failed,
}

/// The counts of a migration's outcomes.
#[derive(Debug, Clone, Copy, PartialEq, Eq, Structural)]
pub struct Tally {
    pub updated: usize,
    pub skipped: usize,
    pub failed: usize,
}

impl Tally {
    /// No repositories yet.
    pub fn new() -> (t: Tally)
        ensures
            t == (Tally { updated: 0, skipped: 0, failed: 0 }),
    {
        Tally { updated: 0, skipped: 0, failed: 0 }
    }

    /// Counts one more outcome.
    pub fn record(&mut self, outcome: RepoOutcome)
        requires
            old(self).updated < usize::MAX,
            old(self).skipped < usize::MAX,
            old(self).failed < usize::MAX,
        ensures
            final(self).updated == old(self).updated + (if outcome == RepoOutcome::Updated {
                1int
            } else {
                0
            }),
            final(self).skipped == old(self).skipped + (if outcome == RepoOutcome::Skipped {
                1int
            } else {
                0
            }),
            final(self).failed == old(self).failed + (if outcome == RepoOutcome::Failed {
                1int
            } else {
                0
            }),
    {
        match outcome {
            RepoOutcome::Updated => self.updated = self.updated + 1,
            RepoOutcome::Skipped => self.skipped = self.skipped + 1,
            RepoOutcome::Failed => self.failed = self.failed + 1,
        }
    }

    /// The closing line of a migration: `<n> updated, <n> skipped, <n> failed.`
    pub fn summary(&self) -> (r: String)
        ensures
            r@ == decimal(self.updated as nat) + " updated, "@ + decimal(self.skipped as nat)
                + " skipped, "@ + decimal(self.failed as nat) + " failed."@,
    {
        let mut r = String::new();
        push_decimal(&mut r, self.updated as u64);
        push_str(&mut r, " updated, ");
        push_decimal(&mut r, self.skipped as u64);
        push_str(&mut r, " skipped, ");
        push_decimal(&mut r, self.failed as u64);
        push_str(&mut r, " failed.");
        assert(Seq::<char>::empty() + decimal(self.updated as nat) =~= decimal(self.updated as nat));
        r
    }
}

} // verus!
