//! The sync decision rule: the single conflict policy of the whole system.
//!
//! Bidirectional sync never merges.  Per artifact, the repository copy is
//! pushed out to the platform's real path exactly when the external copy is
//! strictly newer by modification time (or absent); everything else is left
//! alone, and nothing ever moves into the repository during sync — that is
//! `update`'s job, unconditionally.  Keeping the rule one named function
//! lets a future policy replace it without touching the pipeline.

use vstd::prelude::*;

verus! {

/// What sync does with one artifact.
#[derive(Clone, Copy, Debug, PartialEq, Eq, Structural)]
pub enum SyncDecision {
    /// Push the repository copy out over the real path.
    CopyToExternal,
    /// Leave both copies alone.
    Skip,
}

/// The conflict rule.  Each argument is the file's modification time in
/// seconds since the Unix epoch, or `None` when the file is absent.
pub open spec fn spec_sync_decision(
    repo_mtime: Option<u64>,
    external_mtime: Option<u64>,
) -> SyncDecision {
    match repo_mtime {
        None => SyncDecision::Skip,
        Some(tr) => match external_mtime {
            None => SyncDecision::CopyToExternal,
            Some(te) => if te > tr {
                SyncDecision::CopyToExternal
            } else {
                SyncDecision::Skip
            },
        },
    }
}

/// The bidirectional sync command.
pub struct Sync;

impl Sync {
    /// Decides one artifact, from the live modification times of the
    /// repository copy and the external copy.
    pub fn decide(repo_mtime: Option<u64>, external_mtime: Option<u64>) -> (d: SyncDecision)
        ensures
            d == spec_sync_decision(repo_mtime, external_mtime),
    {
        match repo_mtime {
            None => SyncDecision::Skip,
            Some(tr) => match external_mtime {
                None => SyncDecision::CopyToExternal,
                Some(te) => if te > tr {
                    SyncDecision::CopyToExternal
                } else {
                    SyncDecision::Skip
                },
            },
        }
    }
}

/// With both copies present, sync copies exactly when the external file is
/// strictly newer than the repository file; equal timestamps never trigger a
/// copy.
pub proof fn lemma_sync_copies_iff_strictly_newer(repo_mtime: u64, external_mtime: u64)
    ensures
        spec_sync_decision(Some(repo_mtime), Some(external_mtime)) is CopyToExternal
            <==> external_mtime > repo_mtime,
        external_mtime == repo_mtime ==> spec_sync_decision(
            Some(repo_mtime),
            Some(external_mtime),
        ) is Skip,
{
}

} // verus!
