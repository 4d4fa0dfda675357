//! sggit: a scatter-gather file tracker.
//!
//! A single version-controlled repository is the canonical store for files
//! that live at different absolute paths on different machines ("platforms").
//! Each tracked artifact pairs one repo-relative path with at most one real
//! filesystem path per platform name.  The modules below hold the data model,
//! the per-platform resolver, the copy planner, the sync decision rule, the
//! commit batcher and the codec for the on-disk mapping file.  Paths and
//! platform names are byte strings throughout: OS paths need not be UTF-8.

pub mod args;
pub mod codec;
pub mod commit;
pub mod copy;
pub mod json;
pub mod platform_setting;
pub mod paths;
pub mod store;
pub mod sync_rule;
pub mod timefmt;
