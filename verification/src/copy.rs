//! The copy engine's planning half.
//!
//! Given the resolver's (real path, repo path) pairs, a direction and the
//! repository root, the planner decides for each pair what the caller must
//! do on disk: copy bytes (creating the destination's parent directory
//! first), skip an identity pair silently, or report a missing source and
//! carry on with the remaining pairs.  The byte moving itself is the
//! caller's, outside this crate; every decision here is pure.

use vstd::prelude::*;

use crate::paths::{parent_dir, path_join, spec_parent_dir, spec_path_join};
use crate::platform_setting::PlatformConfig;
use crate::store::{bytes_eq, clone_bytes, pairs_view, spec_resolve, RepoConfig};

verus! {

/// Which side of the repository is the write target.
#[derive(Clone, Copy, Debug, PartialEq, Eq, Structural)]
pub enum Direction {
    /// Real path to `repo_root + repo_path`: `update` pulls inward.
    ToRepo,
    /// `repo_root + repo_path` to real path: `sync` pushes outward.
    FromRepo,
}

/// One planned action for one resolved pair.
pub enum CopyStep {
    /// Copy `src` over `dst`, after making sure `dst_parent` exists.
    CopyFile { src: Vec<u8>, dst: Vec<u8>, dst_parent: Option<Vec<u8>> },
    /// Source and destination are the same path: nothing is written.
    SkipIdentity { path: Vec<u8> },
    /// The source file is absent: reported, and the batch continues.
    MissingSource { src: Vec<u8> },
}

/// Mathematical value of a [`CopyStep`].
pub ghost enum CopyStepV {
    CopyFile { src: Seq<u8>, dst: Seq<u8>, dst_parent: Option<Seq<u8>> },
    SkipIdentity { path: Seq<u8> },
    MissingSource { src: Seq<u8> },
}

impl View for CopyStep {
    type V = CopyStepV;

    open spec fn view(&self) -> CopyStepV {
        match self {
            CopyStep::CopyFile { src, dst, dst_parent } => CopyStepV::CopyFile {
                src: src@,
                dst: dst@,
                dst_parent: match dst_parent {
                    None => None,
                    Some(d) => Some(d@),
                },
            },
            CopyStep::SkipIdentity { path } => CopyStepV::SkipIdentity { path: path@ },
            CopyStep::MissingSource { src } => CopyStepV::MissingSource { src: src@ },
        }
    }
}

/// The concrete (source, destination) of a resolved pair under a direction.
pub open spec fn spec_resolve_pair(
    pr: (Seq<u8>, Seq<u8>),
    root: Seq<u8>,
    dir: Direction,
) -> (Seq<u8>, Seq<u8>) {
    match dir {
        Direction::ToRepo => (pr.0, spec_path_join(root, pr.1)),
        Direction::FromRepo => (spec_path_join(root, pr.1), pr.0),
    }
}

/// What the engine does with one pair: skip identities, report missing
/// sources, copy the rest with the destination's parent prepared first.
pub open spec fn spec_copy_step(
    pr: (Seq<u8>, Seq<u8>),
    root: Seq<u8>,
    dir: Direction,
    src_exists: bool,
) -> CopyStepV {
    let sd = spec_resolve_pair(pr, root, dir);
    if sd.0 == sd.1 {
        CopyStepV::SkipIdentity { path: sd.0 }
    } else if !src_exists {
        CopyStepV::MissingSource { src: sd.0 }
    } else {
        CopyStepV::CopyFile { src: sd.0, dst: sd.1, dst_parent: spec_parent_dir(sd.1) }
    }
}

/// Plans the whole batch: one step per pair, in order.  `src_exists[i]` says
/// whether the i-th source file is present on disk.
pub fn plan_copies(
    pairs: &Vec<(Vec<u8>, Vec<u8>)>,
    repo_root: &Vec<u8>,
    direction: Direction,
    src_exists: &Vec<bool>,
) -> (plan: Vec<CopyStep>)
    requires
        src_exists@.len() == pairs@.len(),
    ensures
        plan@.len() == pairs@.len(),
        forall|i: int|
            0 <= i < plan@.len() ==> (#[trigger] plan@[i])@ == spec_copy_step(
                (pairs@[i].0@, pairs@[i].1@),
                repo_root@,
                direction,
                src_exists@[i],
            ),
{
    let mut plan: Vec<CopyStep> = Vec::new();
    let mut i: usize = 0;
    while i < pairs.len()
        invariant
            src_exists@.len() == pairs@.len(),
            i <= pairs@.len(),
            plan@.len() == i,
            forall|j: int|
                0 <= j < i ==> (#[trigger] plan@[j])@ == spec_copy_step(
                    (pairs@[j].0@, pairs@[j].1@),
                    repo_root@,
                    direction,
                    src_exists@[j],
                ),
        decreases pairs@.len() - i,
    {
        let real_path = &pairs[i].0;
        let repo_rel = &pairs[i].1;
        let joined = path_join(repo_root, repo_rel);
        let (src, dst) = match direction {
            Direction::ToRepo => (clone_bytes(real_path), joined),
            Direction::FromRepo => (joined, clone_bytes(real_path)),
        };
        let step = if bytes_eq(&src, &dst) {
            CopyStep::SkipIdentity { path: src }
        } else if !src_exists[i] {
            CopyStep::MissingSource { src }
        } else {
            let dst_parent = parent_dir(&dst);
            CopyStep::CopyFile { src, dst, dst_parent }
        };
        plan.push(step);
        i = i + 1;
    }
    plan
}

impl RepoConfig {
    /// Plans pulling every relevant real file into the repository
    /// (`update`): unconditional, the repository is the write target.
    pub fn copy_files_to_repo(
        &self,
        platform_config: &PlatformConfig,
        src_exists: &Vec<bool>,
    ) -> (plan: Vec<CopyStep>)
        requires
            src_exists@.len() == spec_resolve(self@.files, platform_config@.platform).len(),
        ensures
            plan@.len() == spec_resolve(self@.files, platform_config@.platform).len(),
            forall|i: int|
                0 <= i < plan@.len() ==> (#[trigger] plan@[i])@ == spec_copy_step(
                    spec_resolve(self@.files, platform_config@.platform)[i],
                    platform_config@.repo_path,
                    Direction::ToRepo,
                    src_exists@[i],
                ),
    {
        let pairs = self.get_src_dst_all_files(platform_config.get_platform());
        proof {
            assert(forall|i: int|
                0 <= i < pairs@.len() ==> (pairs@[i].0@, pairs@[i].1@) == pairs_view(pairs@)[i]);
        }
        plan_copies(&pairs, platform_config.get_repo_path(), Direction::ToRepo, src_exists)
    }

    /// Plans pushing every relevant repository file out to its real path
    /// (`sync`'s copy half): the real locations are the write target.
    pub fn copy_files_from_repo(
        &self,
        platform_config: &PlatformConfig,
        src_exists: &Vec<bool>,
    ) -> (plan: Vec<CopyStep>)
        requires
            src_exists@.len() == spec_resolve(self@.files, platform_config@.platform).len(),
        ensures
            plan@.len() == spec_resolve(self@.files, platform_config@.platform).len(),
            forall|i: int|
                0 <= i < plan@.len() ==> (#[trigger] plan@[i])@ == spec_copy_step(
                    spec_resolve(self@.files, platform_config@.platform)[i],
                    platform_config@.repo_path,
                    Direction::FromRepo,
                    src_exists@[i],
                ),
    {
        let pairs = self.get_src_dst_all_files(platform_config.get_platform());
        proof {
            assert(forall|i: int|
                0 <= i < pairs@.len() ==> (pairs@[i].0@, pairs@[i].1@) == pairs_view(pairs@)[i]);
        }
        plan_copies(&pairs, platform_config.get_repo_path(), Direction::FromRepo, src_exists)
    }
}

/// Swaps every (source, destination) pair, turning a pull list into a push
/// list.
pub fn src_dst_to_dst_src(srcs_dsts: &Vec<(Vec<u8>, Vec<u8>)>) -> (r: Vec<(Vec<u8>, Vec<u8>)>)
    ensures
        r@.len() == srcs_dsts@.len(),
        forall|i: int|
            0 <= i < r@.len() ==> (#[trigger] r@[i]).0@ == srcs_dsts@[i].1@ && r@[i].1@
                == srcs_dsts@[i].0@,
{
    let mut r: Vec<(Vec<u8>, Vec<u8>)> = Vec::new();
    let mut i: usize = 0;
    while i < srcs_dsts.len()
        invariant
            i <= srcs_dsts@.len(),
            r@.len() == i,
            forall|j: int|
                0 <= j < i ==> (#[trigger] r@[j]).0@ == srcs_dsts@[j].1@ && r@[j].1@
                    == srcs_dsts@[j].0@,
        decreases srcs_dsts@.len() - i,
    {
        let dst_src = (clone_bytes(&srcs_dsts[i].1), clone_bytes(&srcs_dsts[i].0));
        r.push(dst_src);
        i = i + 1;
    }
    r
}

/// A pair whose resolved source and destination are the same path is always
/// planned as a silent skip — zero filesystem writes — and conversely every
/// planned copy moves bytes between two distinct paths.
pub proof fn lemma_identity_pair_never_copied(
    pr: (Seq<u8>, Seq<u8>),
    root: Seq<u8>,
    dir: Direction,
    src_exists: bool,
)
    ensures
        spec_resolve_pair(pr, root, dir).0 == spec_resolve_pair(pr, root, dir).1
            ==> spec_copy_step(pr, root, dir, src_exists) is SkipIdentity,
        spec_copy_step(pr, root, dir, src_exists) is CopyFile ==> spec_resolve_pair(
            pr,
            root,
            dir,
        ).0 != spec_resolve_pair(pr, root, dir).1,
{
}

} // verus!
