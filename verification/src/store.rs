//! The path-mapping store.
//!
//! A [`RepoConfig`] holds one [`FileDescriptor`] per tracked artifact: the
//! repo-relative path where the artifact lives inside the repository, and one
//! [`Platform`] binding per machine class, naming the real path the artifact
//! lives at outside the repository on that platform.
//!
//! Lookups always take the *first* matching entry, so every operation is
//! deterministic even on a store that was edited by hand into an
//! inconsistent state; [`spec_store_wf`] states the intended invariant
//! (unique repo paths, unique platform names per artifact).

use vstd::prelude::*;

use crate::paths::is_valid_repo_path;

verus! {

/// Why a store operation was refused.
#[derive(Clone, Copy, Debug, PartialEq, Eq, Structural)]
pub enum StoreError {
    /// The repo-relative path is absolute or traverses above the repo root.
    PathPolicy,
    /// The artifact already has a binding for this platform.
    Conflict,
    /// No artifact with this repo-relative path exists.
    NotFound,
}

/// One platform binding: where the artifact lives on machines of this class.
pub struct Platform {
    pub name: Vec<u8>,
    pub path: Vec<u8>,
    /// Seconds since the Unix epoch of the last outward sync; observability
    /// only, never consulted by the sync decision.
    pub last_synced: Option<u64>,
}

/// Mathematical value of a [`Platform`].
pub ghost struct PlatformV {
    pub name: Seq<u8>,
    pub path: Seq<u8>,
    pub last_synced: Option<u64>,
}

impl View for Platform {
    type V = PlatformV;

    open spec fn view(&self) -> PlatformV {
        PlatformV { name: self.name@, path: self.path@, last_synced: self.last_synced }
    }
}

impl DeepView for Platform {
    type V = PlatformV;

    open spec fn deep_view(&self) -> PlatformV {
        self@
    }
}

/// One tracked artifact: its place in the repository and its bindings.
pub struct FileDescriptor {
    pub path_in_repo: Vec<u8>,
    pub platforms: Vec<Platform>,
}

/// Mathematical value of a [`FileDescriptor`].
pub ghost struct FileDescV {
    pub path_in_repo: Seq<u8>,
    pub platforms: Seq<PlatformV>,
}

impl View for FileDescriptor {
    type V = FileDescV;

    open spec fn view(&self) -> FileDescV {
        FileDescV { path_in_repo: self.path_in_repo@, platforms: self.platforms.deep_view() }
    }
}

impl DeepView for FileDescriptor {
    type V = FileDescV;

    open spec fn deep_view(&self) -> FileDescV {
        self@
    }
}

/// The whole mapping store, loaded fully into memory.
pub struct RepoConfig {
    pub files: Vec<FileDescriptor>,
}

/// Mathematical value of a [`RepoConfig`].
pub ghost struct RepoConfigV {
    pub files: Seq<FileDescV>,
}

impl View for RepoConfig {
    type V = RepoConfigV;

    open spec fn view(&self) -> RepoConfigV {
        RepoConfigV { files: self.files.deep_view() }
    }
}

impl Platform {
    pub fn new(name: Vec<u8>, path: Vec<u8>) -> (p: Platform)
        ensures
            p@ == (PlatformV { name: name@, path: path@, last_synced: None }),
    {
        Platform { name, path, last_synced: None }
    }
}

impl FileDescriptor {
    pub fn new(path_in_repo: Vec<u8>, platforms: Vec<Platform>) -> (f: FileDescriptor)
        ensures
            f@ == (FileDescV { path_in_repo: path_in_repo@, platforms: platforms.deep_view() }),
    {
        FileDescriptor { path_in_repo, platforms }
    }
}

/// Index of the first artifact whose repo path is `rp`, or `-1`.
pub open spec fn file_first_match(files: Seq<FileDescV>, rp: Seq<u8>) -> int
    decreases files.len(),
{
    if files.len() == 0 {
        -1
    } else if files[0].path_in_repo == rp {
        0
    } else if file_first_match(files.skip(1), rp) == -1 {
        -1
    } else {
        file_first_match(files.skip(1), rp) + 1
    }
}

/// Index of the first binding whose platform name is `pn`, or `-1`.
pub open spec fn platform_first_match(ps: Seq<PlatformV>, pn: Seq<u8>) -> int
    decreases ps.len(),
{
    if ps.len() == 0 {
        -1
    } else if ps[0].name == pn {
        0
    } else if platform_first_match(ps.skip(1), pn) == -1 {
        -1
    } else {
        platform_first_match(ps.skip(1), pn) + 1
    }
}

pub proof fn lemma_file_first_match(files: Seq<FileDescV>, rp: Seq<u8>)
    ensures
        file_first_match(files, rp) >= -1,
        file_first_match(files, rp) == -1 ==> forall|j: int|
            0 <= j < files.len() ==> files[j].path_in_repo != rp,
        file_first_match(files, rp) >= 0 ==> {
            &&& file_first_match(files, rp) < files.len()
            &&& files[file_first_match(files, rp)].path_in_repo == rp
            &&& forall|j: int| 0 <= j < file_first_match(files, rp) ==> files[j].path_in_repo != rp
        },
    decreases files.len(),
{
    if files.len() > 0 && files[0].path_in_repo != rp {
        let t = files.skip(1);
        lemma_file_first_match(t, rp);
        let m = file_first_match(files, rp);
        if m == -1 {
            assert forall|j: int| 0 <= j < files.len() implies files[j].path_in_repo != rp by {
                if j > 0 {
                    assert(t[j - 1] == files[j]);
                }
            }
        } else {
            assert(files[m] == t[m - 1]);
            assert forall|j: int| 0 <= j < m implies files[j].path_in_repo != rp by {
                if j > 0 {
                    assert(t[j - 1] == files[j]);
                }
            }
        }
    }
}

pub proof fn lemma_file_first_match_determined(files: Seq<FileDescV>, rp: Seq<u8>, k: int)
    requires
        0 <= k < files.len(),
        files[k].path_in_repo == rp,
        forall|j: int| 0 <= j < k ==> files[j].path_in_repo != rp,
    ensures
        file_first_match(files, rp) == k,
    decreases files.len(),
{
    if k > 0 {
        let t = files.skip(1);
        assert forall|j: int| 0 <= j < k - 1 implies t[j].path_in_repo != rp by {
            assert(t[j] == files[j + 1]);
        }
        assert(t[k - 1] == files[k]);
        lemma_file_first_match_determined(t, rp, k - 1);
    }
}

pub proof fn lemma_platform_first_match(ps: Seq<PlatformV>, pn: Seq<u8>)
    ensures
        platform_first_match(ps, pn) >= -1,
        platform_first_match(ps, pn) == -1 ==> forall|j: int|
            0 <= j < ps.len() ==> ps[j].name != pn,
        platform_first_match(ps, pn) >= 0 ==> {
            &&& platform_first_match(ps, pn) < ps.len()
            &&& ps[platform_first_match(ps, pn)].name == pn
            &&& forall|j: int| 0 <= j < platform_first_match(ps, pn) ==> ps[j].name != pn
        },
    decreases ps.len(),
{
    if ps.len() > 0 && ps[0].name != pn {
        let t = ps.skip(1);
        lemma_platform_first_match(t, pn);
        let m = platform_first_match(ps, pn);
        if m == -1 {
            assert forall|j: int| 0 <= j < ps.len() implies ps[j].name != pn by {
                if j > 0 {
                    assert(t[j - 1] == ps[j]);
                }
            }
        } else {
            assert(ps[m] == t[m - 1]);
            assert forall|j: int| 0 <= j < m implies ps[j].name != pn by {
                if j > 0 {
                    assert(t[j - 1] == ps[j]);
                }
            }
        }
    }
}

pub proof fn lemma_platform_first_match_determined(ps: Seq<PlatformV>, pn: Seq<u8>, k: int)
    requires
        0 <= k < ps.len(),
        ps[k].name == pn,
        forall|j: int| 0 <= j < k ==> ps[j].name != pn,
    ensures
        platform_first_match(ps, pn) == k,
    decreases ps.len(),
{
    if k > 0 {
        let t = ps.skip(1);
        assert forall|j: int| 0 <= j < k - 1 implies t[j].name != pn by {
            assert(t[j] == ps[j + 1]);
        }
        assert(t[k - 1] == ps[k]);
        lemma_platform_first_match_determined(t, pn, k - 1);
    }
}

/// The real path bound to (`rp`, `pn`), when the store has one.
pub open spec fn spec_lookup(files: Seq<FileDescV>, rp: Seq<u8>, pn: Seq<u8>) -> Option<Seq<u8>> {
    let k = file_first_match(files, rp);
    if k == -1 {
        None
    } else {
        let i = platform_first_match(files[k].platforms, pn);
        if i == -1 {
            None
        } else {
            Some(files[k].platforms[i].path)
        }
    }
}

/// The store after a successful `add_binding`: the binding joins the artifact
/// that already owns `rp`, or a fresh artifact is appended at the end.
pub open spec fn spec_add(files: Seq<FileDescV>, rp: Seq<u8>, pn: Seq<u8>, rpath: Seq<u8>) -> Seq<
    FileDescV,
> {
    let newp = PlatformV { name: pn, path: rpath, last_synced: None };
    let k = file_first_match(files, rp);
    if k == -1 {
        files.push(FileDescV { path_in_repo: rp, platforms: seq![newp] })
    } else {
        files.update(
            k,
            FileDescV { path_in_repo: files[k].path_in_repo, platforms: files[k].platforms.push(newp) },
        )
    }
}

/// The store after removing the artifact at `rp`; unchanged when absent.
pub open spec fn spec_remove(files: Seq<FileDescV>, rp: Seq<u8>) -> Seq<FileDescV> {
    let k = file_first_match(files, rp);
    if k == -1 {
        files
    } else {
        files.remove(k)
    }
}

/// The intended store invariant: repo paths are unique across artifacts,
/// platform names are unique within each artifact, and every repo path obeys
/// the repository policy.
pub open spec fn spec_store_wf(files: Seq<FileDescV>) -> bool {
    &&& forall|i: int, j: int|
        0 <= i < j < files.len() ==> files[i].path_in_repo != files[j].path_in_repo
    &&& forall|k: int, i: int, j: int|
        0 <= k < files.len() && 0 <= i < j < files[k].platforms.len()
            ==> files[k].platforms[i].name != files[k].platforms[j].name
    &&& forall|k: int| 0 <= k < files.len() ==> is_valid_repo_path(files[k].path_in_repo)
}

/// Byte-string equality.
pub fn bytes_eq(a: &Vec<u8>, b: &Vec<u8>) -> (r: bool)
    ensures
        r == (a@ == b@),
{
    if a.len() != b.len() {
        return false;
    }
    let mut i: usize = 0;
    while i < a.len()
        invariant
            a@.len() == b@.len(),
            i <= a@.len(),
            forall|j: int| 0 <= j < i ==> a@[j] == b@[j],
        decreases a@.len() - i,
    {
        if a[i] != b[i] {
            return false;
        }
        i = i + 1;
    }
    assert(a@ =~= b@);
    true
}

/// First artifact with this repo path, by index.
fn find_file_index(files: &Vec<FileDescriptor>, rp: &Vec<u8>) -> (r: Option<usize>)
    ensures
        match r {
            Some(k) => k < files@.len() && file_first_match(files.deep_view(), rp@) == k,
            None => file_first_match(files.deep_view(), rp@) == -1,
        },
{
    let mut i: usize = 0;
    while i < files.len()
        invariant
            i <= files@.len(),
            forall|j: int| 0 <= j < i ==> files.deep_view()[j].path_in_repo != rp@,
        decreases files@.len() - i,
    {
        if bytes_eq(&files[i].path_in_repo, rp) {
            proof {
                lemma_file_first_match_determined(files.deep_view(), rp@, i as int);
            }
            return Some(i);
        }
        i = i + 1;
    }
    proof {
        lemma_file_first_match(files.deep_view(), rp@);
        if file_first_match(files.deep_view(), rp@) >= 0 {
            assert(false);
        }
    }
    None
}

/// First binding with this platform name, by index.
fn find_platform_index(ps: &Vec<Platform>, pn: &Vec<u8>) -> (r: Option<usize>)
    ensures
        match r {
            Some(k) => k < ps@.len() && platform_first_match(ps.deep_view(), pn@) == k,
            None => platform_first_match(ps.deep_view(), pn@) == -1,
        },
{
    let mut i: usize = 0;
    while i < ps.len()
        invariant
            i <= ps@.len(),
            forall|j: int| 0 <= j < i ==> ps.deep_view()[j].name != pn@,
        decreases ps@.len() - i,
    {
        if bytes_eq(&ps[i].name, pn) {
            proof {
                lemma_platform_first_match_determined(ps.deep_view(), pn@, i as int);
            }
            return Some(i);
        }
        i = i + 1;
    }
    proof {
        lemma_platform_first_match(ps.deep_view(), pn@);
        if platform_first_match(ps.deep_view(), pn@) >= 0 {
            assert(false);
        }
    }
    None
}

impl RepoConfig {
    /// An empty store: no artifacts tracked yet.
    pub fn new_empty() -> (c: RepoConfig)
        ensures
            c@.files.len() == 0,
    {
        RepoConfig { files: Vec::new() }
    }

    /// Binds (`repo_path`, `platform_name`) to `real_path`.
    ///
    /// The repository policy is checked before anything else: an absolute or
    /// root-escaping `repo_path` is refused outright, so no caller doing I/O
    /// around this store ever sees such a path succeed.  A duplicate binding
    /// for the same repo path and platform is a conflict, never an overwrite.
    pub fn add_binding(
        &mut self,
        repo_path: Vec<u8>,
        platform_name: Vec<u8>,
        real_path: Vec<u8>,
    ) -> (r: Result<(), StoreError>)
        ensures
            !is_valid_repo_path(repo_path@) ==> r == Err::<(), StoreError>(StoreError::PathPolicy)
                && final(self)@ == old(self)@,
            is_valid_repo_path(repo_path@) && spec_lookup(
                old(self)@.files,
                repo_path@,
                platform_name@,
            ) is Some ==> r == Err::<(), StoreError>(StoreError::Conflict) && final(self)@ == old(
                self,
            )@,
            is_valid_repo_path(repo_path@) && spec_lookup(
                old(self)@.files,
                repo_path@,
                platform_name@,
            ) is None ==> r == Ok::<(), StoreError>(()) && final(self)@.files == spec_add(
                old(self)@.files,
                repo_path@,
                platform_name@,
                real_path@,
            ),
    {
        if !crate::paths::check_repo_path(&repo_path) {
            return Err(StoreError::PathPolicy);
        }
        let ghost pre = self@.files;
        match find_file_index(&self.files, &repo_path) {
            None => {
                let mut ps: Vec<Platform> = Vec::new();
                ps.push(Platform { name: platform_name, path: real_path, last_synced: None });
                let fd = FileDescriptor { path_in_repo: repo_path, platforms: ps };
                let ghost fdv = fd@;
                self.files.push(fd);
                proof {
                    assert(self@.files =~= pre.push(fdv));
                    assert(fdv.platforms =~= seq![
                        PlatformV { name: platform_name@, path: real_path@, last_synced: None },
                    ]);
                    assert(self@.files =~= spec_add(pre, repo_path@, platform_name@, real_path@));
                }
                Ok(())
            },
            Some(k) => {
                match find_platform_index(&self.files[k].platforms, &platform_name) {
                    Some(_) => Err(StoreError::Conflict),
                    None => {
                        let mut fd = self.files.remove(k);
                        fd.platforms.push(
                            Platform { name: platform_name, path: real_path, last_synced: None },
                        );
                        let ghost fdv = fd@;
                        self.files.insert(k, fd);
                        proof {
                            let newp = PlatformV {
                                name: platform_name@,
                                path: real_path@,
                                last_synced: None,
                            };
                            assert(fdv.platforms =~= pre[k as int].platforms.push(newp));
                            assert(fdv == FileDescV {
                                path_in_repo: pre[k as int].path_in_repo,
                                platforms: pre[k as int].platforms.push(newp),
                            });
                            assert(self@.files =~= pre.update(
                                k as int,
                                FileDescV {
                                    path_in_repo: pre[k as int].path_in_repo,
                                    platforms: pre[k as int].platforms.push(newp),
                                },
                            ));
                        }
                        Ok(())
                    },
                }
            },
        }
    }

    /// Removes the artifact tracked at `repo_path`.
    pub fn remove_file_desc_by_path(&mut self, repo_path: &Vec<u8>) -> (r: Result<
        (),
        StoreError,
    >)
        ensures
            file_first_match(old(self)@.files, repo_path@) == -1 ==> r == Err::<(), StoreError>(
                StoreError::NotFound,
            ) && final(self)@ == old(self)@,
            file_first_match(old(self)@.files, repo_path@) >= 0 ==> r == Ok::<(), StoreError>(())
                && final(self)@.files == spec_remove(old(self)@.files, repo_path@),
    {
        match find_file_index(&self.files, repo_path) {
            None => Err(StoreError::NotFound),
            Some(k) => {
                let ghost pre = self@.files;
                let _ = self.files.remove(k);
                proof {
                    assert(self@.files =~= pre.remove(k as int));
                }
                Ok(())
            },
        }
    }

    /// The untrack entry point: same operation as
    /// [`RepoConfig::remove_file_desc_by_path`]; loading and saving the store
    /// stand with the caller.
    pub fn remove_file_from_repo_config(&mut self, path_in_repo: &Vec<u8>) -> (r: Result<
        (),
        StoreError,
    >)
        ensures
            file_first_match(old(self)@.files, path_in_repo@) == -1 ==> r == Err::<(), StoreError>(
                StoreError::NotFound,
            ) && final(self)@ == old(self)@,
            file_first_match(old(self)@.files, path_in_repo@) >= 0 ==> r == Ok::<(), StoreError>(
                (),
            ) && final(self)@.files == spec_remove(old(self)@.files, path_in_repo@),
    {
        self.remove_file_desc_by_path(path_in_repo)
    }

    /// Appends an artifact as given, with no policy or conflict check; the
    /// primitive under the initial-store builder.  Callers that accept user
    /// input go through [`RepoConfig::add_binding`] instead.
    pub fn append_file(&mut self, file_desc: FileDescriptor)
        ensures
            final(self)@.files == old(self)@.files.push(file_desc@),
    {
        let ghost pre = self@.files;
        let ghost fdv = file_desc@;
        self.files.push(file_desc);
        proof {
            assert(self@.files =~= pre.push(fdv));
        }
    }

    /// The track entry point: binds
    /// (`path_in_repo`, `platform`) to `path_to_file`, with the same policy
    /// and conflict rules as [`RepoConfig::add_binding`]; loading and saving
    /// the store stand with the caller.
    pub fn append_new_file_desc_to_repo_config(
        &mut self,
        platform: Vec<u8>,
        path_to_file: Vec<u8>,
        path_in_repo: Vec<u8>,
    ) -> (r: Result<(), StoreError>)
        ensures
            !is_valid_repo_path(path_in_repo@) ==> r == Err::<(), StoreError>(
                StoreError::PathPolicy,
            ) && final(self)@ == old(self)@,
            is_valid_repo_path(path_in_repo@) && spec_lookup(
                old(self)@.files,
                path_in_repo@,
                platform@,
            ) is Some ==> r == Err::<(), StoreError>(StoreError::Conflict) && final(self)@ == old(
                self,
            )@,
            is_valid_repo_path(path_in_repo@) && spec_lookup(
                old(self)@.files,
                path_in_repo@,
                platform@,
            ) is None ==> r == Ok::<(), StoreError>(()) && final(self)@.files == spec_add(
                old(self)@.files,
                path_in_repo@,
                platform@,
                path_to_file@,
            ),
    {
        self.add_binding(path_in_repo, platform, path_to_file)
    }
}

/// The (real path, repo path) pairs that matter on `plat`, in store order.
/// An artifact without a binding for `plat` is skipped: artifacts may be
/// platform-specific by design.
pub open spec fn spec_resolve(files: Seq<FileDescV>, plat: Seq<u8>) -> Seq<(Seq<u8>, Seq<u8>)>
    decreases files.len(),
{
    if files.len() == 0 {
        Seq::empty()
    } else {
        let rest = spec_resolve(files.skip(1), plat);
        let i = platform_first_match(files[0].platforms, plat);
        if i == -1 {
            rest
        } else {
            seq![(files[0].platforms[i].path, files[0].path_in_repo)] + rest
        }
    }
}

/// The mathematical pairs behind a vector of byte-string pairs.
pub open spec fn pairs_view(s: Seq<(Vec<u8>, Vec<u8>)>) -> Seq<(Seq<u8>, Seq<u8>)> {
    Seq::new(s.len(), |i: int| (s[i].0@, s[i].1@))
}

impl RepoConfig {
    /// Resolves the store against the current platform: for every artifact
    /// with a binding for `curr_platform`, the pair (real path, repo path),
    /// in store order, so that commit messages and logs are reproducible.
    pub fn get_src_dst_all_files(&self, curr_platform: &Vec<u8>) -> (r: Vec<(Vec<u8>, Vec<u8>)>)
        ensures
            pairs_view(r@) == spec_resolve(self@.files, curr_platform@),
    {
        let ghost fv = self@.files;
        let mut r: Vec<(Vec<u8>, Vec<u8>)> = Vec::new();
        let mut i: usize = 0;
        proof {
            assert(fv.skip(0) =~= fv);
            assert(pairs_view(r@) + spec_resolve(fv, curr_platform@) =~= spec_resolve(
                fv,
                curr_platform@,
            ));
        }
        while i < self.files.len()
            invariant
                i <= fv.len(),
                fv == self@.files,
                spec_resolve(fv, curr_platform@) == pairs_view(r@) + spec_resolve(
                    fv.skip(i as int),
                    curr_platform@,
                ),
            decreases fv.len() - i,
        {
            let ghost pre = r@;
            let fd = &self.files[i];
            proof {
                assert(fv.skip(i as int)[0] == fv[i as int]);
                assert(fv.skip(i as int).skip(1) =~= fv.skip(i as int + 1));
            }
            match find_platform_index(&fd.platforms, curr_platform) {
                None => (),
                Some(p) => {
                    let pair = (clone_bytes(&fd.platforms[p].path), clone_bytes(&fd.path_in_repo));
                    r.push(pair);
                    proof {
                        assert(pairs_view(r@) =~= pairs_view(pre) + seq![
                            (fv[i as int].platforms[platform_first_match(
                                fv[i as int].platforms,
                                curr_platform@,
                            )].path, fv[i as int].path_in_repo),
                        ]);
                    }
                },
            }
            i = i + 1;
            proof {
                assert(spec_resolve(fv, curr_platform@) =~= pairs_view(r@) + spec_resolve(
                    fv.skip(i as int),
                    curr_platform@,
                ));
            }
        }
        proof {
            assert(fv.skip(fv.len() as int) =~= Seq::<FileDescV>::empty());
            assert(pairs_view(r@) =~= pairs_view(r@) + spec_resolve(
                fv.skip(fv.len() as int),
                curr_platform@,
            ));
        }
        r
    }
}

/// Pair `pr` is what artifact `k` of the store contributes on `plat`: the
/// artifact's first binding for `plat` is present, and `pr` is (that
/// binding's real path, the artifact's repo path).
pub open spec fn resolved_pair_from(
    files: Seq<FileDescV>,
    plat: Seq<u8>,
    pr: (Seq<u8>, Seq<u8>),
    k: int,
) -> bool {
    &&& 0 <= k < files.len()
    &&& platform_first_match(files[k].platforms, plat) >= 0
    &&& files[k].platforms[platform_first_match(files[k].platforms, plat)].name == plat
    &&& pr == (files[k].platforms[platform_first_match(files[k].platforms, plat)].path,
    files[k].path_in_repo)
}

/// Every pair the resolver returns comes from an artifact whose binding for
/// the platform is present: the resolver never invents a pair for an
/// artifact whose current-platform binding is absent.  Stated for each
/// position `i` of the resolved list.
pub proof fn lemma_resolve_sound(files: Seq<FileDescV>, plat: Seq<u8>, i: int)
    requires
        0 <= i < spec_resolve(files, plat).len(),
    ensures
        exists|k: int| resolved_pair_from(files, plat, spec_resolve(files, plat)[i], k),
    decreases files.len(),
{
    lemma_platform_first_match(files[0].platforms, plat);
    let m = platform_first_match(files[0].platforms, plat);
    let t = files.skip(1);
    let rest = spec_resolve(t, plat);
    if m >= 0 && i == 0 {
        assert(resolved_pair_from(files, plat, spec_resolve(files, plat)[0], 0));
    } else {
        let shift: int = if m == -1 {
            0
        } else {
            1
        };
        let ti = i - shift;
        assert(spec_resolve(files, plat)[i] == rest[ti]);
        lemma_resolve_sound(t, plat, ti);
        let k0: int = choose|k0: int| resolved_pair_from(t, plat, rest[ti], k0);
        assert(t[k0] == files[k0 + 1]);
        assert(resolved_pair_from(files, plat, spec_resolve(files, plat)[i], k0 + 1));
    }
}

/// A copy of a byte string.
pub fn clone_bytes(v: &Vec<u8>) -> (r: Vec<u8>)
    ensures
        r@ == v@,
{
    let mut r: Vec<u8> = Vec::new();
    let mut i: usize = 0;
    while i < v.len()
        invariant
            i <= v@.len(),
            r@ =~= v@.subrange(0, i as int),
        decreases v@.len() - i,
    {
        r.push(v[i]);
        i = i + 1;
    }
    assert(r@ =~= v@);
    r
}

/// After a successful `add_binding`, looking the pair up returns exactly the
/// real path that was bound: the store half of the add-then-load round trip.
pub proof fn lemma_add_binding_lookup(
    files: Seq<FileDescV>,
    rp: Seq<u8>,
    pn: Seq<u8>,
    rpath: Seq<u8>,
)
    requires
        spec_lookup(files, rp, pn) is None,
    ensures
        spec_lookup(spec_add(files, rp, pn, rpath), rp, pn) == Some(rpath),
{
    let newp = PlatformV { name: pn, path: rpath, last_synced: None };
    let k = file_first_match(files, rp);
    lemma_file_first_match(files, rp);
    let files2 = spec_add(files, rp, pn, rpath);
    if k == -1 {
        assert forall|j: int| 0 <= j < files.len() implies files2[j].path_in_repo != rp by {
            assert(files2[j] == files[j]);
        }
        lemma_file_first_match_determined(files2, rp, files.len() as int);
        let ps = seq![newp];
        lemma_platform_first_match_determined(ps, pn, 0);
        assert(spec_lookup(files2, rp, pn) == Some(rpath));
    } else {
        let ps = files[k].platforms;
        lemma_platform_first_match(ps, pn);
        assert(platform_first_match(ps, pn) == -1);
        assert forall|j: int| 0 <= j < k implies files2[j].path_in_repo != rp by {
            assert(files2[j] == files[j]);
        }
        lemma_file_first_match_determined(files2, rp, k);
        let ps2 = files2[k].platforms;
        assert(ps2 == ps.push(newp));
        assert forall|j: int| 0 <= j < ps.len() implies ps2[j].name != pn by {
            assert(ps2[j] == ps[j]);
        }
        assert(ps2[ps.len() as int] == newp);
        lemma_platform_first_match_determined(ps2, pn, ps.len() as int);
        assert(spec_lookup(files2, rp, pn) == Some(rpath));
    }
}


/// The bytes of `repo_config.json`.
pub open spec fn spec_repo_config_file() -> Seq<u8> {
    seq!['r' as u8, 'e' as u8, 'p' as u8, 'o' as u8, '_' as u8, 'c' as u8, 'o' as u8, 'n' as u8, 'f' as u8, 'i' as u8, 'g' as u8, '.' as u8, 'j' as u8, 's' as u8, 'o' as u8, 'n' as u8]
}

/// The bytes of `repo_config.json`.
pub fn repo_config_file() -> (v: Vec<u8>)
    ensures
        v@ == spec_repo_config_file(),
{
    let mut v: Vec<u8> = Vec::new();
    v.push('r' as u8);
    v.push('e' as u8);
    v.push('p' as u8);
    v.push('o' as u8);
    v.push('_' as u8);
    v.push('c' as u8);
    v.push('o' as u8);
    v.push('n' as u8);
    v.push('f' as u8);
    v.push('i' as u8);
    v.push('g' as u8);
    v.push('.' as u8);
    v.push('j' as u8);
    v.push('s' as u8);
    v.push('o' as u8);
    v.push('n' as u8);
    assert(v@ =~= spec_repo_config_file());
    v
}

/// The bytes of `.sggit.json`.
pub open spec fn spec_sggit_config_name() -> Seq<u8> {
    seq!['.' as u8, 's' as u8, 'g' as u8, 'g' as u8, 'i' as u8, 't' as u8, '.' as u8, 'j' as u8, 's' as u8, 'o' as u8, 'n' as u8]
}

/// The bytes of `.sggit.json`.
pub fn sggit_config_name() -> (v: Vec<u8>)
    ensures
        v@ == spec_sggit_config_name(),
{
    let mut v: Vec<u8> = Vec::new();
    v.push('.' as u8);
    v.push('s' as u8);
    v.push('g' as u8);
    v.push('g' as u8);
    v.push('i' as u8);
    v.push('t' as u8);
    v.push('.' as u8);
    v.push('j' as u8);
    v.push('s' as u8);
    v.push('o' as u8);
    v.push('n' as u8);
    assert(v@ =~= spec_sggit_config_name());
    v
}

/// The bytes of `_only`.
pub open spec fn spec_only_dir_suffix() -> Seq<u8> {
    seq!['_' as u8, 'o' as u8, 'n' as u8, 'l' as u8, 'y' as u8]
}

/// The bytes of `_only`.
pub fn only_dir_suffix() -> (v: Vec<u8>)
    ensures
        v@ == spec_only_dir_suffix(),
{
    let mut v: Vec<u8> = Vec::new();
    v.push('_' as u8);
    v.push('o' as u8);
    v.push('n' as u8);
    v.push('l' as u8);
    v.push('y' as u8);
    assert(v@ =~= spec_only_dir_suffix());
    v
}

/// The bytes of `_only/sggit.json`.
pub open spec fn spec_only_file_suffix() -> Seq<u8> {
    seq!['_' as u8, 'o' as u8, 'n' as u8, 'l' as u8, 'y' as u8, '/' as u8, 's' as u8, 'g' as u8, 'g' as u8, 'i' as u8, 't' as u8, '.' as u8, 'j' as u8, 's' as u8, 'o' as u8, 'n' as u8]
}

/// The bytes of `_only/sggit.json`.
pub fn only_file_suffix() -> (v: Vec<u8>)
    ensures
        v@ == spec_only_file_suffix(),
{
    let mut v: Vec<u8> = Vec::new();
    v.push('_' as u8);
    v.push('o' as u8);
    v.push('n' as u8);
    v.push('l' as u8);
    v.push('y' as u8);
    v.push('/' as u8);
    v.push('s' as u8);
    v.push('g' as u8);
    v.push('g' as u8);
    v.push('i' as u8);
    v.push('t' as u8);
    v.push('.' as u8);
    v.push('j' as u8);
    v.push('s' as u8);
    v.push('o' as u8);
    v.push('n' as u8);
    assert(v@ =~= spec_only_file_suffix());
    v
}

/// The directory (inside the repository) that holds platform-specific
/// files for `platform`.
pub fn platform_only_dir(platform: &Vec<u8>) -> (v: Vec<u8>)
    ensures
        v@ == platform@ + spec_only_dir_suffix(),
{
    let mut v = clone_bytes(platform);
    let sfx = only_dir_suffix();
    v.extend_from_slice(sfx.as_slice());
    assert(v@ =~= platform@ + spec_only_dir_suffix());
    v
}

/// The initial store of a fresh repository: the settings file and the
/// mapping file itself, both tracked for the platform that created them.
pub open spec fn spec_initial_repo_config(
    platform: Seq<u8>,
    repo_path: Seq<u8>,
    sggit_path: Seq<u8>,
) -> Seq<FileDescV> {
    seq![
        FileDescV {
            path_in_repo: platform + spec_only_file_suffix(),
            platforms: seq![PlatformV { name: platform, path: sggit_path, last_synced: None }],
        },
        FileDescV {
            path_in_repo: spec_repo_config_file(),
            platforms: seq![
                PlatformV {
                    name: platform,
                    path: crate::paths::spec_path_join(repo_path, spec_repo_config_file()),
                    last_synced: None,
                },
            ],
        },
    ]
}

impl RepoConfig {
    /// Builds the initial store for a fresh repository.  `sggit_path` is the
    /// absolute path of this machine's settings file; the caller creates the
    /// platform directory and saves the store.
    pub fn create_initial_repo_config(
        platform_config: &crate::platform_setting::PlatformConfig,
        sggit_path: &Vec<u8>,
    ) -> (c: RepoConfig)
        ensures
            c@.files == spec_initial_repo_config(
                platform_config@.platform,
                platform_config@.repo_path,
                sggit_path@,
            ),
    {
        let mut path1 = clone_bytes(platform_config.get_platform());
        let sfx = only_file_suffix();
        path1.extend_from_slice(sfx.as_slice());
        assert(path1@ =~= platform_config@.platform + spec_only_file_suffix());
        let p1 = Platform::new(clone_bytes(platform_config.get_platform()), clone_bytes(sggit_path));
        let mut ps1: Vec<Platform> = Vec::new();
        ps1.push(p1);
        let fd1 = FileDescriptor { path_in_repo: path1, platforms: ps1 };
        let ghost fd1v = fd1@;

        let path2 = repo_config_file();
        let joined = crate::paths::path_join(platform_config.get_repo_path(), &path2);
        let p2 = Platform::new(clone_bytes(platform_config.get_platform()), joined);
        let mut ps2: Vec<Platform> = Vec::new();
        ps2.push(p2);
        let fd2 = FileDescriptor { path_in_repo: repo_config_file(), platforms: ps2 };
        let ghost fd2v = fd2@;

        let mut files: Vec<FileDescriptor> = Vec::new();
        files.push(fd1);
        files.push(fd2);
        let c = RepoConfig { files };
        proof {
            let want = spec_initial_repo_config(
                platform_config@.platform,
                platform_config@.repo_path,
                sggit_path@,
            );
            assert(fd1v.platforms =~= want[0].platforms);
            assert(fd1v == want[0]);
            assert(fd2v.platforms =~= want[1].platforms);
            assert(fd2v == want[1]);
            assert(c@.files =~= want);
        }
        c
    }

    /// Tracks a real file under its file name, as the `add` command does:
    /// the repo-relative path is the file name of `remote_path` (trailing
    /// `/`s ignored, then the bytes after the last `/`), and the binding is
    /// added under the same policy and conflict rules as
    /// [`RepoConfig::add_binding`].  Returns the derived repo path.
    pub fn add_file(&mut self, platform: Vec<u8>, remote_path: Vec<u8>) -> (r: Result<
        Vec<u8>,
        StoreError,
    >)
        ensures
            !is_valid_repo_path(crate::paths::spec_file_name(remote_path@)) ==> r == Err::<
                Vec<u8>,
                StoreError,
            >(StoreError::PathPolicy) && final(self)@ == old(self)@,
            is_valid_repo_path(crate::paths::spec_file_name(remote_path@)) && spec_lookup(
                old(self)@.files,
                crate::paths::spec_file_name(remote_path@),
                platform@,
            ) is Some ==> r == Err::<Vec<u8>, StoreError>(StoreError::Conflict) && final(self)@
                == old(self)@,
            is_valid_repo_path(crate::paths::spec_file_name(remote_path@)) && spec_lookup(
                old(self)@.files,
                crate::paths::spec_file_name(remote_path@),
                platform@,
            ) is None ==> (r matches Ok(name) && name@ == crate::paths::spec_file_name(
                remote_path@,
            ) && final(self)@.files == spec_add(
                old(self)@.files,
                crate::paths::spec_file_name(remote_path@),
                platform@,
                remote_path@,
            )),
    {
        let name = crate::paths::file_name(&remote_path);
        let returned = clone_bytes(&name);
        match self.add_binding(name, platform, remote_path) {
            Ok(()) => Ok(returned),
            Err(e) => Err(e),
        }
    }

    /// Records on the (`repo_path`, `platform`) binding that an outward sync
    /// just completed, at the clock's current time; observability only.  A
    /// missing artifact or binding leaves the store unchanged.
    pub fn stamp_last_synced(&mut self, repo_path: &Vec<u8>, platform: &Vec<u8>) -> (t: u64)
        ensures
            final(self)@.files == spec_stamp(old(self)@.files, repo_path@, platform@, t),
    {
        let t = crate::timefmt::now_utc_secs();
        let ghost pre = self@.files;
        let k = match find_file_index(&self.files, repo_path) {
            None => {
                return t;
            },
            Some(k) => k,
        };
        let mut fd = self.files.remove(k);
        let i = match find_platform_index(&fd.platforms, platform) {
            None => {
                self.files.insert(k, fd);
                proof {
                    assert(self@.files =~= pre);
                }
                return t;
            },
            Some(i) => i,
        };
        let mut p = fd.platforms.remove(i);
        p.last_synced = Some(t);
        let ghost pv = p@;
        fd.platforms.insert(i, p);
        let ghost fdv = fd@;
        self.files.insert(k, fd);
        proof {
            assert(fdv.platforms =~= pre[k as int].platforms.update(i as int, pv));
            assert(fdv == FileDescV {
                path_in_repo: pre[k as int].path_in_repo,
                platforms: pre[k as int].platforms.update(
                    i as int,
                    PlatformV {
                        name: pre[k as int].platforms[i as int].name,
                        path: pre[k as int].platforms[i as int].path,
                        last_synced: Some(t),
                    },
                ),
            });
            assert(self@.files =~= pre.update(k as int, fdv));
            assert(self@.files =~= spec_stamp(pre, repo_path@, platform@, t));
        }
        t
    }
}

/// The store after stamping `last_synced` on the (`rp`, `pn`) binding with
/// time `t`; unchanged when the artifact or the binding is absent.
pub open spec fn spec_stamp(files: Seq<FileDescV>, rp: Seq<u8>, pn: Seq<u8>, t: u64) -> Seq<
    FileDescV,
> {
    let k = file_first_match(files, rp);
    if k == -1 {
        files
    } else {
        let i = platform_first_match(files[k].platforms, pn);
        if i == -1 {
            files
        } else {
            files.update(
                k,
                FileDescV {
                    path_in_repo: files[k].path_in_repo,
                    platforms: files[k].platforms.update(
                        i,
                        PlatformV {
                            name: files[k].platforms[i].name,
                            path: files[k].platforms[i].path,
                            last_synced: Some(t),
                        },
                    ),
                },
            )
        }
    }
}


/// `add_binding` preserves the store invariant: repo paths stay unique
/// across artifacts, platform names stay unique within each artifact, and
/// every repo path still obeys the repository policy.
pub proof fn lemma_add_binding_preserves_wf(
    files: Seq<FileDescV>,
    rp: Seq<u8>,
    pn: Seq<u8>,
    rpath: Seq<u8>,
)
    requires
        spec_store_wf(files),
        is_valid_repo_path(rp),
        spec_lookup(files, rp, pn) is None,
    ensures
        spec_store_wf(spec_add(files, rp, pn, rpath)),
{
    let newp = PlatformV { name: pn, path: rpath, last_synced: None };
    let k = file_first_match(files, rp);
    lemma_file_first_match(files, rp);
    let files2 = spec_add(files, rp, pn, rpath);
    if k == -1 {
        assert forall|i: int, j: int|
            0 <= i < j < files2.len() implies files2[i].path_in_repo
            != files2[j].path_in_repo by {
            if j < files.len() {
                assert(files2[i] == files[i] && files2[j] == files[j]);
            } else {
                assert(files2[i] == files[i]);
                assert(files2[j].path_in_repo == rp);
            }
        }
        assert forall|m: int, i: int, j: int|
            0 <= m < files2.len() && 0 <= i < j < files2[m].platforms.len() implies files2[m].platforms[i].name
            != files2[m].platforms[j].name by {
            if m < files.len() {
                assert(files2[m] == files[m]);
            } else {
                assert(files2[m].platforms.len() == 1);
            }
        }
        assert forall|m: int| 0 <= m < files2.len() implies is_valid_repo_path(
            files2[m].path_in_repo,
        ) by {
            if m < files.len() {
                assert(files2[m] == files[m]);
            }
        }
    } else {
        let ps = files[k].platforms;
        lemma_platform_first_match(ps, pn);
        assert(platform_first_match(ps, pn) == -1);
        assert forall|i: int, j: int|
            0 <= i < j < files2.len() implies files2[i].path_in_repo
            != files2[j].path_in_repo by {
            assert(files2[i].path_in_repo == files[i].path_in_repo);
            assert(files2[j].path_in_repo == files[j].path_in_repo);
        }
        assert forall|m: int, i: int, j: int|
            0 <= m < files2.len() && 0 <= i < j < files2[m].platforms.len() implies files2[m].platforms[i].name
            != files2[m].platforms[j].name by {
            if m != k {
                assert(files2[m] == files[m]);
            } else {
                let ps2 = files2[k].platforms;
                assert(ps2 == ps.push(newp));
                if j < ps.len() {
                    assert(ps2[i] == ps[i] && ps2[j] == ps[j]);
                } else {
                    assert(ps2[i] == ps[i]);
                    assert(ps2[j] == newp);
                    assert(ps[i].name != pn);
                }
            }
        }
        assert forall|m: int| 0 <= m < files2.len() implies is_valid_repo_path(
            files2[m].path_in_repo,
        ) by {
            assert(files2[m].path_in_repo == files[m].path_in_repo);
        }
    }
}

/// Removing an artifact preserves the store invariant.
pub proof fn lemma_remove_preserves_wf(files: Seq<FileDescV>, rp: Seq<u8>)
    requires
        spec_store_wf(files),
    ensures
        spec_store_wf(spec_remove(files, rp)),
{
    let k = file_first_match(files, rp);
    lemma_file_first_match(files, rp);
    if k >= 0 {
        let files2 = files.remove(k);
        assert forall|i: int, j: int|
            0 <= i < j < files2.len() implies files2[i].path_in_repo
            != files2[j].path_in_repo by {
            let i0: int = if i < k {
                i
            } else {
                i + 1
            };
            let j0: int = if j < k {
                j
            } else {
                j + 1
            };
            assert(files2[i] == files[i0] && files2[j] == files[j0]);
        }
        assert forall|m: int, i: int, j: int|
            0 <= m < files2.len() && 0 <= i < j < files2[m].platforms.len() implies files2[m].platforms[i].name
            != files2[m].platforms[j].name by {
            let m0: int = if m < k {
                m
            } else {
                m + 1
            };
            assert(files2[m] == files[m0]);
        }
        assert forall|m: int| 0 <= m < files2.len() implies is_valid_repo_path(
            files2[m].path_in_repo,
        ) by {
            let m0: int = if m < k {
                m
            } else {
                m + 1
            };
            assert(files2[m] == files[m0]);
        }
    }
}

/// Stamping `last_synced` preserves the store invariant: it changes no path
/// and no name.
pub proof fn lemma_stamp_preserves_wf(files: Seq<FileDescV>, rp: Seq<u8>, pn: Seq<u8>, t: u64)
    requires
        spec_store_wf(files),
    ensures
        spec_store_wf(spec_stamp(files, rp, pn, t)),
{
    let k = file_first_match(files, rp);
    lemma_file_first_match(files, rp);
    if k >= 0 {
        let i = platform_first_match(files[k].platforms, pn);
        lemma_platform_first_match(files[k].platforms, pn);
        if i >= 0 {
            let files2 = spec_stamp(files, rp, pn, t);
            assert forall|a: int, b: int|
                0 <= a < b < files2.len() implies files2[a].path_in_repo
                != files2[b].path_in_repo by {
                assert(files2[a].path_in_repo == files[a].path_in_repo);
                assert(files2[b].path_in_repo == files[b].path_in_repo);
            }
            assert forall|m: int, a: int, b: int|
                0 <= m < files2.len() && 0 <= a < b < files2[m].platforms.len() implies files2[m].platforms[a].name
                != files2[m].platforms[b].name by {
                if m != k {
                    assert(files2[m] == files[m]);
                } else {
                    assert(files2[k].platforms[a].name == files[k].platforms[a].name);
                    assert(files2[k].platforms[b].name == files[k].platforms[b].name);
                }
            }
            assert forall|m: int| 0 <= m < files2.len() implies is_valid_repo_path(
                files2[m].path_in_repo,
            ) by {
                assert(files2[m].path_in_repo == files[m].path_in_repo);
            }
        }
    }
}

} // verus!
