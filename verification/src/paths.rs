//! Byte-string path helpers.
//!
//! Paths are byte strings with `/` as the separator.  The repository policy
//! lives here: a repo-relative path may never be absolute and may never
//! traverse above the repository root, so that joining it to the root always
//! lands strictly inside the repository.

use vstd::prelude::*;

verus! {

/// Joins a repository root and a repo-relative path with a single `/`.
/// An absolute `rel` wins outright, as it does for `std::path::PathBuf`.
pub open spec fn spec_path_join(root: Seq<u8>, rel: Seq<u8>) -> Seq<u8> {
    if rel.len() > 0 && rel[0] == '/' as u8 {
        rel
    } else {
        root + seq!['/' as u8] + rel
    }
}

/// Resolves where a repo-relative path lives on disk, given the repo root.
pub fn path_join(root: &Vec<u8>, rel: &Vec<u8>) -> (out: Vec<u8>)
    ensures
        out@ == spec_path_join(root@, rel@),
{
    if rel.len() > 0 && rel[0] == '/' as u8 {
        let out = rel.clone();
        assert(out@ =~= spec_path_join(root@, rel@));
        out
    } else {
        let mut out = root.clone();
        out.push('/' as u8);
        out.extend_from_slice(rel.as_slice());
        assert(out@ =~= spec_path_join(root@, rel@));
        out
    }
}

/// How one path component moves the depth of the walk below the repo root:
/// `..` climbs out of a directory, `.` and the empty component (doubled or
/// trailing slashes) stay put, anything else descends into one.
pub open spec fn component_depth_delta(comp: Seq<u8>) -> int {
    if comp.len() == 0 {
        0
    } else if comp == seq!['.' as u8] {
        0
    } else if comp == seq!['.' as u8, '.' as u8] {
        -1
    } else {
        1
    }
}

/// Walks the components of `s` from byte `i`, with `depth` directories
/// entered so far and `comp` the bytes of the component being read.  Holds
/// when the walk never climbs above the root and ends strictly inside it.
pub open spec fn repo_path_ok_from(s: Seq<u8>, i: int, depth: int, comp: Seq<u8>) -> bool
    decreases s.len() - i,
{
    if i < 0 || i > s.len() {
        false
    } else if i == s.len() {
        depth + component_depth_delta(comp) >= 1
    } else if s[i] == '/' as u8 {
        depth + component_depth_delta(comp) >= 0 && repo_path_ok_from(
            s,
            i + 1,
            depth + component_depth_delta(comp),
            Seq::empty(),
        )
    } else {
        repo_path_ok_from(s, i + 1, depth, comp.push(s[i]))
    }
}

/// The repository policy for a repo-relative path: non-empty, not absolute,
/// and no `..` traversal that would reach or escape the repository root.
pub open spec fn is_valid_repo_path(p: Seq<u8>) -> bool {
    &&& p.len() > 0
    &&& p[0] != '/' as u8
    &&& repo_path_ok_from(p, 0, 0, Seq::empty())
}

/// Depth change of the component held in `p[start..end]`, classified without
/// building the component.
fn window_depth_delta(p: &Vec<u8>, start: usize, end: usize) -> (d: i64)
    requires
        start <= end <= p@.len(),
    ensures
        d == component_depth_delta(p@.subrange(start as int, end as int)),
        -1 <= d <= 1,
{
    let ghost comp = p@.subrange(start as int, end as int);
    proof {
        assert(comp.len() == end - start);
        if comp.len() >= 1 {
            assert(comp[0] == p@[start as int]);
        }
        if comp.len() >= 2 {
            assert(comp[1] == p@[start as int + 1]);
        }
    }
    let len = end - start;
    if len == 0 {
        0
    } else if len == 1 && p[start] == '.' as u8 {
        assert(comp =~= seq!['.' as u8]);
        0
    } else if len == 2 && p[start] == '.' as u8 && p[start + 1] == '.' as u8 {
        assert(comp =~= seq!['.' as u8, '.' as u8]);
        -1
    } else {
        assert(comp != seq!['.' as u8] && comp != seq!['.' as u8, '.' as u8] && comp.len() > 0);
        1
    }
}

/// Decides the repository policy for a repo-relative path.
pub fn check_repo_path(p: &Vec<u8>) -> (ok: bool)
    ensures
        ok == is_valid_repo_path(p@),
{
    if p.len() == 0 {
        return false;
    }
    if p[0] == '/' as u8 {
        return false;
    }
    let mut i: usize = 0;
    let mut start: usize = 0;
    let mut depth: usize = 0;
    assert(p@.subrange(0, 0) =~= Seq::<u8>::empty());
    while i < p.len()
        invariant
            start <= i <= p@.len(),
            depth <= i,
            repo_path_ok_from(p@, 0, 0, Seq::empty()) == repo_path_ok_from(
                p@,
                i as int,
                depth as int,
                p@.subrange(start as int, i as int),
            ),
        decreases p@.len() - i,
    {
        if p[i] == '/' as u8 {
            let d = window_depth_delta(p, start, i);
            if d < 0 {
                if depth == 0 {
                    return false;
                }
                depth = depth - 1;
            } else if d == 1 {
                depth = depth + 1;
            }
            start = i + 1;
            i = i + 1;
            assert(Seq::<u8>::empty() =~= p@.subrange(start as int, i as int));
        } else {
            i = i + 1;
            assert(p@.subrange(start as int, i as int) =~= p@.subrange(
                start as int,
                i as int - 1,
            ).push(p@[i - 1]));
        }
    }
    let d = window_depth_delta(p, start, i);
    if d < 0 {
        depth >= 2
    } else if d == 0 {
        depth >= 1
    } else {
        true
    }
}

/// Index of the last `/` in `p`, or `-1` when there is none.
pub open spec fn last_slash(p: Seq<u8>) -> int
    decreases p.len(),
{
    if p.len() == 0 {
        -1
    } else if p[p.len() - 1] == '/' as u8 {
        p.len() - 1
    } else {
        last_slash(p.drop_last())
    }
}

pub proof fn lemma_last_slash(p: Seq<u8>)
    ensures
        -1 <= last_slash(p) < p.len(),
        last_slash(p) >= 0 ==> p[last_slash(p)] == '/' as u8,
        forall|j: int| last_slash(p) < j < p.len() ==> p[j] != '/' as u8,
    decreases p.len(),
{
    if p.len() > 0 && p[p.len() - 1] != '/' as u8 {
        lemma_last_slash(p.drop_last());
        assert forall|j: int| last_slash(p) < j < p.len() implies p[j] != '/' as u8 by {
            if j < p.len() - 1 {
                assert(p.drop_last()[j] == p[j]);
            }
        }
    }
}

/// The bytes after the last `/`; the whole path when there is none.
pub open spec fn spec_basename(p: Seq<u8>) -> Seq<u8> {
    p.subrange(last_slash(p) + 1, p.len() as int)
}

/// The directory part of `p`: bytes before the last `/`, `None` when `p` has
/// no `/` at all, and `/` itself when the only `/` is the leading one.
pub open spec fn spec_parent_dir(p: Seq<u8>) -> Option<Seq<u8>> {
    if last_slash(p) < 0 {
        None
    } else if last_slash(p) == 0 {
        Some(seq!['/' as u8])
    } else {
        Some(p.subrange(0, last_slash(p)))
    }
}

/// Finds the last `/` by scanning backwards.
fn find_last_slash(p: &Vec<u8>) -> (r: Option<usize>)
    ensures
        match r {
            Some(j) => last_slash(p@) == j && j < p@.len() && p@[j as int] == '/' as u8,
            None => last_slash(p@) == -1,
        },
{
    proof {
        lemma_last_slash(p@);
    }
    let mut i: usize = p.len();
    while i > 0
        invariant
            i <= p@.len(),
            forall|j: int| i <= j < p@.len() ==> p@[j] != '/' as u8,
            -1 <= last_slash(p@) < i,
            last_slash(p@) >= 0 ==> p@[last_slash(p@)] == '/' as u8,
            forall|j: int| last_slash(p@) < j < p@.len() ==> p@[j] != '/' as u8,
        decreases i,
    {
        i = i - 1;
        if p[i] == '/' as u8 {
            assert(p@[i as int] == '/' as u8);
            assert(!(last_slash(p@) < i));
            return Some(i);
        }
    }
    None
}

/// The file-name part of a path: the bytes after the last `/`.
pub fn basename(p: &Vec<u8>) -> (name: Vec<u8>)
    ensures
        name@ == spec_basename(p@),
{
    let n = p.len();
    let cut = match find_last_slash(p) {
        Some(j) => {
            assert(j < n);
            j + 1
        },
        None => 0,
    };
    let mut name: Vec<u8> = Vec::new();
    let mut i = cut;
    while i < p.len()
        invariant
            cut <= i <= p@.len(),
            name@ =~= p@.subrange(cut as int, i as int),
        decreases p@.len() - i,
    {
        name.push(p[i]);
        i = i + 1;
    }
    assert(name@ =~= spec_basename(p@));
    name
}

/// The directory that must exist before a file at `p` can be created.
pub fn parent_dir(p: &Vec<u8>) -> (r: Option<Vec<u8>>)
    ensures
        match r {
            Some(d) => spec_parent_dir(p@) == Some(d@),
            None => spec_parent_dir(p@) is None,
        },
{
    match find_last_slash(p) {
        None => None,
        Some(0) => {
            let mut d: Vec<u8> = Vec::new();
            d.push('/' as u8);
            assert(d@ =~= seq!['/' as u8]);
            Some(d)
        },
        Some(j) => {
            let mut d: Vec<u8> = Vec::new();
            let mut i: usize = 0;
            while i < j
                invariant
                    i <= j < p@.len(),
                    d@ =~= p@.subrange(0, i as int),
                decreases j - i,
            {
                d.push(p[i]);
                i = i + 1;
            }
            assert(d@ =~= p@.subrange(0, j as int));
            Some(d)
        },
    }
}


/// `p` without its trailing `/`s, the way the OS file-name rule ignores
/// them: the file name of `a/b/` is `b`.
pub open spec fn strip_trailing_slashes(p: Seq<u8>) -> Seq<u8>
    decreases p.len(),
{
    if p.len() > 0 && p[p.len() - 1] == '/' as u8 {
        strip_trailing_slashes(p.drop_last())
    } else {
        p
    }
}

/// Removes trailing `/`s.
pub fn strip_trailing_slashes_bytes(p: &Vec<u8>) -> (r: Vec<u8>)
    ensures
        r@ == strip_trailing_slashes(p@),
{
    let mut j: usize = p.len();
    proof {
        assert(p@.take(p@.len() as int) =~= p@);
    }
    while j > 0 && p[j - 1] == '/' as u8
        invariant
            j <= p@.len(),
            strip_trailing_slashes(p@) == strip_trailing_slashes(p@.take(j as int)),
        decreases j,
    {
        proof {
            let w = p@.take(j as int);
            assert(w[w.len() - 1] == p@[j - 1]);
            assert(w.drop_last() =~= p@.take(j - 1));
        }
        j = j - 1;
    }
    proof {
        let w = p@.take(j as int);
        if j > 0 {
            assert(w[w.len() - 1] == p@[j - 1]);
        } else {
            assert(w =~= Seq::<u8>::empty());
        }
        assert(strip_trailing_slashes(p@) == w);
    }
    let mut r: Vec<u8> = Vec::new();
    let mut i: usize = 0;
    while i < j
        invariant
            i <= j <= p@.len(),
            r@ =~= p@.subrange(0, i as int),
        decreases j - i,
    {
        r.push(p[i]);
        i = i + 1;
    }
    assert(r@ =~= p@.take(j as int));
    r
}

/// The file name of a path the way the OS sees it: the bytes after the last
/// `/`, with trailing `/`s ignored first.
pub open spec fn spec_file_name(p: Seq<u8>) -> Seq<u8> {
    spec_basename(strip_trailing_slashes(p))
}

/// The file name of a path: trailing `/`s ignored, then the bytes after the
/// last `/`.
pub fn file_name(p: &Vec<u8>) -> (name: Vec<u8>)
    ensures
        name@ == spec_file_name(p@),
{
    let stripped = strip_trailing_slashes_bytes(p);
    basename(&stripped)
}

} // verus!
