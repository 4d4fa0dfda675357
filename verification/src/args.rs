//! Command arguments: the plain data each command needs, plus the argument
//! hygiene the commands apply to it (tilde expansion, word splitting).
//! Prompting, argument parsing and the current working directory stay with
//! the caller.

use vstd::prelude::*;

verus! {

pub const SPACE: u8 = 32;

/// The whitespace bytes that argument trimming removes: space, tab, line
/// feed, vertical tab, form feed, carriage return.
pub open spec fn is_ascii_whitespace(b: u8) -> bool {
    b == 32 || (9 <= b && b <= 13)
}

fn is_ws_byte(b: u8) -> (r: bool)
    ensures
        r == is_ascii_whitespace(b),
{
    b == 32 || (9 <= b && b <= 13)
}

/// `s` without its leading whitespace.
pub open spec fn trim_start(s: Seq<u8>) -> Seq<u8>
    decreases s.len(),
{
    if s.len() > 0 && is_ascii_whitespace(s[0]) {
        trim_start(s.skip(1))
    } else {
        s
    }
}

/// `s` without its trailing whitespace.
pub open spec fn trim_end(s: Seq<u8>) -> Seq<u8>
    decreases s.len(),
{
    if s.len() > 0 && is_ascii_whitespace(s[s.len() - 1]) {
        trim_end(s.drop_last())
    } else {
        s
    }
}

/// `s` without leading and trailing whitespace.
pub open spec fn spec_trim(s: Seq<u8>) -> Seq<u8> {
    trim_end(trim_start(s))
}

/// Removes leading and trailing whitespace bytes.
pub fn trim_bytes(s: &Vec<u8>) -> (r: Vec<u8>)
    ensures
        r@ == spec_trim(s@),
{
    let n = s.len();
    let mut i: usize = 0;
    proof {
        assert(s@.skip(0) =~= s@);
    }
    while i < n && is_ws_byte(s[i])
        invariant
            i <= n == s@.len(),
            trim_start(s@) == trim_start(s@.skip(i as int)),
        decreases n - i,
    {
        proof {
            assert(s@.skip(i as int)[0] == s@[i as int]);
            assert(s@.skip(i as int).skip(1) =~= s@.skip(i as int + 1));
        }
        i = i + 1;
    }
    let ghost t = s@.skip(i as int);
    proof {
        if i == n {
            assert(t =~= Seq::<u8>::empty());
        }
        assert(trim_start(s@) == t);
    }
    let mut j: usize = n;
    proof {
        assert(t.take(n - i as int) =~= t);
    }
    while j > i && is_ws_byte(s[j - 1])
        invariant
            i <= j <= n == s@.len(),
            t == s@.skip(i as int),
            trim_end(t) == trim_end(t.take(j - i as int)),
        decreases j,
    {
        proof {
            let w = t.take(j - i as int);
            assert(w[w.len() - 1] == s@[j - 1]);
            assert(w.drop_last() =~= t.take(j - 1 - i as int));
        }
        j = j - 1;
    }
    proof {
        let w = t.take(j - i as int);
        if j > i {
            assert(w[w.len() - 1] == s@[j - 1]);
        } else {
            assert(w =~= Seq::<u8>::empty());
        }
        assert(trim_end(t) == w);
        assert(w =~= s@.subrange(i as int, j as int));
    }
    copy_range(s, i, j)
}

/// Relies on `tilde_expand::tilde_expand` (crate `tilde-expand`): input that
/// does not start with `~` comes back unchanged; an initial `~` or `~user`
/// is replaced by that user's home directory, which depends on the machine.
#[verifier::external_body]
fn tilde_expand_raw(path: &Vec<u8>) -> (r: Vec<u8>)
    ensures
        path@.len() == 0 || path@[0] != '~' as u8 ==> r@ == path@,
{
    tilde_expand::tilde_expand(path.as_slice())
}

/// Trims the argument, then expands an initial `~` or `~user` to that user's
/// home directory (a machine-dependent value): an argument whose trimmed
/// form does not start with `~` comes back exactly trimmed.
pub fn expand_tilde_path(path: &Vec<u8>) -> (r: Vec<u8>)
    ensures
        spec_trim(path@).len() == 0 || spec_trim(path@)[0] != '~' as u8 ==> r@ == spec_trim(
            path@,
        ),
{
    let trimmed = trim_bytes(path);
    tilde_expand_raw(&trimmed)
}

/// Arguments of `add`: track `path` under `repo_path`.
pub struct AddArgs {
    pub path: Vec<u8>,
    pub repo_path: Vec<u8>,
}

impl AddArgs {
    pub fn new(path: Vec<u8>, repo_path: Vec<u8>) -> (a: AddArgs)
        ensures
            a.path@ == path@,
            a.repo_path@ == repo_path@,
    {
        AddArgs { path, repo_path }
    }
}

/// Arguments of `track`: track the real file `track_path` under `repo_path`.
/// Both are trimmed and tilde-expanded; resolving `track_path` against the
/// working directory and checking that it exists stay with the caller.
pub struct TrackArgs {
    pub track_path: Vec<u8>,
    pub repo_path: Vec<u8>,
}

impl TrackArgs {
    pub fn new(track_path: Vec<u8>, repo_path: Vec<u8>) -> (a: TrackArgs)
        ensures
            spec_trim(track_path@).len() == 0 || spec_trim(track_path@)[0] != '~' as u8
                ==> a.track_path@ == spec_trim(track_path@),
            spec_trim(repo_path@).len() == 0 || spec_trim(repo_path@)[0] != '~' as u8
                ==> a.repo_path@ == spec_trim(repo_path@),
    {
        TrackArgs {
            track_path: expand_tilde_path(&track_path),
            repo_path: expand_tilde_path(&repo_path),
        }
    }
}

/// Arguments of `init`: the platform name this machine will identify as, and
/// where to create the repository (trimmed and tilde-expanded).
pub struct InitArgs {
    pub platform_name: Vec<u8>,
    pub repo_path: Vec<u8>,
}

impl InitArgs {
    pub fn new(platform_name: Vec<u8>, repo_path: Vec<u8>) -> (a: InitArgs)
        ensures
            a.platform_name@ == platform_name@,
            spec_trim(repo_path@).len() == 0 || spec_trim(repo_path@)[0] != '~' as u8
                ==> a.repo_path@ == spec_trim(repo_path@),
    {
        InitArgs { platform_name, repo_path: expand_tilde_path(&repo_path) }
    }
}

/// Arguments of `untrack`: stop tracking `repo_path` (trimmed and
/// tilde-expanded).
pub struct UntrackArgs {
    pub repo_path: Vec<u8>,
}

impl UntrackArgs {
    pub fn new(repo_path: Vec<u8>) -> (a: UntrackArgs)
        ensures
            spec_trim(repo_path@).len() == 0 || spec_trim(repo_path@)[0] != '~' as u8
                ==> a.repo_path@ == spec_trim(repo_path@),
    {
        UntrackArgs { repo_path: expand_tilde_path(&repo_path) }
    }
}

/// Index of the first space in `s`, or `-1`.
pub open spec fn first_space(s: Seq<u8>) -> int
    decreases s.len(),
{
    if s.len() == 0 {
        -1
    } else if s[0] == SPACE {
        0
    } else if first_space(s.skip(1)) == -1 {
        -1
    } else {
        first_space(s.skip(1)) + 1
    }
}

proof fn lemma_first_space_none(s: Seq<u8>)
    requires
        forall|j: int| 0 <= j < s.len() ==> s[j] != SPACE,
    ensures
        first_space(s) == -1,
    decreases s.len(),
{
    if s.len() > 0 {
        let t = s.skip(1);
        assert forall|j: int| 0 <= j < t.len() implies t[j] != SPACE by {
            assert(t[j] == s[j + 1]);
        }
        lemma_first_space_none(t);
    }
}

proof fn lemma_first_space_determined(s: Seq<u8>, k: int)
    requires
        0 <= k < s.len(),
        s[k] == SPACE,
        forall|j: int| 0 <= j < k ==> s[j] != SPACE,
    ensures
        first_space(s) == k,
    decreases s.len(),
{
    if k > 0 {
        let t = s.skip(1);
        assert forall|j: int| 0 <= j < k - 1 implies t[j] != SPACE by {
            assert(t[j] == s[j + 1]);
        }
        assert(t[k - 1] == s[k]);
        lemma_first_space_determined(t, k - 1);
    }
}

/// The words of `s`, split at every single space: consecutive or edge
/// spaces yield empty words, as a raw shell-style command line splits.
pub open spec fn spec_split_spaces(s: Seq<u8>) -> Seq<Seq<u8>>
    decreases s.len(),
{
    let k = first_space(s);
    if k < 0 || k >= s.len() {
        seq![s]
    } else {
        seq![s.take(k)] + spec_split_spaces(s.skip(k + 1))
    }
}

/// Arguments of `proxy`: a raw command line to hand to the version-control
/// backend, split on spaces.
pub struct ProxyArgs {
    pub command: Vec<u8>,
}

impl ProxyArgs {
    pub fn new(command: Vec<u8>) -> (a: ProxyArgs)
        ensures
            a.command@ == command@,
    {
        ProxyArgs { command }
    }

    /// The command line as the argument words the backend is invoked with.
    pub fn split_args(&self) -> (r: Vec<Vec<u8>>)
        ensures
            r.deep_view() == spec_split_spaces(self.command@),
    {
        let cmd = &self.command;
        let n = cmd.len();
        let mut r: Vec<Vec<u8>> = Vec::new();
        let mut start: usize = 0;
        let mut i: usize = 0;
        proof {
            assert(cmd@.skip(0) =~= cmd@);
            assert(r.deep_view() + spec_split_spaces(cmd@) =~= spec_split_spaces(cmd@));
        }
        while i < n
            invariant
                start <= i <= n == cmd@.len(),
                spec_split_spaces(cmd@) == r.deep_view() + spec_split_spaces(
                    cmd@.skip(start as int),
                ),
                forall|j: int| start <= j < i ==> cmd@[j] != SPACE,
            decreases n - i,
        {
            if cmd[i] == SPACE {
                let tok = copy_range(cmd, start, i);
                let ghost pre = r.deep_view();
                let ghost rest = cmd@.skip(start as int);
                r.push(tok);
                proof {
                    assert forall|j: int| 0 <= j < i - start implies rest[j] != SPACE by {
                        assert(rest[j] == cmd@[start + j]);
                    }
                    assert(rest[i - start] == cmd@[i as int]);
                    lemma_first_space_determined(rest, i - start);
                    assert(rest.take(i - start) =~= cmd@.subrange(start as int, i as int));
                    assert(rest.skip(i - start + 1) =~= cmd@.skip(i as int + 1));
                    assert(r.deep_view() =~~= pre.push(cmd@.subrange(start as int, i as int)));
                    assert(spec_split_spaces(cmd@) =~= r.deep_view() + spec_split_spaces(
                        cmd@.skip(i as int + 1),
                    ));
                }
                start = i + 1;
            }
            i = i + 1;
        }
        let tok = copy_range(cmd, start, n);
        let ghost pre = r.deep_view();
        let ghost rest = cmd@.skip(start as int);
        r.push(tok);
        proof {
            assert forall|j: int| 0 <= j < rest.len() implies rest[j] != SPACE by {
                assert(rest[j] == cmd@[start + j]);
            }
            lemma_first_space_none(rest);
            assert(rest =~= cmd@.subrange(start as int, n as int));
            assert(r.deep_view() =~~= pre.push(rest));
            assert(spec_split_spaces(rest) =~= seq![rest]);
            assert(r.deep_view() =~= pre + seq![rest]);
            assert(spec_split_spaces(cmd@) =~= r.deep_view());
        }
        r
    }
}

/// A copy of `v[a..b]`.
fn copy_range(v: &Vec<u8>, a: usize, b: usize) -> (r: Vec<u8>)
    requires
        a <= b <= v@.len(),
    ensures
        r@ == v@.subrange(a as int, b as int),
{
    let mut r: Vec<u8> = Vec::new();
    let mut i = a;
    while i < b
        invariant
            a <= i <= b <= v@.len(),
            r@ =~= v@.subrange(a as int, i as int),
        decreases b - i,
    {
        r.push(v[i]);
        i = i + 1;
    }
    assert(r@ =~= v@.subrange(a as int, b as int));
    r
}

} // verus!
