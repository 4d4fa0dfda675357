//! The mapping-file codec.
//!
//! The store is persisted as one canonical JSON document,
//! `{"files":[{"path_in_repo":...,"platforms":[{"name":...,"path":...,
//! "last_synced":...}]}]}`, written compactly with the fields in this fixed
//! order.  Parsing reads back exactly what serializing writes: any deviation
//! from the canonical shape is a [`ParseError`], never silently repaired.  The
//! round-trip laws at the bottom prove that parsing undoes serializing for
//! every store value, and that a freshly added binding survives the trip.

use vstd::prelude::*;

use crate::json::{
    dec_digits, spec_parse_string, spec_parse_u64, spec_ser_string, expect_bytes, parse_string_at,
    parse_u64_at, spec_match_at, write_string, write_u64, is_digit, lemma_parse_string_after_ser,
    lemma_parse_u64_after_ser, lemma_dec_digits_are_digits,
};
use crate::platform_setting::{PlatformConfig, PlatformConfigV};
use crate::store::{FileDescV, FileDescriptor, Platform, PlatformV, RepoConfig, RepoConfigV};

verus! {

/// The mapping file did not hold a canonical store document.
#[derive(Clone, Copy, Debug, PartialEq, Eq, Structural)]
pub struct ParseError;

pub const COMMA: u8 = 44;

pub const RBRACE: u8 = 125;

pub open spec fn tok_head() -> Seq<u8> {
    seq!['{' as u8, '\"' as u8, 'f' as u8, 'i' as u8, 'l' as u8, 'e' as u8, 's' as u8, '\"' as u8, ':' as u8, '[' as u8]
}

fn tok_head_vec() -> (v: Vec<u8>)
    ensures
        v@ == tok_head(),
{
    let mut v: Vec<u8> = Vec::new();
    v.push('{' as u8);
    v.push('\"' as u8);
    v.push('f' as u8);
    v.push('i' as u8);
    v.push('l' as u8);
    v.push('e' as u8);
    v.push('s' as u8);
    v.push('\"' as u8);
    v.push(':' as u8);
    v.push('[' as u8);
    assert(v@ =~= tok_head());
    v
}

pub open spec fn tok_file_open() -> Seq<u8> {
    seq!['{' as u8, '\"' as u8, 'p' as u8, 'a' as u8, 't' as u8, 'h' as u8, '_' as u8, 'i' as u8, 'n' as u8, '_' as u8, 'r' as u8, 'e' as u8, 'p' as u8, 'o' as u8, '\"' as u8, ':' as u8]
}

fn tok_file_open_vec() -> (v: Vec<u8>)
    ensures
        v@ == tok_file_open(),
{
    let mut v: Vec<u8> = Vec::new();
    v.push('{' as u8);
    v.push('\"' as u8);
    v.push('p' as u8);
    v.push('a' as u8);
    v.push('t' as u8);
    v.push('h' as u8);
    v.push('_' as u8);
    v.push('i' as u8);
    v.push('n' as u8);
    v.push('_' as u8);
    v.push('r' as u8);
    v.push('e' as u8);
    v.push('p' as u8);
    v.push('o' as u8);
    v.push('\"' as u8);
    v.push(':' as u8);
    assert(v@ =~= tok_file_open());
    v
}

pub open spec fn tok_platforms() -> Seq<u8> {
    seq![',' as u8, '\"' as u8, 'p' as u8, 'l' as u8, 'a' as u8, 't' as u8, 'f' as u8, 'o' as u8, 'r' as u8, 'm' as u8, 's' as u8, '\"' as u8, ':' as u8, '[' as u8]
}

fn tok_platforms_vec() -> (v: Vec<u8>)
    ensures
        v@ == tok_platforms(),
{
    let mut v: Vec<u8> = Vec::new();
    v.push(',' as u8);
    v.push('\"' as u8);
    v.push('p' as u8);
    v.push('l' as u8);
    v.push('a' as u8);
    v.push('t' as u8);
    v.push('f' as u8);
    v.push('o' as u8);
    v.push('r' as u8);
    v.push('m' as u8);
    v.push('s' as u8);
    v.push('\"' as u8);
    v.push(':' as u8);
    v.push('[' as u8);
    assert(v@ =~= tok_platforms());
    v
}

pub open spec fn tok_name() -> Seq<u8> {
    seq!['{' as u8, '\"' as u8, 'n' as u8, 'a' as u8, 'm' as u8, 'e' as u8, '\"' as u8, ':' as u8]
}

fn tok_name_vec() -> (v: Vec<u8>)
    ensures
        v@ == tok_name(),
{
    let mut v: Vec<u8> = Vec::new();
    v.push('{' as u8);
    v.push('\"' as u8);
    v.push('n' as u8);
    v.push('a' as u8);
    v.push('m' as u8);
    v.push('e' as u8);
    v.push('\"' as u8);
    v.push(':' as u8);
    assert(v@ =~= tok_name());
    v
}

pub open spec fn tok_path() -> Seq<u8> {
    seq![',' as u8, '\"' as u8, 'p' as u8, 'a' as u8, 't' as u8, 'h' as u8, '\"' as u8, ':' as u8]
}

fn tok_path_vec() -> (v: Vec<u8>)
    ensures
        v@ == tok_path(),
{
    let mut v: Vec<u8> = Vec::new();
    v.push(',' as u8);
    v.push('\"' as u8);
    v.push('p' as u8);
    v.push('a' as u8);
    v.push('t' as u8);
    v.push('h' as u8);
    v.push('\"' as u8);
    v.push(':' as u8);
    assert(v@ =~= tok_path());
    v
}

pub open spec fn tok_sync() -> Seq<u8> {
    seq![',' as u8, '\"' as u8, 'l' as u8, 'a' as u8, 's' as u8, 't' as u8, '_' as u8, 's' as u8, 'y' as u8, 'n' as u8, 'c' as u8, 'e' as u8, 'd' as u8, '\"' as u8, ':' as u8]
}

fn tok_sync_vec() -> (v: Vec<u8>)
    ensures
        v@ == tok_sync(),
{
    let mut v: Vec<u8> = Vec::new();
    v.push(',' as u8);
    v.push('\"' as u8);
    v.push('l' as u8);
    v.push('a' as u8);
    v.push('s' as u8);
    v.push('t' as u8);
    v.push('_' as u8);
    v.push('s' as u8);
    v.push('y' as u8);
    v.push('n' as u8);
    v.push('c' as u8);
    v.push('e' as u8);
    v.push('d' as u8);
    v.push('\"' as u8);
    v.push(':' as u8);
    assert(v@ =~= tok_sync());
    v
}

pub open spec fn tok_null() -> Seq<u8> {
    seq!['n' as u8, 'u' as u8, 'l' as u8, 'l' as u8]
}

fn tok_null_vec() -> (v: Vec<u8>)
    ensures
        v@ == tok_null(),
{
    let mut v: Vec<u8> = Vec::new();
    v.push('n' as u8);
    v.push('u' as u8);
    v.push('l' as u8);
    v.push('l' as u8);
    assert(v@ =~= tok_null());
    v
}

pub open spec fn tok_list_close() -> Seq<u8> {
    seq![']' as u8, '}' as u8]
}

fn tok_list_close_vec() -> (v: Vec<u8>)
    ensures
        v@ == tok_list_close(),
{
    let mut v: Vec<u8> = Vec::new();
    v.push(']' as u8);
    v.push('}' as u8);
    assert(v@ =~= tok_list_close());
    v
}

pub open spec fn tok_setting_open() -> Seq<u8> {
    seq!['{' as u8, '\"' as u8, 'p' as u8, 'l' as u8, 'a' as u8, 't' as u8, 'f' as u8, 'o' as u8, 'r' as u8, 'm' as u8, '\"' as u8, ':' as u8]
}

fn tok_setting_open_vec() -> (v: Vec<u8>)
    ensures
        v@ == tok_setting_open(),
{
    let mut v: Vec<u8> = Vec::new();
    v.push('{' as u8);
    v.push('\"' as u8);
    v.push('p' as u8);
    v.push('l' as u8);
    v.push('a' as u8);
    v.push('t' as u8);
    v.push('f' as u8);
    v.push('o' as u8);
    v.push('r' as u8);
    v.push('m' as u8);
    v.push('\"' as u8);
    v.push(':' as u8);
    assert(v@ =~= tok_setting_open());
    v
}

pub open spec fn tok_setting_path() -> Seq<u8> {
    seq![',' as u8, '\"' as u8, 'r' as u8, 'e' as u8, 'p' as u8, 'o' as u8, '_' as u8, 'p' as u8, 'a' as u8, 't' as u8, 'h' as u8, '\"' as u8, ':' as u8]
}

fn tok_setting_path_vec() -> (v: Vec<u8>)
    ensures
        v@ == tok_setting_path(),
{
    let mut v: Vec<u8> = Vec::new();
    v.push(',' as u8);
    v.push('\"' as u8);
    v.push('r' as u8);
    v.push('e' as u8);
    v.push('p' as u8);
    v.push('o' as u8);
    v.push('_' as u8);
    v.push('p' as u8);
    v.push('a' as u8);
    v.push('t' as u8);
    v.push('h' as u8);
    v.push('\"' as u8);
    v.push(':' as u8);
    assert(v@ =~= tok_setting_path());
    v
}

/// The serialized `last_synced` field: a plain decimal or `null`.
pub open spec fn spec_ser_last_synced(t: Option<u64>) -> Seq<u8> {
    match t {
        None => tok_null(),
        Some(v) => dec_digits(v as nat),
    }
}

/// One serialized platform binding.
pub open spec fn spec_ser_platform(p: PlatformV) -> Seq<u8> {
    tok_name() + spec_ser_string(p.name) + tok_path() + spec_ser_string(p.path) + tok_sync()
        + spec_ser_last_synced(p.last_synced) + seq![RBRACE]
}

/// A comma-separated list of serialized bindings.
pub open spec fn spec_ser_platforms(ps: Seq<PlatformV>) -> Seq<u8>
    decreases ps.len(),
{
    if ps.len() == 0 {
        Seq::empty()
    } else if ps.len() == 1 {
        spec_ser_platform(ps[0])
    } else {
        spec_ser_platform(ps[0]) + seq![COMMA] + spec_ser_platforms(ps.skip(1))
    }
}

/// One serialized artifact.
pub open spec fn spec_ser_file(f: FileDescV) -> Seq<u8> {
    tok_file_open() + spec_ser_string(f.path_in_repo) + tok_platforms() + spec_ser_platforms(
        f.platforms,
    ) + tok_list_close()
}

/// A comma-separated list of serialized artifacts.
pub open spec fn spec_ser_files(fs: Seq<FileDescV>) -> Seq<u8>
    decreases fs.len(),
{
    if fs.len() == 0 {
        Seq::empty()
    } else if fs.len() == 1 {
        spec_ser_file(fs[0])
    } else {
        spec_ser_file(fs[0]) + seq![COMMA] + spec_ser_files(fs.skip(1))
    }
}

/// The whole serialized store document.
pub open spec fn spec_ser_repo_config(m: RepoConfigV) -> Seq<u8> {
    tok_head() + spec_ser_files(m.files) + tok_list_close()
}

/// The serialized per-machine settings document.
pub open spec fn spec_ser_platform_config(c: PlatformConfigV) -> Seq<u8> {
    tok_setting_open() + spec_ser_string(c.platform) + tok_setting_path() + spec_ser_string(
        c.repo_path,
    ) + seq![RBRACE]
}

fn write_platform(out: &mut Vec<u8>, p: &Platform)
    ensures
        final(out)@ == old(out)@ + spec_ser_platform(p@),
{
    let ghost base = out@;
    let t = tok_name_vec();
    out.extend_from_slice(t.as_slice());
    write_string(out, &p.name);
    let t = tok_path_vec();
    out.extend_from_slice(t.as_slice());
    write_string(out, &p.path);
    let t = tok_sync_vec();
    out.extend_from_slice(t.as_slice());
    match p.last_synced {
        None => {
            let t = tok_null_vec();
            out.extend_from_slice(t.as_slice());
        },
        Some(v) => {
            write_u64(out, v);
        },
    }
    out.push(RBRACE);
    assert(out@ =~= base + spec_ser_platform(p@));
}

fn write_platforms_from(out: &mut Vec<u8>, ps: &Vec<Platform>, i: usize)
    requires
        i <= ps@.len(),
    ensures
        final(out)@ == old(out)@ + spec_ser_platforms(ps.deep_view().skip(i as int)),
    decreases ps@.len() - i,
{
    let ghost base = out@;
    let ghost tail = ps.deep_view().skip(i as int);
    if i >= ps.len() {
        proof {
            assert(tail =~= Seq::<PlatformV>::empty());
            assert(out@ =~= base + spec_ser_platforms(tail));
        }
        return ;
    }
    proof {
        assert(tail[0] == ps.deep_view()[i as int]);
        assert(tail.skip(1) =~= ps.deep_view().skip(i as int + 1));
    }
    write_platform(out, &ps[i]);
    if i + 1 < ps.len() {
        out.push(COMMA);
        write_platforms_from(out, ps, i + 1);
        assert(out@ =~= base + spec_ser_platforms(tail));
    } else {
        proof {
            assert(tail.len() == 1);
            assert(out@ =~= base + spec_ser_platforms(tail));
        }
    }
}

fn write_file(out: &mut Vec<u8>, f: &FileDescriptor)
    ensures
        final(out)@ == old(out)@ + spec_ser_file(f@),
{
    let ghost base = out@;
    let t = tok_file_open_vec();
    out.extend_from_slice(t.as_slice());
    write_string(out, &f.path_in_repo);
    let t = tok_platforms_vec();
    out.extend_from_slice(t.as_slice());
    proof {
        assert(f.platforms.deep_view().skip(0) =~= f.platforms.deep_view());
    }
    write_platforms_from(out, &f.platforms, 0);
    let t = tok_list_close_vec();
    out.extend_from_slice(t.as_slice());
    assert(out@ =~= base + spec_ser_file(f@));
}

fn write_files_from(out: &mut Vec<u8>, fs: &Vec<FileDescriptor>, i: usize)
    requires
        i <= fs@.len(),
    ensures
        final(out)@ == old(out)@ + spec_ser_files(fs.deep_view().skip(i as int)),
    decreases fs@.len() - i,
{
    let ghost base = out@;
    let ghost tail = fs.deep_view().skip(i as int);
    if i >= fs.len() {
        proof {
            assert(tail =~= Seq::<FileDescV>::empty());
            assert(out@ =~= base + spec_ser_files(tail));
        }
        return ;
    }
    proof {
        assert(tail[0] == fs.deep_view()[i as int]);
        assert(tail.skip(1) =~= fs.deep_view().skip(i as int + 1));
    }
    write_file(out, &fs[i]);
    if i + 1 < fs.len() {
        out.push(COMMA);
        write_files_from(out, fs, i + 1);
        assert(out@ =~= base + spec_ser_files(tail));
    } else {
        proof {
            assert(tail.len() == 1);
            assert(out@ =~= base + spec_ser_files(tail));
        }
    }
}

impl RepoConfig {
    /// Serializes the full store into its canonical document; the caller
    /// writes the bytes to the mapping file (atomically: temporary file and
    /// rename) to complete a save.
    pub fn serialize(&self) -> (out: Vec<u8>)
        ensures
            out@ == spec_ser_repo_config(self@),
    {
        let mut out: Vec<u8> = Vec::new();
        let t = tok_head_vec();
        out.extend_from_slice(t.as_slice());
        proof {
            assert(self.files.deep_view().skip(0) =~= self.files.deep_view());
        }
        write_files_from(&mut out, &self.files, 0);
        let t = tok_list_close_vec();
        out.extend_from_slice(t.as_slice());
        assert(out@ =~= spec_ser_repo_config(self@));
        out
    }
}

impl PlatformConfig {
    /// Serializes the per-machine settings; the caller writes the bytes to
    /// the settings file.
    pub fn serialize(&self) -> (out: Vec<u8>)
        ensures
            out@ == spec_ser_platform_config(self@),
    {
        let mut out: Vec<u8> = Vec::new();
        let t = tok_setting_open_vec();
        out.extend_from_slice(t.as_slice());
        write_string(&mut out, self.get_platform());
        let t = tok_setting_path_vec();
        out.extend_from_slice(t.as_slice());
        write_string(&mut out, self.get_repo_path());
        out.push(RBRACE);
        assert(out@ =~= spec_ser_platform_config(self@));
        out
    }
}


/// Parses one platform binding at `i`.
pub open spec fn spec_parse_platform(s: Seq<u8>, i: int) -> Option<(PlatformV, int)> {
    if !spec_match_at(s, i, tok_name()) {
        None
    } else {
        match spec_parse_string(s, i + tok_name().len()) {
            None => None,
            Some((name, i2)) => {
                if !spec_match_at(s, i2, tok_path()) {
                    None
                } else {
                    match spec_parse_string(s, i2 + tok_path().len()) {
                        None => None,
                        Some((path, i4)) => {
                            if !spec_match_at(s, i4, tok_sync()) {
                                None
                            } else {
                                let i5 = i4 + tok_sync().len();
                                if spec_match_at(s, i5, tok_null()) {
                                    let i6 = i5 + tok_null().len();
                                    if i6 < s.len() && s[i6] == RBRACE {
                                        Some(
                                            (
                                                PlatformV { name, path, last_synced: None },
                                                i6 + 1,
                                            ),
                                        )
                                    } else {
                                        None
                                    }
                                } else {
                                    match spec_parse_u64(s, i5) {
                                        None => None,
                                        Some((t, i6)) => {
                                            if i6 < s.len() && s[i6] == RBRACE {
                                                Some(
                                                    (
                                                        PlatformV {
                                                            name,
                                                            path,
                                                            last_synced: Some(t),
                                                        },
                                                        i6 + 1,
                                                    ),
                                                )
                                            } else {
                                                None
                                            }
                                        },
                                    }
                                }
                            }
                        },
                    }
                }
            },
        }
    }
}

/// Parses the rest of a binding list at `i`, `acc` holding the bindings
/// already read; stops after the last binding, before the closing `]`.
pub open spec fn spec_parse_platforms(s: Seq<u8>, i: int, acc: Seq<PlatformV>) -> Option<
    (Seq<PlatformV>, int),
>
    decreases s.len() - i,
{
    match spec_parse_platform(s, i) {
        None => None,
        Some((p, j)) => {
            if j <= i || j > s.len() {
                None
            } else {
                if j < s.len() && s[j] == COMMA {
                    spec_parse_platforms(s, j + 1, acc.push(p))
                } else {
                    Some((acc.push(p), j))
                }
            }
        },
    }
}

/// Parses one artifact at `i`.
pub open spec fn spec_parse_file(s: Seq<u8>, i: int) -> Option<(FileDescV, int)> {
    if !spec_match_at(s, i, tok_file_open()) {
        None
    } else {
        match spec_parse_string(s, i + tok_file_open().len()) {
            None => None,
            Some((rp, i2)) => {
                if !spec_match_at(s, i2, tok_platforms()) {
                    None
                } else {
                    let i3 = i2 + tok_platforms().len();
                    if spec_match_at(s, i3, tok_list_close()) {
                        Some(
                            (
                                FileDescV { path_in_repo: rp, platforms: Seq::empty() },
                                i3 + tok_list_close().len(),
                            ),
                        )
                    } else {
                        match spec_parse_platforms(s, i3, Seq::empty()) {
                            None => None,
                            Some((ps, i4)) => {
                                if spec_match_at(s, i4, tok_list_close()) {
                                    Some(
                                        (
                                            FileDescV { path_in_repo: rp, platforms: ps },
                                            i4 + tok_list_close().len(),
                                        ),
                                    )
                                } else {
                                    None
                                }
                            },
                        }
                    }
                }
            },
        }
    }
}

/// Parses the rest of an artifact list at `i`, like
/// [`spec_parse_platforms`].
pub open spec fn spec_parse_files(s: Seq<u8>, i: int, acc: Seq<FileDescV>) -> Option<
    (Seq<FileDescV>, int),
>
    decreases s.len() - i,
{
    match spec_parse_file(s, i) {
        None => None,
        Some((f, j)) => {
            if j <= i || j > s.len() {
                None
            } else {
                if j < s.len() && s[j] == COMMA {
                    spec_parse_files(s, j + 1, acc.push(f))
                } else {
                    Some((acc.push(f), j))
                }
            }
        },
    }
}

/// Parses a store document at `i`.
pub open spec fn spec_parse_repo_config_at(s: Seq<u8>, i: int) -> Option<(RepoConfigV, int)> {
    if !spec_match_at(s, i, tok_head()) {
        None
    } else {
        let i1 = i + tok_head().len();
        if spec_match_at(s, i1, tok_list_close()) {
            Some((RepoConfigV { files: Seq::empty() }, i1 + tok_list_close().len()))
        } else {
            match spec_parse_files(s, i1, Seq::empty()) {
                None => None,
                Some((fs, j)) => {
                    if spec_match_at(s, j, tok_list_close()) {
                        Some((RepoConfigV { files: fs }, j + tok_list_close().len()))
                    } else {
                        None
                    }
                },
            }
        }
    }
}

/// Parses a whole mapping file: the document with nothing after it.
pub open spec fn spec_parse_repo_config(s: Seq<u8>) -> Option<RepoConfigV> {
    match spec_parse_repo_config_at(s, 0) {
        None => None,
        Some((m, j)) => {
            if j == s.len() {
                Some(m)
            } else {
                None
            }
        },
    }
}

/// Parses a whole settings file: the document with nothing after it.
pub open spec fn spec_parse_platform_config(s: Seq<u8>) -> Option<PlatformConfigV> {
    if !spec_match_at(s, 0, tok_setting_open()) {
        None
    } else {
        match spec_parse_string(s, tok_setting_open().len() as int) {
            None => None,
            Some((platform, i2)) => {
                if !spec_match_at(s, i2, tok_setting_path()) {
                    None
                } else {
                    match spec_parse_string(s, i2 + tok_setting_path().len()) {
                        None => None,
                        Some((repo_path, i4)) => {
                            if i4 + 1 == s.len() && s[i4] == RBRACE {
                                Some(PlatformConfigV { platform, repo_path })
                            } else {
                                None
                            }
                        },
                    }
                }
            },
        }
    }
}

fn parse_platform_at(s: &Vec<u8>, i: usize) -> (r: Option<(Platform, usize)>)
    ensures
        match r {
            Some(p) => spec_parse_platform(s@, i as int) == Some((p.0@, p.1 as int)) && i < p.1
                <= s@.len(),
            None => spec_parse_platform(s@, i as int) is None,
        },
{
    let t = tok_name_vec();
    let i1 = match expect_bytes(s, i, &t) {
        Some(j) => j,
        None => {
            return None;
        },
    };
    let (name, i2) = match parse_string_at(s, i1) {
        Some(p) => p,
        None => {
            return None;
        },
    };
    let t = tok_path_vec();
    let i3 = match expect_bytes(s, i2, &t) {
        Some(j) => j,
        None => {
            return None;
        },
    };
    let (path, i4) = match parse_string_at(s, i3) {
        Some(p) => p,
        None => {
            return None;
        },
    };
    let t = tok_sync_vec();
    let i5 = match expect_bytes(s, i4, &t) {
        Some(j) => j,
        None => {
            return None;
        },
    };
    let t = tok_null_vec();
    let (last_synced, i6) = match expect_bytes(s, i5, &t) {
        Some(j) => (None, j),
        None => {
            match parse_u64_at(s, i5) {
                Some(p) => (Some(p.0), p.1),
                None => {
                    return None;
                },
            }
        },
    };
    if i6 < s.len() && s[i6] == RBRACE {
        Some((Platform { name, path, last_synced }, i6 + 1))
    } else {
        None
    }
}

fn parse_platforms_at(s: &Vec<u8>, i: usize, acc: &mut Vec<Platform>) -> (r: Option<usize>)
    ensures
        match r {
            Some(j) => spec_parse_platforms(s@, i as int, old(acc).deep_view()) == Some(
                (final(acc).deep_view(), j as int),
            ) && i < j <= s@.len(),
            None => spec_parse_platforms(s@, i as int, old(acc).deep_view()) is None,
        },
    decreases s@.len() - i,
{
    let ghost acc0 = acc.deep_view();
    let (p, j) = match parse_platform_at(s, i) {
        Some(p) => p,
        None => {
            return None;
        },
    };
    let ghost pv = p@;
    acc.push(p);
    proof {
        assert(acc.deep_view() =~= acc0.push(pv));
    }
    if j < s.len() && s[j] == COMMA {
        parse_platforms_at(s, j + 1, acc)
    } else {
        Some(j)
    }
}

fn parse_file_at(s: &Vec<u8>, i: usize) -> (r: Option<(FileDescriptor, usize)>)
    ensures
        match r {
            Some(p) => spec_parse_file(s@, i as int) == Some((p.0@, p.1 as int)) && i < p.1
                <= s@.len(),
            None => spec_parse_file(s@, i as int) is None,
        },
{
    let t = tok_file_open_vec();
    let i1 = match expect_bytes(s, i, &t) {
        Some(j) => j,
        None => {
            return None;
        },
    };
    let (path_in_repo, i2) = match parse_string_at(s, i1) {
        Some(p) => p,
        None => {
            return None;
        },
    };
    let t = tok_platforms_vec();
    let i3 = match expect_bytes(s, i2, &t) {
        Some(j) => j,
        None => {
            return None;
        },
    };
    let tlc = tok_list_close_vec();
    match expect_bytes(s, i3, &tlc) {
        Some(j) => {
            let platforms: Vec<Platform> = Vec::new();
            proof {
                assert(platforms.deep_view() =~= Seq::<PlatformV>::empty());
            }
            Some((FileDescriptor { path_in_repo, platforms }, j))
        },
        None => {
            let mut platforms: Vec<Platform> = Vec::new();
            proof {
                assert(platforms.deep_view() =~= Seq::<PlatformV>::empty());
            }
            let i4 = match parse_platforms_at(s, i3, &mut platforms) {
                Some(j) => j,
                None => {
                    return None;
                },
            };
            match expect_bytes(s, i4, &tlc) {
                Some(j) => Some((FileDescriptor { path_in_repo, platforms }, j)),
                None => None,
            }
        },
    }
}

fn parse_files_at(s: &Vec<u8>, i: usize, acc: &mut Vec<FileDescriptor>) -> (r: Option<usize>)
    ensures
        match r {
            Some(j) => spec_parse_files(s@, i as int, old(acc).deep_view()) == Some(
                (final(acc).deep_view(), j as int),
            ) && i < j <= s@.len(),
            None => spec_parse_files(s@, i as int, old(acc).deep_view()) is None,
        },
    decreases s@.len() - i,
{
    let ghost acc0 = acc.deep_view();
    let (f, j) = match parse_file_at(s, i) {
        Some(p) => p,
        None => {
            return None;
        },
    };
    let ghost fv = f@;
    acc.push(f);
    proof {
        assert(acc.deep_view() =~= acc0.push(fv));
    }
    if j < s.len() && s[j] == COMMA {
        parse_files_at(s, j + 1, acc)
    } else {
        Some(j)
    }
}

impl RepoConfig {
    /// Loads a store from the bytes of its mapping file.  Exactly the
    /// canonical documents parse; everything else is a [`ParseError`], never
    /// silently discarded.  Absence of the file is for the caller to decide
    /// on, before any bytes exist to parse.
    pub fn parse_repo_config(bytes: &Vec<u8>) -> (r: Result<RepoConfig, ParseError>)
        ensures
            match r {
                Ok(c) => spec_parse_repo_config(bytes@) == Some(c@),
                Err(_) => spec_parse_repo_config(bytes@) is None,
            },
    {
        let t = tok_head_vec();
        let i1 = match expect_bytes(bytes, 0, &t) {
            Some(j) => j,
            None => {
                return Err(ParseError);
            },
        };
        let tlc = tok_list_close_vec();
        let (files, j) = match expect_bytes(bytes, i1, &tlc) {
            Some(j) => {
                let files: Vec<FileDescriptor> = Vec::new();
                proof {
                    assert(files.deep_view() =~= Seq::<FileDescV>::empty());
                }
                (files, j)
            },
            None => {
                let mut files: Vec<FileDescriptor> = Vec::new();
                proof {
                    assert(files.deep_view() =~= Seq::<FileDescV>::empty());
                }
                let i2 = match parse_files_at(bytes, i1, &mut files) {
                    Some(j) => j,
                    None => {
                        return Err(ParseError);
                    },
                };
                match expect_bytes(bytes, i2, &tlc) {
                    Some(j) => (files, j),
                    None => {
                        return Err(ParseError);
                    },
                }
            },
        };
        if j == bytes.len() {
            Ok(RepoConfig { files })
        } else {
            Err(ParseError)
        }
    }
}

impl PlatformConfig {
    /// Loads the per-machine settings from the bytes of the settings file.
    pub fn parse_platform_config(bytes: &Vec<u8>) -> (r: Result<PlatformConfig, ParseError>)
        ensures
            match r {
                Ok(c) => spec_parse_platform_config(bytes@) == Some(c@),
                Err(_) => spec_parse_platform_config(bytes@) is None,
            },
    {
        let t = tok_setting_open_vec();
        let i1 = match expect_bytes(bytes, 0, &t) {
            Some(j) => j,
            None => {
                return Err(ParseError);
            },
        };
        let (platform, i2) = match parse_string_at(bytes, i1) {
            Some(p) => p,
            None => {
                return Err(ParseError);
            },
        };
        let t = tok_setting_path_vec();
        let i3 = match expect_bytes(bytes, i2, &t) {
            Some(j) => j,
            None => {
                return Err(ParseError);
            },
        };
        let (repo_path, i4) = match parse_string_at(bytes, i3) {
            Some(p) => p,
            None => {
                return Err(ParseError);
            },
        };
        if i4 < bytes.len() && i4 + 1 == bytes.len() && bytes[i4] == RBRACE {
            Ok(PlatformConfig::new(platform, repo_path))
        } else {
            Err(ParseError)
        }
    }
}


/// Splits knowledge of a two-part region into knowledge of its parts.
proof fn lemma_region_split(s: Seq<u8>, i: int, a: Seq<u8>, b: Seq<u8>)
    requires
        0 <= i,
        i + a.len() + b.len() <= s.len(),
        s.subrange(i, i + a.len() + b.len()) == a + b,
    ensures
        s.subrange(i, i + a.len()) == a,
        s.subrange(i + a.len(), i + a.len() + b.len()) == b,
{
    assert forall|j: int| 0 <= j < a.len() implies s[i + j] == a[j] by {
        assert(s.subrange(i, i + a.len() + b.len())[j] == s[i + j]);
        assert((a + b)[j] == a[j]);
    }
    assert forall|j: int| 0 <= j < b.len() implies s[i + a.len() + j] == b[j] by {
        assert(s.subrange(i, i + a.len() + b.len())[a.len() + j] == s[i + a.len() + j]);
        assert((a + b)[a.len() + j] == b[j]);
    }
    assert(s.subrange(i, i + a.len()) =~= a);
    assert(s.subrange(i + a.len(), i + a.len() + b.len()) =~= b);
}

#[verifier::rlimit(100)]
proof fn lemma_parse_platform_after_ser(s: Seq<u8>, i: int, p: PlatformV)
    requires
        0 <= i,
        i + spec_ser_platform(p).len() <= s.len(),
        s.subrange(i, i + spec_ser_platform(p).len()) == spec_ser_platform(p),
    ensures
        spec_parse_platform(s, i) == Some((p, i + spec_ser_platform(p).len())),
{
    let t1 = tok_name();
    let a1 = spec_ser_string(p.name);
    let t2 = tok_path();
    let a2 = spec_ser_string(p.path);
    let t3 = tok_sync();
    let nu = spec_ser_last_synced(p.last_synced);
    let rb = seq![RBRACE];
    let w = spec_ser_platform(p);
    assert(w =~= t1 + (a1 + (t2 + (a2 + (t3 + (nu + rb))))));
    lemma_region_split(s, i, t1, a1 + (t2 + (a2 + (t3 + (nu + rb)))));
    let i1 = i + t1.len();
    lemma_region_split(s, i1, a1, t2 + (a2 + (t3 + (nu + rb))));
    lemma_parse_string_after_ser(s, i1, p.name);
    let i2 = i1 + a1.len();
    lemma_region_split(s, i2, t2, a2 + (t3 + (nu + rb)));
    let i3 = i2 + t2.len();
    lemma_region_split(s, i3, a2, t3 + (nu + rb));
    lemma_parse_string_after_ser(s, i3, p.path);
    let i4 = i3 + a2.len();
    lemma_region_split(s, i4, t3, nu + rb);
    let i5 = i4 + t3.len();
    lemma_region_split(s, i5, nu, rb);
    let i6 = i5 + nu.len();
    assert(s.subrange(i6, i6 + 1)[0] == s[i6]);
    assert(s[i6] == RBRACE);
    match p.last_synced {
        None => {
            assert(spec_match_at(s, i5, tok_null()));
        },
        Some(v) => {
            lemma_dec_digits_are_digits(v as nat);
            assert(s.subrange(i5, i5 + nu.len())[0] == s[i5]);
            assert(is_digit(s[i5]));
            if spec_match_at(s, i5, tok_null()) {
                assert(s.subrange(i5, i5 + tok_null().len())[0] == s[i5]);
                assert(s[i5] == 'n' as u8);
                assert(false);
            }
            lemma_parse_u64_after_ser(s, i5, v);
        },
    }
}

#[verifier::rlimit(100)]
proof fn lemma_parse_platforms_after_ser(
    s: Seq<u8>,
    i: int,
    acc: Seq<PlatformV>,
    ps: Seq<PlatformV>,
)
    requires
        ps.len() > 0,
        0 <= i,
        i + spec_ser_platforms(ps).len() <= s.len(),
        s.subrange(i, i + spec_ser_platforms(ps).len()) == spec_ser_platforms(ps),
        i + spec_ser_platforms(ps).len() == s.len() || s[i + spec_ser_platforms(ps).len()]
            != COMMA,
    ensures
        spec_parse_platforms(s, i, acc) == Some((acc + ps, i + spec_ser_platforms(ps).len())),
    decreases ps.len(),
{
    let w = spec_ser_platforms(ps);
    let e = spec_ser_platform(ps[0]);
    assert(e.len() >= tok_name().len());
    if ps.len() == 1 {
        assert(w == e);
        lemma_parse_platform_after_ser(s, i, ps[0]);
        assert(acc.push(ps[0]) =~= acc + ps);
    } else {
        let rest = spec_ser_platforms(ps.skip(1));
        assert(w =~= e + (seq![COMMA] + rest));
        lemma_region_split(s, i, e, seq![COMMA] + rest);
        let j = i + e.len();
        lemma_region_split(s, j, seq![COMMA], rest);
        lemma_parse_platform_after_ser(s, i, ps[0]);
        assert(s.subrange(j, j + 1)[0] == s[j]);
        assert(s[j] == COMMA);
        assert(ps.skip(1).len() > 0);
        assert(rest.len() > 0);
        lemma_parse_platforms_after_ser(s, j + 1, acc.push(ps[0]), ps.skip(1));
        assert(acc.push(ps[0]) + ps.skip(1) =~= acc + ps);
    }
}

#[verifier::rlimit(100)]
proof fn lemma_parse_file_after_ser(s: Seq<u8>, i: int, f: FileDescV)
    requires
        0 <= i,
        i + spec_ser_file(f).len() <= s.len(),
        s.subrange(i, i + spec_ser_file(f).len()) == spec_ser_file(f),
    ensures
        spec_parse_file(s, i) == Some((f, i + spec_ser_file(f).len())),
{
    let t1 = tok_file_open();
    let a1 = spec_ser_string(f.path_in_repo);
    let t2 = tok_platforms();
    let m = spec_ser_platforms(f.platforms);
    let tc = tok_list_close();
    let w = spec_ser_file(f);
    assert(w =~= t1 + (a1 + (t2 + (m + tc))));
    lemma_region_split(s, i, t1, a1 + (t2 + (m + tc)));
    let i1 = i + t1.len();
    lemma_region_split(s, i1, a1, t2 + (m + tc));
    lemma_parse_string_after_ser(s, i1, f.path_in_repo);
    let i2 = i1 + a1.len();
    lemma_region_split(s, i2, t2, m + tc);
    let i3 = i2 + t2.len();
    lemma_region_split(s, i3, m, tc);
    let i4 = i3 + m.len();
    assert(s.subrange(i4, i4 + 2)[0] == s[i4]);
    assert(s[i4] == ']' as u8);
    if f.platforms.len() == 0 {
        assert(m.len() == 0);
        assert(spec_match_at(s, i3, tok_list_close()));
        assert(f.platforms =~= Seq::<PlatformV>::empty());
    } else {
        assert(spec_ser_platform(f.platforms[0])[0] == '{' as u8);
        assert(m[0] == spec_ser_platform(f.platforms[0])[0]);
        assert(s.subrange(i3, i3 + m.len())[0] == s[i3]);
        assert(s[i3] == '{' as u8);
        if spec_match_at(s, i3, tok_list_close()) {
            assert(s.subrange(i3, i3 + tok_list_close().len())[0] == s[i3]);
            assert(false);
        }
        lemma_parse_platforms_after_ser(s, i3, Seq::empty(), f.platforms);
        assert(Seq::empty() + f.platforms =~= f.platforms);
        assert(spec_match_at(s, i4, tok_list_close()));
    }
}

#[verifier::rlimit(100)]
proof fn lemma_parse_files_after_ser(s: Seq<u8>, i: int, acc: Seq<FileDescV>, fs: Seq<FileDescV>)
    requires
        fs.len() > 0,
        0 <= i,
        i + spec_ser_files(fs).len() <= s.len(),
        s.subrange(i, i + spec_ser_files(fs).len()) == spec_ser_files(fs),
        i + spec_ser_files(fs).len() == s.len() || s[i + spec_ser_files(fs).len()] != COMMA,
    ensures
        spec_parse_files(s, i, acc) == Some((acc + fs, i + spec_ser_files(fs).len())),
    decreases fs.len(),
{
    let w = spec_ser_files(fs);
    let e = spec_ser_file(fs[0]);
    assert(e.len() >= tok_file_open().len());
    if fs.len() == 1 {
        assert(w == e);
        lemma_parse_file_after_ser(s, i, fs[0]);
        assert(acc.push(fs[0]) =~= acc + fs);
    } else {
        let rest = spec_ser_files(fs.skip(1));
        assert(w =~= e + (seq![COMMA] + rest));
        lemma_region_split(s, i, e, seq![COMMA] + rest);
        let j = i + e.len();
        lemma_region_split(s, j, seq![COMMA], rest);
        lemma_parse_file_after_ser(s, i, fs[0]);
        assert(s.subrange(j, j + 1)[0] == s[j]);
        assert(s[j] == COMMA);
        assert(fs.skip(1).len() > 0);
        assert(rest.len() > 0);
        lemma_parse_files_after_ser(s, j + 1, acc.push(fs[0]), fs.skip(1));
        assert(acc.push(fs[0]) + fs.skip(1) =~= acc + fs);
    }
}

#[verifier::rlimit(100)]
#[verifier::spinoff_prover]
proof fn lemma_repo_config_round_trip_head(m: RepoConfigV)
    ensures
        spec_match_at(spec_ser_repo_config(m), 0, tok_head()),
        spec_ser_repo_config(m).subrange(
            tok_head().len() as int,
            tok_head().len() + spec_ser_files(m.files).len() as int,
        ) == spec_ser_files(m.files),
        spec_ser_repo_config(m).subrange(
            tok_head().len() + spec_ser_files(m.files).len() as int,
            spec_ser_repo_config(m).len() as int,
        ) == tok_list_close(),
        spec_ser_repo_config(m).len() == tok_head().len() + spec_ser_files(m.files).len()
            + tok_list_close().len(),
{
    let s = spec_ser_repo_config(m);
    let th = tok_head();
    let b = spec_ser_files(m.files);
    let tc = tok_list_close();
    assert(s =~= th + (b + tc));
    assert(s.subrange(0, s.len() as int) =~= s);
    lemma_region_split(s, 0, th, b + tc);
    lemma_region_split(s, th.len() as int, b, tc);
}

/// Round trip of the whole mapping file: parsing what `serialize` writes
/// gives back exactly the store that was serialized, for every store value.
#[verifier::rlimit(100)]
#[verifier::spinoff_prover]
pub proof fn lemma_repo_config_round_trip(m: RepoConfigV)
    ensures
        spec_parse_repo_config(spec_ser_repo_config(m)) == Some(m),
{
    let s = spec_ser_repo_config(m);
    let th = tok_head();
    let b = spec_ser_files(m.files);
    let tc = tok_list_close();
    lemma_repo_config_round_trip_head(m);
    let i1 = th.len() as int;
    let i2 = i1 + b.len();
    assert(s.subrange(i2, i2 + 2)[0] == s[i2]);
    assert(s[i2] == ']' as u8);
    if m.files.len() == 0 {
        assert(b.len() == 0);
        assert(spec_match_at(s, i1, tok_list_close()));
        assert(m.files =~= Seq::<FileDescV>::empty());
    } else {
        assert(spec_ser_file(m.files[0])[0] == '{' as u8);
        assert(b[0] == spec_ser_file(m.files[0])[0]);
        assert(s.subrange(i1, i1 + b.len())[0] == s[i1]);
        assert(s[i1] == '{' as u8);
        if spec_match_at(s, i1, tok_list_close()) {
            assert(s.subrange(i1, i1 + tok_list_close().len())[0] == s[i1]);
            assert(false);
        }
        lemma_parse_files_after_ser(s, i1, Seq::empty(), m.files);
        assert(Seq::empty() + m.files =~= m.files);
        assert(spec_match_at(s, i2, tok_list_close()));
    }
}

/// Round trip of the settings file, for every settings value.
#[verifier::rlimit(100)]
pub proof fn lemma_platform_config_round_trip(c: PlatformConfigV)
    ensures
        spec_parse_platform_config(spec_ser_platform_config(c)) == Some(c),
{
    let s = spec_ser_platform_config(c);
    let t1 = tok_setting_open();
    let a1 = spec_ser_string(c.platform);
    let t2 = tok_setting_path();
    let a2 = spec_ser_string(c.repo_path);
    let rb = seq![RBRACE];
    assert(s =~= t1 + (a1 + (t2 + (a2 + rb))));
    assert(s.subrange(0, s.len() as int) =~= s);
    lemma_region_split(s, 0, t1, a1 + (t2 + (a2 + rb)));
    let i1 = t1.len() as int;
    lemma_region_split(s, i1, a1, t2 + (a2 + rb));
    lemma_parse_string_after_ser(s, i1, c.platform);
    let i2 = i1 + a1.len();
    lemma_region_split(s, i2, t2, a2 + rb);
    let i3 = i2 + t2.len();
    lemma_region_split(s, i3, a2, rb);
    lemma_parse_string_after_ser(s, i3, c.repo_path);
    let i4 = i3 + a2.len();
    assert(s.subrange(i4, i4 + 1)[0] == s[i4]);
    assert(s[i4] == RBRACE);
}

/// The add-then-load round trip: after a successful `add_binding`, saving
/// the store and loading it back reproduces the store exactly, and looking
/// up the added (repo path, platform) pair yields exactly the real path that
/// was bound.
pub proof fn lemma_add_binding_round_trip(
    files: Seq<FileDescV>,
    rp: Seq<u8>,
    pn: Seq<u8>,
    rpath: Seq<u8>,
)
    requires
        crate::store::spec_lookup(files, rp, pn) is None,
    ensures
        ({
            let files2 = crate::store::spec_add(files, rp, pn, rpath);
            &&& spec_parse_repo_config(spec_ser_repo_config(RepoConfigV { files: files2 }))
                == Some(RepoConfigV { files: files2 })
            &&& crate::store::spec_lookup(files2, rp, pn) == Some(rpath)
        }),
{
    crate::store::lemma_add_binding_lookup(files, rp, pn, rpath);
    lemma_repo_config_round_trip(
        RepoConfigV { files: crate::store::spec_add(files, rp, pn, rpath) },
    );
}

} // verus!
