//! The commit batcher.
//!
//! After an operation touches repository files, the batcher turns the set of
//! repo-relative paths actually written — never the full tree — into one
//! commit request: the paths to stage and a message built from a fixed
//! template, recording the count of files and, for each, its repo path and
//! (when known) the external modification time it was copied from.  An empty
//! batch is "nothing to do", a distinct outcome, not a commit.  Staging and
//! committing belong to the version-control collaborator outside this crate.

use vstd::prelude::*;

use crate::json::dec_digits;
use crate::json::write_u64;
use crate::timefmt::{format_utc_timestamp, utc_display_of, MAX_UTC_SECS};

verus! {

/// The bytes of `Update `.
pub open spec fn lit_update() -> Seq<u8> {
    seq!['U' as u8, 'p' as u8, 'd' as u8, 'a' as u8, 't' as u8, 'e' as u8, ' ' as u8]
}

fn lit_update_vec() -> (v: Vec<u8>)
    ensures
        v@ == lit_update(),
{
    let mut v: Vec<u8> = Vec::new();
    v.push('U' as u8);
    v.push('p' as u8);
    v.push('d' as u8);
    v.push('a' as u8);
    v.push('t' as u8);
    v.push('e' as u8);
    v.push(' ' as u8);
    assert(v@ =~= lit_update());
    v
}

/// The bytes of ` file`.
pub open spec fn lit_file() -> Seq<u8> {
    seq![' ' as u8, 'f' as u8, 'i' as u8, 'l' as u8, 'e' as u8]
}

fn lit_file_vec() -> (v: Vec<u8>)
    ensures
        v@ == lit_file(),
{
    let mut v: Vec<u8> = Vec::new();
    v.push(' ' as u8);
    v.push('f' as u8);
    v.push('i' as u8);
    v.push('l' as u8);
    v.push('e' as u8);
    assert(v@ =~= lit_file());
    v
}

/// The bytes of `s`.
pub open spec fn lit_plural() -> Seq<u8> {
    seq!['s' as u8]
}

fn lit_plural_vec() -> (v: Vec<u8>)
    ensures
        v@ == lit_plural(),
{
    let mut v: Vec<u8> = Vec::new();
    v.push('s' as u8);
    assert(v@ =~= lit_plural());
    v
}

/// The bytes of ` from remote locations\n\n`.
pub open spec fn lit_from_remote() -> Seq<u8> {
    seq![' ' as u8, 'f' as u8, 'r' as u8, 'o' as u8, 'm' as u8, ' ' as u8, 'r' as u8, 'e' as u8, 'm' as u8, 'o' as u8, 't' as u8, 'e' as u8, ' ' as u8, 'l' as u8, 'o' as u8, 'c' as u8, 'a' as u8, 't' as u8, 'i' as u8, 'o' as u8, 'n' as u8, 's' as u8, '\n' as u8, '\n' as u8]
}

fn lit_from_remote_vec() -> (v: Vec<u8>)
    ensures
        v@ == lit_from_remote(),
{
    let mut v: Vec<u8> = Vec::new();
    v.push(' ' as u8);
    v.push('f' as u8);
    v.push('r' as u8);
    v.push('o' as u8);
    v.push('m' as u8);
    v.push(' ' as u8);
    v.push('r' as u8);
    v.push('e' as u8);
    v.push('m' as u8);
    v.push('o' as u8);
    v.push('t' as u8);
    v.push('e' as u8);
    v.push(' ' as u8);
    v.push('l' as u8);
    v.push('o' as u8);
    v.push('c' as u8);
    v.push('a' as u8);
    v.push('t' as u8);
    v.push('i' as u8);
    v.push('o' as u8);
    v.push('n' as u8);
    v.push('s' as u8);
    v.push('\n' as u8);
    v.push('\n' as u8);
    assert(v@ =~= lit_from_remote());
    v
}

/// The bytes of `- `.
pub open spec fn lit_item() -> Seq<u8> {
    seq!['-' as u8, ' ' as u8]
}

fn lit_item_vec() -> (v: Vec<u8>)
    ensures
        v@ == lit_item(),
{
    let mut v: Vec<u8> = Vec::new();
    v.push('-' as u8);
    v.push(' ' as u8);
    assert(v@ =~= lit_item());
    v
}

/// The bytes of ` (modified: `.
pub open spec fn lit_modified() -> Seq<u8> {
    seq![' ' as u8, '(' as u8, 'm' as u8, 'o' as u8, 'd' as u8, 'i' as u8, 'f' as u8, 'i' as u8, 'e' as u8, 'd' as u8, ':' as u8, ' ' as u8]
}

fn lit_modified_vec() -> (v: Vec<u8>)
    ensures
        v@ == lit_modified(),
{
    let mut v: Vec<u8> = Vec::new();
    v.push(' ' as u8);
    v.push('(' as u8);
    v.push('m' as u8);
    v.push('o' as u8);
    v.push('d' as u8);
    v.push('i' as u8);
    v.push('f' as u8);
    v.push('i' as u8);
    v.push('e' as u8);
    v.push('d' as u8);
    v.push(':' as u8);
    v.push(' ' as u8);
    assert(v@ =~= lit_modified());
    v
}

/// The bytes of `)`.
pub open spec fn lit_close_paren() -> Seq<u8> {
    seq![')' as u8]
}

fn lit_close_paren_vec() -> (v: Vec<u8>)
    ensures
        v@ == lit_close_paren(),
{
    let mut v: Vec<u8> = Vec::new();
    v.push(')' as u8);
    assert(v@ =~= lit_close_paren());
    v
}

/// A newline between message lines.
pub const NEWLINE: u8 = 10;

/// One entry of a batch: a repo-relative path, and the external modification
/// time it was copied from, when known.
pub open spec fn entries_view(s: Seq<(Vec<u8>, Option<u64>)>) -> Seq<(Seq<u8>, Option<u64>)> {
    Seq::new(s.len(), |i: int| (s[i].0@, s[i].1))
}

/// Every known modification time in the batch can be rendered.
pub open spec fn mtimes_in_range(es: Seq<(Seq<u8>, Option<u64>)>) -> bool {
    forall|i: int|
        0 <= i < es.len() ==> match (#[trigger] es[i]).1 {
            Some(t) => t <= MAX_UTC_SECS,
            None => true,
        }
}

/// One audit line of the message: the repo path, and when known, the
/// external modification time it was copied from.
pub open spec fn spec_commit_line(e: (Seq<u8>, Option<u64>)) -> Seq<u8> {
    match e.1 {
        None => lit_item() + e.0,
        Some(t) => lit_item() + e.0 + lit_modified() + utc_display_of(t as int)
            + lit_close_paren(),
    }
}

/// The audit lines, one per entry, joined by newlines.
pub open spec fn spec_commit_lines(es: Seq<(Seq<u8>, Option<u64>)>) -> Seq<u8>
    decreases es.len(),
{
    if es.len() == 0 {
        Seq::empty()
    } else if es.len() == 1 {
        spec_commit_line(es[0])
    } else {
        spec_commit_line(es[0]) + seq![NEWLINE] + spec_commit_lines(es.skip(1))
    }
}

/// The whole message: the fixed template around the count and the lines.
pub open spec fn spec_commit_message(es: Seq<(Seq<u8>, Option<u64>)>) -> Seq<u8> {
    lit_update() + dec_digits(es.len()) + lit_file() + (if es.len() == 1 {
        Seq::<u8>::empty()
    } else {
        lit_plural()
    }) + lit_from_remote() + spec_commit_lines(es)
}

fn write_commit_line(out: &mut Vec<u8>, e: &(Vec<u8>, Option<u64>))
    requires
        match e.1 {
            Some(t) => t <= MAX_UTC_SECS,
            None => true,
        },
    ensures
        final(out)@ == old(out)@ + spec_commit_line((e.0@, e.1)),
{
    let ghost base = out@;
    let t = lit_item_vec();
    out.extend_from_slice(t.as_slice());
    out.extend_from_slice(e.0.as_slice());
    match e.1 {
        None => {
            assert(out@ =~= base + spec_commit_line((e.0@, e.1)));
        },
        Some(mtime) => {
            let t = lit_modified_vec();
            out.extend_from_slice(t.as_slice());
            let stamp = format_utc_timestamp(mtime);
            out.extend_from_slice(stamp.as_slice());
            let t = lit_close_paren_vec();
            out.extend_from_slice(t.as_slice());
            assert(out@ =~= base + spec_commit_line((e.0@, e.1)));
        },
    }
}

fn write_commit_lines_from(out: &mut Vec<u8>, es: &Vec<(Vec<u8>, Option<u64>)>, i: usize)
    requires
        i <= es@.len(),
        mtimes_in_range(entries_view(es@)),
    ensures
        final(out)@ == old(out)@ + spec_commit_lines(entries_view(es@).skip(i as int)),
    decreases es@.len() - i,
{
    let ghost base = out@;
    let ghost tail = entries_view(es@).skip(i as int);
    if i >= es.len() {
        proof {
            assert(tail =~= Seq::<(Seq<u8>, Option<u64>)>::empty());
            assert(out@ =~= base + spec_commit_lines(tail));
        }
        return ;
    }
    proof {
        assert(tail[0] == entries_view(es@)[i as int]);
        assert(tail.skip(1) =~= entries_view(es@).skip(i as int + 1));
    }
    write_commit_line(out, &es[i]);
    if i + 1 < es.len() {
        out.push(NEWLINE);
        write_commit_lines_from(out, es, i + 1);
        assert(out@ =~= base + spec_commit_lines(tail));
    } else {
        proof {
            assert(tail.len() == 1);
            assert(out@ =~= base + spec_commit_lines(tail));
        }
    }
}

/// The commit command.
pub struct Commit;

/// A user-supplied commit message, for committing by hand.
pub struct CommitArgs {
    pub msg: Vec<u8>,
}

impl CommitArgs {
    pub fn new(msg: Vec<u8>) -> (a: CommitArgs)
        ensures
            a.msg@ == msg@,
    {
        CommitArgs { msg }
    }
}

/// What the version-control collaborator is asked to do: stage exactly these
/// repo-relative paths and commit them under this message.
pub struct CommitRequest {
    pub paths: Vec<Vec<u8>>,
    pub message: Vec<u8>,
}

impl Commit {
    /// Batches the paths one operation touched.  `None` is "nothing to do":
    /// no commit is attempted for an empty batch.  Otherwise the request
    /// stages exactly the touched paths, under the templated audit message.
    pub fn batch(touched: &Vec<(Vec<u8>, Option<u64>)>) -> (r: Option<CommitRequest>)
        requires
            mtimes_in_range(entries_view(touched@)),
        ensures
            match r {
                None => touched@.len() == 0,
                Some(req) => {
                    &&& touched@.len() > 0
                    &&& req.paths@.len() == touched@.len()
                    &&& forall|i: int|
                        0 <= i < touched@.len() ==> (#[trigger] req.paths@[i])@
                            == touched@[i].0@
                    &&& req.message@ == spec_commit_message(entries_view(touched@))
                },
            },
    {
        if touched.len() == 0 {
            return None;
        }
        let mut paths: Vec<Vec<u8>> = Vec::new();
        let mut i: usize = 0;
        while i < touched.len()
            invariant
                i <= touched@.len(),
                paths@.len() == i,
                forall|j: int|
                    0 <= j < i ==> (#[trigger] paths@[j])@ == touched@[j].0@,
            decreases touched@.len() - i,
        {
            paths.push(crate::store::clone_bytes(&touched[i].0));
            i = i + 1;
        }
        let mut message: Vec<u8> = Vec::new();
        let t = lit_update_vec();
        message.extend_from_slice(t.as_slice());
        write_u64(&mut message, touched.len() as u64);
        let t = lit_file_vec();
        message.extend_from_slice(t.as_slice());
        if touched.len() != 1 {
            let t = lit_plural_vec();
            message.extend_from_slice(t.as_slice());
        }
        let t = lit_from_remote_vec();
        message.extend_from_slice(t.as_slice());
        proof {
            assert(entries_view(touched@).skip(0) =~= entries_view(touched@));
        }
        write_commit_lines_from(&mut message, touched, 0);
        proof {
            assert(touched.len() as u64 as nat == entries_view(touched@).len());
            assert(message@ =~= spec_commit_message(entries_view(touched@)));
        }
        Some(CommitRequest { paths, message })
    }
}

} // verus!
