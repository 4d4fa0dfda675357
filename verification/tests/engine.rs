use sggit::args::{expand_tilde_path, trim_bytes, AddArgs, InitArgs, ProxyArgs, TrackArgs, UntrackArgs};
use sggit::commit::{Commit, CommitRequest};
use sggit::copy::{plan_copies, src_dst_to_dst_src, CopyStep, Direction};
use sggit::platform_setting::PlatformConfig;
use sggit::store::RepoConfig;
use sggit::sync_rule::{Sync, SyncDecision};

#[test]
fn test_identity_pair_is_skipped_without_any_write() {
    // the artifact's repo path and real path coincide: planner emits a skip
    let pairs = vec![(b"/repo/x.txt".to_vec(), b"x.txt".to_vec())];
    let plan = plan_copies(&pairs, &b"/repo".to_vec(), Direction::ToRepo, &vec![true]);
    assert_eq!(plan.len(), 1);
    match &plan[0] {
        CopyStep::SkipIdentity { path } => assert_eq!(path, &b"/repo/x.txt".to_vec()),
        _ => panic!("identity pair must be skipped"),
    }
}

#[test]
fn test_missing_source_is_reported_and_batch_continues() {
    let pairs = vec![
        (b"/h/a".to_vec(), b"a.txt".to_vec()),
        (b"/h/b".to_vec(), b"b.txt".to_vec()),
    ];
    let plan = plan_copies(&pairs, &b"/repo".to_vec(), Direction::ToRepo, &vec![false, true]);
    assert_eq!(plan.len(), 2);
    match &plan[0] {
        CopyStep::MissingSource { src } => assert_eq!(src, &b"/h/a".to_vec()),
        _ => panic!("missing source must be reported"),
    }
    match &plan[1] {
        CopyStep::CopyFile { src, dst, dst_parent } => {
            assert_eq!(src, &b"/h/b".to_vec());
            assert_eq!(dst, &b"/repo/b.txt".to_vec());
            assert_eq!(dst_parent, &Some(b"/repo".to_vec()));
        },
        _ => panic!("present source must be copied"),
    }
}

#[test]
fn test_from_repo_direction_swaps_source_and_destination() {
    let pairs = vec![(b"/h/nested/a".to_vec(), b"dir/a.txt".to_vec())];
    let plan = plan_copies(&pairs, &b"/repo".to_vec(), Direction::FromRepo, &vec![true]);
    match &plan[0] {
        CopyStep::CopyFile { src, dst, dst_parent } => {
            assert_eq!(src, &b"/repo/dir/a.txt".to_vec());
            assert_eq!(dst, &b"/h/nested/a".to_vec());
            assert_eq!(dst_parent, &Some(b"/h/nested".to_vec()));
        },
        _ => panic!("expected a copy"),
    }
}

#[test]
fn test_src_dst_to_dst_src() {
    let pairs = vec![
        (b"a".to_vec(), b"b".to_vec()),
        (b"c".to_vec(), b"d".to_vec()),
    ];
    let swapped = src_dst_to_dst_src(&pairs);
    assert_eq!(
        swapped,
        vec![(b"b".to_vec(), b"a".to_vec()), (b"d".to_vec(), b"c".to_vec())]
    );
}

#[test]
fn test_sync_decision_copies_iff_external_strictly_newer() {
    assert_eq!(Sync::decide(Some(100), Some(101)), SyncDecision::CopyToExternal);
    assert_eq!(Sync::decide(Some(100), Some(100)), SyncDecision::Skip);
    assert_eq!(Sync::decide(Some(100), Some(99)), SyncDecision::Skip);
    assert_eq!(Sync::decide(Some(100), None), SyncDecision::CopyToExternal);
    assert_eq!(Sync::decide(None, Some(100)), SyncDecision::Skip);
    assert_eq!(Sync::decide(None, None), SyncDecision::Skip);
}

#[test]
fn test_commit_batch_empty_is_nothing_to_do() {
    let touched: Vec<(Vec<u8>, Option<u64>)> = vec![];
    assert!(Commit::batch(&touched).is_none());
}

#[test]
fn test_commit_batch_one_file_message() {
    let touched = vec![(b"x.txt".to_vec(), Some(0u64))];
    let req: CommitRequest = Commit::batch(&touched).unwrap();
    assert_eq!(req.paths, vec![b"x.txt".to_vec()]);
    let expect: &[u8] =
        b"Update 1 file from remote locations\n\n- x.txt (modified: 1970-01-01 00:00:00 UTC)";
    assert_eq!(String::from_utf8(req.message).unwrap(), String::from_utf8(expect.to_vec()).unwrap());
}

#[test]
fn test_commit_batch_two_files_pluralizes_and_joins_lines() {
    let touched = vec![
        (b"a.txt".to_vec(), None),
        (b"b.txt".to_vec(), Some(1431648000u64)),
    ];
    let req = Commit::batch(&touched).unwrap();
    assert_eq!(req.paths, vec![b"a.txt".to_vec(), b"b.txt".to_vec()]);
    let expect: &[u8] = b"Update 2 files from remote locations\n\n- a.txt\n- b.txt (modified: 2015-05-15 00:00:00 UTC)";
    assert_eq!(req.message, expect.to_vec());
}

#[test]
fn test_proxy_split_args() {
    let args = ProxyArgs::new(b"log --oneline -1".to_vec());
    assert_eq!(
        args.split_args(),
        vec![b"log".to_vec(), b"--oneline".to_vec(), b"-1".to_vec()]
    );
    let doubled = ProxyArgs::new(b"a  b".to_vec());
    assert_eq!(doubled.split_args(), vec![b"a".to_vec(), b"".to_vec(), b"b".to_vec()]);
    let empty = ProxyArgs::new(b"".to_vec());
    assert_eq!(empty.split_args(), vec![b"".to_vec()]);
}

#[test]
fn test_expand_tilde_path() {
    assert_eq!(expand_tilde_path(&b"/abs/path".to_vec()), b"/abs/path".to_vec());
    assert_eq!(expand_tilde_path(&b"rel/path".to_vec()), b"rel/path".to_vec());
    // the argument is trimmed before expansion
    assert_eq!(expand_tilde_path(&b"  /abs/path \n".to_vec()), b"/abs/path".to_vec());
    let expanded = expand_tilde_path(&b"~/x".to_vec());
    assert_ne!(expanded, b"~/x".to_vec());
    assert!(expanded.ends_with(b"/x"));
    // padding does not defeat the expansion of a leading tilde
    assert_eq!(expand_tilde_path(&b" ~/x ".to_vec()), expanded);
}

#[test]
fn test_trim_bytes() {
    assert_eq!(trim_bytes(&b" \t a b \r\n".to_vec()), b"a b".to_vec());
    assert_eq!(trim_bytes(&b"ab".to_vec()), b"ab".to_vec());
    assert_eq!(trim_bytes(&b"   ".to_vec()), b"".to_vec());
    assert_eq!(trim_bytes(&b"".to_vec()), b"".to_vec());
}

#[test]
fn test_argument_constructors() {
    let a = AddArgs::new(b"/h/x".to_vec(), b"x".to_vec());
    assert_eq!(a.path, b"/h/x".to_vec());
    assert_eq!(a.repo_path, b"x".to_vec());
    let t = TrackArgs::new(b" /h/x ".to_vec(), b"repo/x\n".to_vec());
    assert_eq!(t.track_path, b"/h/x".to_vec());
    assert_eq!(t.repo_path, b"repo/x".to_vec());
    let i = InitArgs::new(b"linux".to_vec(), b" /repo ".to_vec());
    assert_eq!(i.platform_name, b"linux".to_vec());
    assert_eq!(i.repo_path, b"/repo".to_vec());
    let u = UntrackArgs::new(b" x ".to_vec());
    assert_eq!(u.repo_path, b"x".to_vec());
}

#[test]
fn test_end_to_end_track_update_sync() {
    // the whole pipeline on an in-memory picture of the filesystem:
    // one real file, tracked, pulled into the repo, then synced back out
    let platform = b"linux".to_vec();
    let pc = PlatformConfig::new(platform.clone(), b"/repo".to_vec());

    // the external file and the repo copy: (content, mtime)
    let mut external: Option<(Vec<u8>, u64)> = Some((b"Hello".to_vec(), 100));
    let mut repo_copy: Option<(Vec<u8>, u64)> = None;

    // track /tmp/a/x.txt under x.txt
    let mut cfg = RepoConfig::new_empty();
    let name = cfg.add_file(platform.clone(), b"/tmp/a/x.txt".to_vec()).unwrap();
    assert_eq!(name, b"x.txt".to_vec());

    // update: pull the real file into the repository, then commit the batch
    let plan = cfg.copy_files_to_repo(&pc, &vec![external.is_some()]);
    let mut touched: Vec<(Vec<u8>, Option<u64>)> = vec![];
    for step in &plan {
        match step {
            CopyStep::CopyFile { src, dst, .. } => {
                assert_eq!(src, &b"/tmp/a/x.txt".to_vec());
                assert_eq!(dst, &b"/repo/x.txt".to_vec());
                let (content, mtime) = external.clone().unwrap();
                repo_copy = Some((content, 110));
                touched.push((b"x.txt".to_vec(), Some(mtime)));
            },
            _ => panic!("update must copy the tracked file"),
        }
    }
    assert_eq!(repo_copy.as_ref().unwrap().0, b"Hello".to_vec());
    let req = Commit::batch(&touched).unwrap();
    assert_eq!(req.paths, vec![b"x.txt".to_vec()]);
    let msg = String::from_utf8(req.message).unwrap();
    assert!(msg.contains("x.txt"));
    assert!(msg.starts_with("Update 1 file from remote locations"));

    // the repo copy is edited ("World"), the external file left untouched:
    // sync must not copy, the external file is not newer
    repo_copy = Some((b"World".to_vec(), 120));
    let d = Sync::decide(
        repo_copy.as_ref().map(|c| c.1),
        external.as_ref().map(|c| c.1),
    );
    assert_eq!(d, SyncDecision::Skip);
    assert_eq!(external.as_ref().unwrap().0, b"Hello".to_vec());

    // the external file's mtime advances past the repo copy's: sync copies
    external = Some((b"Hello".to_vec(), 130));
    let d = Sync::decide(
        repo_copy.as_ref().map(|c| c.1),
        external.as_ref().map(|c| c.1),
    );
    assert_eq!(d, SyncDecision::CopyToExternal);
    let plan = cfg.copy_files_from_repo(&pc, &vec![repo_copy.is_some()]);
    for step in &plan {
        match step {
            CopyStep::CopyFile { src, dst, .. } => {
                assert_eq!(src, &b"/repo/x.txt".to_vec());
                assert_eq!(dst, &b"/tmp/a/x.txt".to_vec());
                let (content, _) = repo_copy.clone().unwrap();
                external = Some((content, 140));
            },
            _ => panic!("sync must copy the repo file outward"),
        }
    }
    assert_eq!(external.unwrap().0, b"World".to_vec());
    let t = cfg.stamp_last_synced(&b"x.txt".to_vec(), &platform);
    let text = String::from_utf8(cfg.serialize()).unwrap();
    assert!(text.contains(&format!("\"last_synced\":{}", t)));
}
