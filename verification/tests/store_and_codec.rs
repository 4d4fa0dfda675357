use sggit::paths::{basename, check_repo_path, file_name, parent_dir, path_join};
use sggit::platform_setting::PlatformConfig;
use sggit::store::{FileDescriptor, Platform, RepoConfig, StoreError};

fn store_with(entries: &[(&[u8], &[u8], &[u8])]) -> RepoConfig {
    let mut cfg = RepoConfig::new_empty();
    for (rp, plat, real) in entries {
        cfg.add_binding(rp.to_vec(), plat.to_vec(), real.to_vec()).unwrap();
    }
    cfg
}

#[test]
fn test_path_policy() {
    assert!(check_repo_path(&b"x.txt".to_vec()));
    assert!(check_repo_path(&b"a/b/c".to_vec()));
    assert!(check_repo_path(&b"a/../b".to_vec()));
    assert!(check_repo_path(&b"./a".to_vec()));
    assert!(!check_repo_path(&b"".to_vec()));
    assert!(!check_repo_path(&b"/etc/passwd".to_vec()));
    assert!(!check_repo_path(&b"..".to_vec()));
    assert!(!check_repo_path(&b"a/..".to_vec()));
    assert!(!check_repo_path(&b"a/../../b".to_vec()));
    assert!(!check_repo_path(&b"../a".to_vec()));
    assert!(!check_repo_path(&b".".to_vec()));
}

#[test]
fn test_path_helpers() {
    assert_eq!(path_join(&b"/repo".to_vec(), &b"x.txt".to_vec()), b"/repo/x.txt".to_vec());
    assert_eq!(path_join(&b"/repo".to_vec(), &b"/abs".to_vec()), b"/abs".to_vec());
    assert_eq!(basename(&b"/tmp/a/x.txt".to_vec()), b"x.txt".to_vec());
    assert_eq!(basename(&b"plain".to_vec()), b"plain".to_vec());
    assert_eq!(basename(&b"dir/".to_vec()), b"".to_vec());
    assert_eq!(parent_dir(&b"/tmp/a/x.txt".to_vec()), Some(b"/tmp/a".to_vec()));
    assert_eq!(parent_dir(&b"/x".to_vec()), Some(b"/".to_vec()));
    assert_eq!(parent_dir(&b"plain".to_vec()), None);
    assert_eq!(file_name(&b"/tmp/a/x.txt".to_vec()), b"x.txt".to_vec());
    assert_eq!(file_name(&b"/tmp/dir///".to_vec()), b"dir".to_vec());
    assert_eq!(file_name(&b"///".to_vec()), b"".to_vec());
}

#[test]
fn test_add_binding_rejects_absolute_repo_path_before_any_io() {
    let mut cfg = RepoConfig::new_empty();
    let before = cfg.serialize();
    let r = cfg.add_binding(b"/etc/passwd".to_vec(), b"linux".to_vec(), b"/etc/passwd".to_vec());
    assert_eq!(r, Err(StoreError::PathPolicy));
    assert_eq!(cfg.serialize(), before);
}

#[test]
fn test_add_binding_conflict_is_rejected_not_overwritten() {
    let mut cfg = store_with(&[(b"x.txt", b"linux", b"/home/u/x.txt")]);
    let before = cfg.serialize();
    let r = cfg.add_binding(b"x.txt".to_vec(), b"linux".to_vec(), b"/elsewhere/x.txt".to_vec());
    assert_eq!(r, Err(StoreError::Conflict));
    assert_eq!(cfg.serialize(), before);
}

#[test]
fn test_add_binding_same_artifact_new_platform() {
    let mut cfg = store_with(&[(b"x.txt", b"linux", b"/home/u/x.txt")]);
    cfg.add_binding(b"x.txt".to_vec(), b"macos".to_vec(), b"/Users/u/x.txt".to_vec()).unwrap();
    let lin = cfg.get_src_dst_all_files(&b"linux".to_vec());
    assert_eq!(lin, vec![(b"/home/u/x.txt".to_vec(), b"x.txt".to_vec())]);
    let mac = cfg.get_src_dst_all_files(&b"macos".to_vec());
    assert_eq!(mac, vec![(b"/Users/u/x.txt".to_vec(), b"x.txt".to_vec())]);
}

#[test]
fn test_resolve_skips_artifacts_without_binding_and_keeps_order() {
    let cfg = store_with(&[
        (b"a.txt", b"linux", b"/h/a"),
        (b"b.txt", b"macos", b"/m/b"),
        (b"c.txt", b"linux", b"/h/c"),
    ]);
    let pairs = cfg.get_src_dst_all_files(&b"linux".to_vec());
    assert_eq!(
        pairs,
        vec![
            (b"/h/a".to_vec(), b"a.txt".to_vec()),
            (b"/h/c".to_vec(), b"c.txt".to_vec()),
        ]
    );
    assert_eq!(cfg.get_src_dst_all_files(&b"windows".to_vec()), vec![]);
}

#[test]
fn test_remove_binding() {
    let mut cfg = store_with(&[(b"x.txt", b"linux", b"/h/x")]);
    assert_eq!(cfg.remove_file_from_repo_config(&b"missing".to_vec()), Err(StoreError::NotFound));
    assert_eq!(cfg.remove_file_from_repo_config(&b"x.txt".to_vec()), Ok(()));
    assert_eq!(cfg.get_src_dst_all_files(&b"linux".to_vec()), vec![]);
    assert_eq!(cfg.remove_file_desc_by_path(&b"x.txt".to_vec()), Err(StoreError::NotFound));
}

#[test]
fn test_add_file_tracks_under_file_name() {
    let mut cfg = RepoConfig::new_empty();
    let name = cfg.add_file(b"linux".to_vec(), b"/tmp/a/x.txt".to_vec()).unwrap();
    assert_eq!(name, b"x.txt".to_vec());
    let pairs = cfg.get_src_dst_all_files(&b"linux".to_vec());
    assert_eq!(pairs, vec![(b"/tmp/a/x.txt".to_vec(), b"x.txt".to_vec())]);
    // trailing slashes are ignored when the file name is derived
    let name = cfg.add_file(b"linux".to_vec(), b"/tmp/dir/".to_vec()).unwrap();
    assert_eq!(name, b"dir".to_vec());
    // a path with no file name at all cannot be tracked
    let r = cfg.add_file(b"linux".to_vec(), b"/".to_vec());
    assert_eq!(r, Err(StoreError::PathPolicy));
    let r = cfg.add_file(b"linux".to_vec(), b"".to_vec());
    assert_eq!(r, Err(StoreError::PathPolicy));
}

#[test]
fn test_serialize_empty_store() {
    let cfg = RepoConfig::new_empty();
    assert_eq!(cfg.serialize(), b"{\"files\":[]}".to_vec());
}

#[test]
fn test_serialize_one_binding_exact_document() {
    let cfg = store_with(&[(b"x.txt", b"linux", b"/h/x.txt")]);
    let expect: &[u8] = b"{\"files\":[{\"path_in_repo\":\"x.txt\",\"platforms\":[{\"name\":\"linux\",\"path\":\"/h/x.txt\",\"last_synced\":null}]}]}";
    assert_eq!(cfg.serialize(), expect.to_vec());
}

#[test]
fn test_add_binding_then_load_round_trip() {
    // the triple survives saving and loading: the store parses back and the
    // platform still resolves to the real path that was bound
    let mut cfg = RepoConfig::new_empty();
    cfg.add_binding(b"x.txt".to_vec(), b"linux".to_vec(), b"/h/x.txt".to_vec()).unwrap();
    let bytes = cfg.serialize();
    let loaded = RepoConfig::parse_repo_config(&bytes).unwrap();
    assert_eq!(loaded.serialize(), bytes);
    let pairs = loaded.get_src_dst_all_files(&b"linux".to_vec());
    assert_eq!(pairs, vec![(b"/h/x.txt".to_vec(), b"x.txt".to_vec())]);
}

#[test]
fn test_round_trip_with_escapes_and_many_entries() {
    let cfg = store_with(&[
        (b"weird\"name", b"li\\nux", b"/h/with\"quote"),
        (b"b.txt", b"macos", b"/m/b"),
        (b"c.txt", b"li\\nux", b"/h/c"),
    ]);
    let bytes = cfg.serialize();
    let loaded = RepoConfig::parse_repo_config(&bytes).unwrap();
    assert_eq!(loaded.serialize(), bytes);
    let pairs = loaded.get_src_dst_all_files(&b"li\\nux".to_vec());
    assert_eq!(
        pairs,
        vec![
            (b"/h/with\"quote".to_vec(), b"weird\"name".to_vec()),
            (b"/h/c".to_vec(), b"c.txt".to_vec()),
        ]
    );
}

#[test]
fn test_round_trip_with_last_synced() {
    let mut cfg = store_with(&[(b"x.txt", b"linux", b"/h/x")]);
    let t = cfg.stamp_last_synced(&b"x.txt".to_vec(), &b"linux".to_vec());
    let bytes = cfg.serialize();
    let tag = format!("\"last_synced\":{}", t);
    let text = String::from_utf8(bytes.clone()).unwrap();
    assert!(text.contains(&tag));
    let loaded = RepoConfig::parse_repo_config(&bytes).unwrap();
    assert_eq!(loaded.serialize(), bytes);
}

#[test]
fn test_parse_rejects_malformed_documents() {
    assert!(RepoConfig::parse_repo_config(&b"".to_vec()).is_err());
    assert!(RepoConfig::parse_repo_config(&b"not json".to_vec()).is_err());
    assert!(RepoConfig::parse_repo_config(&b"{\"files\":[".to_vec()).is_err());
    assert!(RepoConfig::parse_repo_config(&b"{\"files\":[]} ".to_vec()).is_err());
    assert!(RepoConfig::parse_repo_config(&b"{\"files\":{}}".to_vec()).is_err());
    let bad_escape: &[u8] = b"{\"files\":[{\"path_in_repo\":\"x\\q\",\"platforms\":[]}]}";
    assert!(RepoConfig::parse_repo_config(&bad_escape.to_vec()).is_err());
}

#[test]
fn test_parse_exact_document() {
    let doc: &[u8] = b"{\"files\":[{\"path_in_repo\":\"x.txt\",\"platforms\":[{\"name\":\"linux\",\"path\":\"/h/x.txt\",\"last_synced\":7},{\"name\":\"macos\",\"path\":\"/m/x\",\"last_synced\":null}]}]}";
    let loaded = RepoConfig::parse_repo_config(&doc.to_vec()).unwrap();
    assert_eq!(loaded.serialize(), doc.to_vec());
    assert_eq!(
        loaded.get_src_dst_all_files(&b"macos".to_vec()),
        vec![(b"/m/x".to_vec(), b"x.txt".to_vec())]
    );
}

#[test]
fn test_platform_config_round_trip() {
    let pc = PlatformConfig::new(b"linux".to_vec(), b"/repo".to_vec());
    let bytes = pc.serialize();
    assert_eq!(bytes, b"{\"platform\":\"linux\",\"repo_path\":\"/repo\"}".to_vec());
    let loaded = PlatformConfig::parse_platform_config(&bytes).unwrap();
    assert_eq!(loaded.get_platform(), &b"linux".to_vec());
    assert_eq!(loaded.get_repo_path(), &b"/repo".to_vec());
    assert!(PlatformConfig::parse_platform_config(&b"{}".to_vec()).is_err());
}

#[test]
fn test_create_initial_repo_config() {
    let pc = PlatformConfig::new(b"linux".to_vec(), b"/repo".to_vec());
    let cfg = RepoConfig::create_initial_repo_config(&pc, &b"/root/.sggit.json".to_vec());
    let pairs = cfg.get_src_dst_all_files(&b"linux".to_vec());
    assert_eq!(
        pairs,
        vec![
            (b"/root/.sggit.json".to_vec(), b"linux_only/sggit.json".to_vec()),
            (b"/repo/repo_config.json".to_vec(), b"repo_config.json".to_vec()),
        ]
    );
    let bytes = cfg.serialize();
    let loaded = RepoConfig::parse_repo_config(&bytes).unwrap();
    assert_eq!(loaded.serialize(), bytes);
}

#[test]
fn test_append_file_and_constructors() {
    let mut cfg = RepoConfig::new_empty();
    let fd = FileDescriptor::new(
        b"x.txt".to_vec(),
        vec![Platform::new(b"linux".to_vec(), b"/h/x".to_vec())],
    );
    cfg.append_file(fd);
    assert_eq!(
        cfg.get_src_dst_all_files(&b"linux".to_vec()),
        vec![(b"/h/x".to_vec(), b"x.txt".to_vec())]
    );
}

#[test]
fn test_round_trip_largest_last_synced() {
    let doc: &[u8] = b"{\"files\":[{\"path_in_repo\":\"x\",\"platforms\":[{\"name\":\"l\",\"path\":\"/x\",\"last_synced\":18446744073709551615}]}]}";
    let loaded = RepoConfig::parse_repo_config(&doc.to_vec()).unwrap();
    assert_eq!(loaded.serialize(), doc.to_vec());
}

#[test]
fn test_parse_rejects_last_synced_overflow() {
    let doc: &[u8] = b"{\"files\":[{\"path_in_repo\":\"x\",\"platforms\":[{\"name\":\"l\",\"path\":\"/x\",\"last_synced\":18446744073709551616}]}]}";
    assert!(RepoConfig::parse_repo_config(&doc.to_vec()).is_err());
}
