use taproot::engine::StateEngine;
use taproot::error::TaprootError;
use taproot::mount::{
    check_mountpoint, extract_env_drift, file_attr, is_safe_filename, outcome_from_journal,
    parse_env, FsError, MountTarget, NodeKind, TaprootFS, ROOT_INO,
};
use taproot::state::{SignedState, TaprootState};

fn sample_signed() -> SignedState {
    let state = TaprootState::new("myapp", "main", "abc123")
        .with_runtime("python", "3.11.4")
        .with_env("FOO", "bar")
        .with_container("postgres", "15.3", "postgres:15.3");
    let hash = StateEngine::hash(&state).unwrap();
    SignedState {
        state,
        hash,
        signature: None,
        public_key: None,
    }
}

fn mounted(signed: &SignedState) -> TaprootFS {
    TaprootFS::new(signed, "{}")
}

#[test]
fn inode_table_has_expected_files() {
    let signed = sample_signed();
    let fs = mounted(&signed);
    assert!(fs.inode_count() >= 8);
    assert!(fs.lookup_ino(ROOT_INO, "state.json").is_some());
    assert!(fs.lookup_ino(ROOT_INO, "README.taproot").is_some());
    assert!(fs.lookup_ino(ROOT_INO, "env").is_some());
    assert!(fs.lookup_ino(ROOT_INO, "hash").is_some());
    assert!(fs.lookup_ino(ROOT_INO, "runtimes").is_some());
    assert!(fs.lookup_ino(ROOT_INO, "containers").is_some());
}

#[test]
fn file_content_correct() {
    let signed = sample_signed();
    let fs = mounted(&signed);
    let ino = fs.lookup_ino(ROOT_INO, "env").unwrap();
    let inode = fs.get_inode(ino).unwrap();
    let text = String::from_utf8_lossy(&inode.data);
    assert!(text.contains("FOO=bar"));

    let ino2 = fs.lookup_ino(ROOT_INO, "hash").unwrap();
    let inode2 = fs.get_inode(ino2).unwrap();
    assert_eq!(String::from_utf8_lossy(&inode2.data), signed.hash);
}

#[test]
fn per_runtime_container_files() {
    let signed = sample_signed();
    let fs = mounted(&signed);
    let runtimes = fs.lookup_ino(ROOT_INO, "runtimes").unwrap();
    assert!(fs.lookup_ino(runtimes, "python.txt").is_some());
    let containers = fs.lookup_ino(ROOT_INO, "containers").unwrap();
    assert!(fs.lookup_ino(containers, "postgres.txt").is_some());
}

#[test]
fn getattr_root_is_dir() {
    let signed = sample_signed();
    let fs = mounted(&signed);
    let attr = fs.getattr_for(ROOT_INO).unwrap();
    assert_eq!(attr.kind, NodeKind::Directory);
    assert_eq!(attr.perm, 0o555);
}

#[test]
fn env_is_writable_others_are_not() {
    let signed = sample_signed();
    let mut fs = mounted(&signed);
    let env_ino = fs.lookup_ino(ROOT_INO, "env").unwrap();
    let state_ino = fs.lookup_ino(ROOT_INO, "state.json").unwrap();

    assert_eq!(fs.getattr_for(env_ino).unwrap().perm, 0o644);
    assert_eq!(fs.getattr_for(state_ino).unwrap().perm, 0o444);

    // env accepts writes
    let n = fs.apply_write(env_ino, 0, b"FOO=baz\n").unwrap();
    assert_eq!(n, 8);
    // state.json rejects writes
    assert_eq!(fs.apply_write(state_ino, 0, b"x"), Err(FsError::ReadOnly));
}

#[test]
fn env_write_updates_journal_and_drift_extracts() {
    let signed = sample_signed();
    let mut fs = mounted(&signed);
    let env_ino = fs.lookup_ino(ROOT_INO, "env").unwrap();

    // rewrite whole file via truncate + write
    fs.apply_truncate(env_ino, 0).unwrap();
    fs.apply_write(env_ino, 0, b"FOO=baz\nNEW=1\n").unwrap();

    let j = fs.journal();
    assert!(j.drifted());
    let drift = extract_env_drift(&signed, &j.env_data).unwrap();
    assert_eq!(drift.state.env_vars.get("FOO").unwrap(), "baz");
    assert_eq!(drift.state.env_vars.get("NEW").unwrap(), "1");
    assert!(drift.signature.is_none());
    assert_ne!(drift.hash, signed.hash);
    // untouched fields survive
    assert_eq!(drift.state.runtimes, signed.state.runtimes);
}

#[test]
fn identical_env_rewrite_is_not_drift() {
    let signed = sample_signed();
    let mut fs = mounted(&signed);
    let env_ino = fs.lookup_ino(ROOT_INO, "env").unwrap();
    // rewrite the exact original content
    let original: Vec<u8> = fs
        .get_inode(env_ino)
        .map(|i| i.data.clone())
        .unwrap_or_default();
    fs.apply_truncate(env_ino, 0).unwrap();
    fs.apply_write(env_ino, 0, &original).unwrap();
    assert!(!fs.journal().drifted());
}

#[test]
fn parse_env_rejects_malformed_lines() {
    assert!(parse_env("A=1\nB=2\n").is_ok());
    assert!(parse_env("\n\nA=1\n").is_ok());
    assert!(parse_env("=1\n").is_err());
    assert!(parse_env("JUSTKEY\n").is_err());
    // value may contain '='
    let m = parse_env("URL=http://x?a=b\n").unwrap();
    assert_eq!(m.get("URL").unwrap(), "http://x?a=b");
}

#[test]
fn parse_env_messages_name_the_line() {
    assert_eq!(
        parse_env("A=1\nJUSTKEY\n").unwrap_err(),
        TaprootError::Mount("malformed env line 2: expected key=value".to_string())
    );
    assert_eq!(
        parse_env("  =1").unwrap_err(),
        TaprootError::Mount("malformed env line 1: empty key".to_string())
    );
    let m = parse_env(" K =v \r\nK2=x\r\n\r\n").unwrap();
    assert_eq!(m.get("K").unwrap(), "v ");
    assert_eq!(m.get("K2").unwrap(), "x");
    let later = parse_env("A=1\nA=2\n").unwrap();
    assert_eq!(later.get("A").unwrap(), "2");
    assert_eq!(later.len(), 1);
}

#[test]
fn outcome_preserves_unparseable_env_as_raw_bytes() {
    let signed = sample_signed();
    let mut fs = mounted(&signed);
    let env_ino = fs.lookup_ino(ROOT_INO, "env").unwrap();
    // binary garbage with no newline and no '='
    fs.apply_truncate(env_ino, 0).unwrap();
    fs.apply_write(env_ino, 0, &[0xFF, 0xFE, 0x00, 0x01]).unwrap();

    let outcome = outcome_from_journal(fs.journal(), &signed);
    assert!(outcome.drift.is_none());
    assert!(outcome.raw_env.is_some());
    assert!(outcome.parse_error.is_some());
    assert_eq!(
        outcome.raw_env.as_deref().unwrap(),
        &[0xFF, 0xFE, 0x00, 0x01]
    );

    // clean journal → no drift, no raw
    let fs2 = mounted(&signed);
    let outcome2 = outcome_from_journal(fs2.journal(), &signed);
    assert!(outcome2.drift.is_none());
    assert!(outcome2.raw_env.is_none());
    assert!(outcome2.parse_error.is_none());
}

#[test]
fn mount_readonly_errors_on_missing_path() {
    let missing = check_mountpoint(
        &MountTarget::Missing("No such file or directory (os error 2)".to_string()),
        "/tmp/does-not-exist-taproot-test-xyz",
    );
    assert_eq!(
        missing,
        Err(TaprootError::Mount(
            "mountpoint does not exist: /tmp/does-not-exist-taproot-test-xyz: No such file or directory (os error 2)".to_string()
        ))
    );
    assert!(matches!(check_mountpoint(&MountTarget::Symlink, "/l"), Err(TaprootError::Mount(_))));
    assert!(matches!(check_mountpoint(&MountTarget::NotDirectory, "/f"), Err(TaprootError::Mount(_))));
    assert_eq!(check_mountpoint(&MountTarget::Directory, "/d"), Ok(()));
    assert_eq!(check_mountpoint(&MountTarget::NonEmptyDirectory, "/d"), Ok(()));
}

#[test]
fn tree_layout_and_contents() {
    let signed = sample_signed();
    let fs = mounted(&signed);
    assert_eq!(fs.inode_count(), 10);
    assert_eq!(fs.lookup_ino(ROOT_INO, "env"), Some(4));
    let readme = fs.get_inode(2).unwrap();
    let text = String::from_utf8(readme.data.clone()).unwrap();
    assert!(text.starts_with("taproot mount\n=============\nrepo: myapp  branch: main  commit: abc123\nstate: unsigned  sha256:"));
    assert!(text.contains("runtimes: 1  containers: 1  env-vars: 1\n"));
    let runtimes = fs.lookup_ino(ROOT_INO, "runtimes").unwrap();
    let py = fs.lookup_ino(runtimes, "python.txt").unwrap();
    assert_eq!(
        fs.get_inode(py).unwrap().data,
        b"name: python\nversion: 3.11.4\npinned: true\n".to_vec()
    );
    let containers = fs.lookup_ino(ROOT_INO, "containers").unwrap();
    let pg = fs.lookup_ino(containers, "postgres.txt").unwrap();
    assert_eq!(
        fs.get_inode(pg).unwrap().data,
        b"name: postgres\nversion: 15.3\nimage: postgres:15.3\nsigned: true\n".to_vec()
    );
    assert_eq!(fs.get_inode(3).unwrap().data, b"{}".to_vec());
    assert!(fs.lookup_ino(ROOT_INO, "missing").is_none());
}

#[test]
fn unsafe_and_duplicate_names_get_no_file() {
    let state = TaprootState::new("r", "b", "c")
        .with_runtime("../evil", "1")
        .with_runtime("py", "1")
        .with_runtime("py", "2");
    let hash = StateEngine::hash(&state).unwrap();
    let signed = SignedState { state, hash, signature: None, public_key: None };
    let fs = mounted(&signed);
    let runtimes = fs.lookup_ino(ROOT_INO, "runtimes").unwrap();
    let entries = fs.dir_entries(runtimes, 0).unwrap();
    let names: Vec<&str> = entries.iter().map(|e| e.name.as_str()).collect();
    assert_eq!(names, vec![".", "..", "py.txt"]);
    let py = fs.lookup_ino(runtimes, "py.txt").unwrap();
    assert_eq!(fs.get_inode(py).unwrap().data, b"name: py\nversion: 1\npinned: true\n".to_vec());
    assert!(!is_safe_filename("../evil"));
    assert!(is_safe_filename("ok-name_1.2"));
    assert!(!is_safe_filename(".."));
    assert!(!is_safe_filename(""));
}

#[test]
fn reads_and_listings() {
    let signed = sample_signed();
    let fs = mounted(&signed);
    let hash_ino = fs.lookup_ino(ROOT_INO, "hash").unwrap();
    assert_eq!(fs.read_data(hash_ino, 0, 4).unwrap(), signed.hash.as_bytes()[..4].to_vec());
    assert_eq!(fs.read_data(hash_ino, 60, 100).unwrap(), signed.hash.as_bytes()[60..].to_vec());
    assert!(fs.read_data(hash_ino, 64, 10).unwrap().is_empty());
    assert_eq!(fs.read_data(hash_ino, -1, 10), Err(FsError::Invalid));
    assert_eq!(fs.read_data(ROOT_INO, 0, 10), Err(FsError::IsDir));
    assert_eq!(fs.read_data(99, 0, 10), Err(FsError::NotFound));

    let root = fs.dir_entries(ROOT_INO, 0).unwrap();
    assert_eq!(root.len(), 9);
    assert_eq!(root[0].name, ".");
    assert_eq!(root[1].ino, ROOT_INO);
    assert_eq!(root[2].name, "README.taproot");
    assert_eq!(root[2].offset, 3);
    let rest = fs.dir_entries(ROOT_INO, 7).unwrap();
    assert_eq!(rest.len(), 2);
    assert_eq!(rest[0].name, "runtimes");
    assert_eq!(rest[1].name, "containers");
    assert!(fs.dir_entries(ROOT_INO, 9).unwrap().is_empty());
    assert!(matches!(fs.dir_entries(hash_ino, 0), Err(FsError::NotDir)));
    assert!(matches!(fs.dir_entries(ROOT_INO, -1), Err(FsError::Invalid)));
}

#[test]
fn open_and_setattr_rules() {
    let signed = sample_signed();
    let mut fs = mounted(&signed);
    let env = fs.lookup_ino(ROOT_INO, "env").unwrap();
    let hash_ino = fs.lookup_ino(ROOT_INO, "hash").unwrap();
    assert_eq!(fs.open_file(hash_ino, false, false), Ok(()));
    assert_eq!(fs.open_file(hash_ino, true, false), Err(FsError::ReadOnly));
    assert_eq!(fs.open_file(ROOT_INO, false, true), Err(FsError::ReadOnly));
    assert_eq!(fs.open_file(77, false, false), Err(FsError::NotFound));
    assert_eq!(fs.open_file(env, true, true), Ok(()));
    assert!(fs.get_inode(env).unwrap().data.is_empty());
    assert!(fs.journal().drifted());

    let attr = fs.set_size(env, Some(3)).unwrap();
    assert_eq!(attr.size, 3);
    assert_eq!(fs.get_inode(env).unwrap().data, vec![0u8, 0, 0]);
    assert_eq!(fs.set_size(env, None), Err(FsError::ReadOnly));
    assert_eq!(fs.set_size(hash_ino, Some(0)), Err(FsError::ReadOnly));
    assert_eq!(fs.set_size(ROOT_INO, Some(0)), Err(FsError::IsDir));
    assert_eq!(fs.apply_write(env, 5, b"ab"), Ok(2));
    assert_eq!(fs.get_inode(env).unwrap().data, vec![0u8, 0, 0, 0, 0, b'a', b'b']);
    assert_eq!(fs.apply_write(env, -2, b"ab"), Err(FsError::Invalid));
    assert_eq!(fs.apply_write(ROOT_INO, 0, b"ab"), Err(FsError::IsDir));
}

#[test]
fn attributes() {
    let a = file_attr(5, 1025, NodeKind::RegularFile, false);
    assert_eq!(a.blocks, 3);
    assert_eq!(a.perm, 0o444);
    assert_eq!(a.nlink, 1);
    let d = file_attr(1, 0, NodeKind::Directory, false);
    assert_eq!(d.blocks, 1);
    assert_eq!(d.nlink, 2);
    assert_eq!(d.blksize, 4096);
    let signed = sample_signed();
    let fs = mounted(&signed);
    let env = fs.lookup_entry(ROOT_INO, "env").unwrap();
    assert_eq!(env.perm, 0o644);
    assert_eq!(env.ino, 4);
}

#[test]
fn drift_rejects_non_utf8_and_bad_lines() {
    let signed = sample_signed();
    match extract_env_drift(&signed, &[0xFF]) {
        Err(TaprootError::Mount(m)) => assert!(m.starts_with("env file is not utf-8: ")),
        other => panic!("unexpected {:?}", other),
    }
    assert_eq!(
        extract_env_drift(&signed, b"NOPE\n").unwrap_err(),
        TaprootError::Mount("malformed env line 1: expected key=value".to_string())
    );
    let d = extract_env_drift(&signed, b"X=1\n").unwrap();
    assert_eq!(d.state.env_vars.len(), 1);
    assert_eq!(d.hash, StateEngine::hash(&d.state).unwrap());
    assert_eq!(d.state.base, signed.state.base);
}

#[test]
fn env_file_reads_back_as_the_variables() {
    let state = TaprootState::new("r", "b", "c")
        .with_env("ZED", "last value")
        .with_env("A", "x=y")
        .with_env("EMPTY", "");
    let hash = StateEngine::hash(&state).unwrap();
    let signed = SignedState { state, hash, signature: None, public_key: None };
    let fs = mounted(&signed);
    let env = fs.get_inode(fs.lookup_ino(ROOT_INO, "env").unwrap()).unwrap();
    assert_eq!(env.data, b"A=x=y\nEMPTY=\nZED=last value\n".to_vec());
    let parsed = parse_env(std::str::from_utf8(&env.data).unwrap()).unwrap();
    assert_eq!(parsed, signed.state.env_vars);
    let drift = extract_env_drift(&signed, &env.data).unwrap();
    assert_eq!(drift.state.env_vars, signed.state.env_vars);
}

#[test]
fn only_the_env_file_is_writable() {
    let signed = sample_signed();
    let fs = mounted(&signed);
    for ino in 1..=fs.inode_count() as u64 {
        let writable = fs.get_inode(ino).unwrap().writable;
        assert_eq!(writable, ino == 4, "inode {ino}");
    }
    assert!(!fs.journal().drifted());
}
