use taproot::engine::StateEngine;
use taproot::error::TaprootError;
use taproot::registry::{
    accept_pulled, collect_refs, desanitize, join_path, ref_not_a_file, ref_target, sanitize,
    validate_hash, RefFile, Registry,
};
use taproot::state::{SignedState, TaprootState};

fn sample_state(repo: &str, branch: &str, commit: &str) -> TaprootState {
    TaprootState::new(repo, branch, commit)
        .with_runtime("python", "3.11.4")
        .with_env("FOO", "bar")
}

fn signed_sample(repo: &str, branch: &str) -> SignedState {
    let state = sample_state(repo, branch, "abc123");
    let (priv_key, _) = StateEngine::generate_keypair();
    StateEngine::sign(&state, &priv_key).unwrap()
}

#[test]
fn validate_hash_rejects_bad() {
    assert!(validate_hash("abc").is_err());
    assert!(validate_hash(&"g".repeat(64)).is_err());
    assert!(validate_hash(&"a".repeat(64)).is_ok());
}

#[test]
fn sanitize_roundtrip() {
    assert_eq!(sanitize("org/myapp"), "org%2Fmyapp");
    assert_eq!(sanitize("feat/foo/bar"), "feat%2Ffoo%2Fbar");
    assert_eq!(desanitize("feat%2Ffoo"), "feat/foo");
    assert_eq!(desanitize(&sanitize("a/b/c")), "a/b/c");
    // collision test: a/b vs a__b must not collide
    assert_ne!(sanitize("a/b"), sanitize("a__b"));
    // percent escaping
    assert_eq!(sanitize("a%b"), "a%25b");
    assert_eq!(desanitize(&sanitize("a%b/c")), "a%b/c");
}

#[test]
fn validate_hash_messages() {
    assert_eq!(
        validate_hash("abc"),
        Err(TaprootError::InvalidHash("hash must be 64 hex chars, got 3 chars".to_string()))
    );
    assert_eq!(
        validate_hash(&"g".repeat(64)),
        Err(TaprootError::InvalidHash("hash must be hex".to_string()))
    );
    assert!(validate_hash(&"AbCdEf0123456789".repeat(4)).is_ok());
}

#[test]
fn paths_follow_the_layout() {
    let reg = Registry::new("/tmp/reg");
    assert_eq!(reg.root(), "/tmp/reg");
    assert_eq!(reg.objects_dir(), "/tmp/reg/objects");
    assert_eq!(reg.refs_dir(), "/tmp/reg/refs");
    assert_eq!(reg.object_path("abc"), "/tmp/reg/objects/abc.json");
    assert_eq!(
        reg.ref_path("org/name", "feat/foo").unwrap(),
        "/tmp/reg/refs/org%2Fname/feat%2Ffoo"
    );
    assert_eq!(Registry::open("reg/").refs_dir(), "reg/refs");
    assert_eq!(join_path("", "x"), "x");
}

#[test]
fn ref_path_rejects_bad_names() {
    let reg = Registry::new("r");
    assert_eq!(
        reg.ref_path("", "main"),
        Err(TaprootError::InvalidKey("repo must be non-empty".to_string()))
    );
    assert_eq!(
        reg.ref_path("myapp", "../etc"),
        Err(TaprootError::InvalidKey("branch segment must not be '.' or '..'".to_string()))
    );
    assert_eq!(
        reg.repo_refs_dir("a//b"),
        Err(TaprootError::InvalidKey("repo must not contain '//'".to_string()))
    );
}

#[test]
fn prepare_push_plans_object_and_ref() {
    let reg = Registry::new("reg");
    let signed = signed_sample("org/myapp", "feat/foo");
    let plan = reg.prepare_push(&signed).unwrap();
    assert_eq!(plan.hash, signed.hash);
    assert_eq!(plan.object_path, format!("reg/objects/{}.json", signed.hash));
    assert_eq!(plan.ref_path, "reg/refs/org%2Fmyapp/feat%2Ffoo");
}

#[test]
fn push_verifies_hash_and_signature() {
    let reg = Registry::new("reg");
    let mut signed = signed_sample("myapp", "main");
    // Tamper state without updating hash
    signed.state.env_vars.insert("EVIL".into(), "1".into());
    let err = reg.prepare_push(&signed).unwrap_err();
    assert!(matches!(
        err,
        TaprootError::HashMismatch { .. } | TaprootError::InvalidSignature
    ));
}

#[test]
fn push_rejects_invalid_repo_branch() {
    let reg = Registry::new("reg");
    let mut state = sample_state("myapp", "main", "abc123");
    state.base.repo = "".into();
    let (priv_key, _) = StateEngine::generate_keypair();
    let mut signed = StateEngine::sign(&state, &priv_key).unwrap();
    signed.state.base.repo = "".into();
    let err = reg.prepare_push(&signed).unwrap_err();
    assert!(matches!(
        err,
        TaprootError::InvalidKey(_) | TaprootError::HashMismatch { .. }
    ));
    assert_eq!(err, TaprootError::InvalidKey("repo must be non-empty".to_string()));
}

#[test]
fn unsigned_push_allowed() {
    let reg = Registry::new("reg");
    let state = sample_state("myapp", "main", "abc123");
    let hash = StateEngine::hash(&state).unwrap();
    let signed = SignedState { state, hash: hash.clone(), signature: None, public_key: None };
    assert_eq!(reg.prepare_push(&signed).unwrap().hash, hash);
}

#[test]
fn pull_validates_hash_format() {
    let reg = Registry::new("reg");
    let err = reg.pull_path("not-hex").unwrap_err();
    assert!(matches!(err, TaprootError::InvalidHash(_)));
    let fake = "a".repeat(64);
    assert_eq!(reg.pull_path(&fake).unwrap(), format!("reg/objects/{fake}.json"));
}

#[test]
fn pull_detects_tampered_object() {
    let signed = signed_sample("myapp", "main");
    let hash = signed.hash.clone();
    assert_eq!(accept_pulled(&hash, signed.clone()).unwrap(), signed);
    let other = "b".repeat(64);
    assert_eq!(
        accept_pulled(&other, signed.clone()).unwrap_err(),
        TaprootError::HashMismatch { expected: other.clone(), got: hash.clone() }
    );
    let mut tampered = signed;
    tampered.state.env_vars.insert("TAMPER".into(), "1".into());
    let err = accept_pulled(&hash, tampered).unwrap_err();
    assert!(matches!(
        err,
        TaprootError::HashMismatch { .. } | TaprootError::InvalidSignature
    ));
}

#[test]
fn push_idempotent() {
    let reg = Registry::new("reg");
    let signed = signed_sample("myapp", "main");
    let h1 = reg.prepare_push(&signed).unwrap();
    let h2 = reg.prepare_push(&signed).unwrap();
    assert_eq!(h1.hash, h2.hash);
    assert_eq!(h1.ref_path, h2.ref_path);
    let listed = collect_refs(&vec![file("main", &h1.hash), file("main", &h2.hash)]).unwrap();
    assert_eq!(listed.len(), 2);
}

#[test]
fn branch_with_slash_sanitized() {
    let reg = Registry::new("reg");
    let signed = signed_sample("myapp", "feat/foo");
    let plan = reg.prepare_push(&signed).unwrap();
    assert_eq!(plan.ref_path, "reg/refs/myapp/feat%2Ffoo");
    let list = collect_refs(&vec![file("feat%2Ffoo", &plan.hash)]).unwrap();
    assert!(list.iter().any(|(b, h)| b == "feat/foo" && h == &signed.hash));
}

#[test]
fn repo_with_slash_sanitized() {
    let reg = Registry::new("reg");
    let signed = signed_sample("org/name", "main");
    let plan = reg.prepare_push(&signed).unwrap();
    assert_eq!(plan.ref_path, "reg/refs/org%2Fname/main");
    assert_eq!(reg.repo_refs_dir("org/name").unwrap(), "reg/refs/org%2Fname");
    let list = collect_refs(&vec![file("main", &plan.hash)]).unwrap();
    assert_eq!(list.len(), 1);
    assert_eq!(list[0].0, "main");
}

#[test]
fn list_sorted_and_multiple_branches() {
    let entries = vec![
        file("zebra", &"1".repeat(64)),
        file("alpha", &"2".repeat(64)),
        file("main", &"3".repeat(64)),
    ];
    let list = collect_refs(&entries).unwrap();
    let branches: Vec<_> = list.iter().map(|(b, _)| b.as_str()).collect();
    let mut sorted = branches.clone();
    sorted.sort();
    assert_eq!(branches, sorted);
    assert_eq!(list.len(), 3);
}

#[test]
fn ref_target_trims_and_validates() {
    let h = "c".repeat(64);
    assert_eq!(ref_target(&format!("  {h}\n")).unwrap(), Some(h));
    assert_eq!(ref_target(" \n").unwrap(), None);
    assert!(matches!(ref_target("xyz"), Err(TaprootError::InvalidHash(_))));
    assert_eq!(
        ref_not_a_file("r/refs/a"),
        TaprootError::InvalidKey("ref path is not a file: r/refs/a".to_string())
    );
}

fn file(name: &str, content: &str) -> RefFile {
    RefFile { name: name.to_string(), is_file: true, content: Ok(content.to_string()) }
}

#[test]
fn collect_refs_sorts_and_skips() {
    let a = "a".repeat(64);
    let b = "b".repeat(64);
    let z = "f".repeat(64);
    let entries = vec![
        file("zebra", &z),
        file("feat%2Ffoo", &format!("{b}\n")),
        RefFile { name: "sub".to_string(), is_file: false, content: Ok(String::new()) },
        file("alpha", &a),
        file("blank", "   "),
        file("badhash", "not-a-hash"),
    ];
    let refs = collect_refs(&entries).unwrap();
    assert_eq!(
        refs,
        vec![
            ("alpha".to_string(), a),
            ("feat/foo".to_string(), b),
            ("zebra".to_string(), z),
        ]
    );
    assert!(collect_refs(&Vec::new()).unwrap().is_empty());
}

#[test]
fn collect_refs_errors() {
    let bad = vec![file("..", &"a".repeat(64))];
    assert_eq!(
        collect_refs(&bad).unwrap_err(),
        TaprootError::InvalidKey("branch must not be '.' or '..'".to_string())
    );
    let unreadable = vec![RefFile {
        name: "main".to_string(),
        is_file: true,
        content: Err("permission denied".to_string()),
    }];
    assert_eq!(
        collect_refs(&unreadable).unwrap_err(),
        TaprootError::Io("permission denied".to_string())
    );
}

#[test]
fn pushed_ref_reads_back() {
    let reg = Registry::new("reg");
    let signed = signed_sample("myapp", "main");
    let plan = reg.prepare_push(&signed).unwrap();
    assert_eq!(plan.ref_path, reg.ref_path("myapp", "main").unwrap());
    assert_eq!(ref_target(&plan.hash).unwrap(), Some(plan.hash.clone()));
}
