use taproot::cli::{
    bearer_header, diff_line, drift_summary, init_envelope, init_state, local_push_policy,
    mount_decision, prefix_of, remote_check_outcome, remote_failure, remote_url,
    resolve_fabric_path, resolve_keys_path, resolve_registry_path, resolve_state_path,
};
use taproot::diff::{DiffKind, FieldDiff, Severity};
use taproot::engine::StateEngine;
use taproot::error::TaprootError;
use taproot::fabric::Policy;
use taproot::mount::MountTarget;

#[test]
fn default_paths() {
    assert_eq!(resolve_state_path(None), ".taproot/state.json");
    assert_eq!(resolve_state_path(Some("x.json".into())), "x.json");
    assert_eq!(resolve_registry_path(None), ".taproot/registry");
    assert_eq!(resolve_keys_path(None), ".taproot/keys");
    assert_eq!(resolve_fabric_path(None), ".taproot/fabric");
}

#[test]
fn init_allows_slash_in_repo_and_branch() {
    let s = init_state("Epoch-AI-Lab/taproot", "feat/cli-v0.0.1-readonly-mount", "abc123").unwrap();
    assert_eq!(s.base.repo, "Epoch-AI-Lab/taproot");
    let env = init_envelope(&s, true, None).unwrap();
    assert!(env.signature.is_none());
    assert!(StateEngine::verify(&env).is_ok());
}

#[test]
fn init_rejects_dotdot() {
    assert!(init_state("myapp", "../etc", "abc").is_err());
}

#[test]
fn init_rejects_empty_repo() {
    assert_eq!(
        init_state("", "main", "abc").unwrap_err(),
        TaprootError::InvalidKey("repo must be non-empty".to_string())
    );
}

#[test]
fn init_signs_with_given_or_ephemeral_key() {
    let s = init_state("myapp", "main", "abc123").unwrap();
    let ephemeral = init_envelope(&s, false, None).unwrap();
    assert!(ephemeral.signature.is_some());
    assert!(StateEngine::verify(&ephemeral).is_ok());
    let (k, public) = StateEngine::generate_keypair();
    let with_key = init_envelope(&s, false, Some(&k)).unwrap();
    assert_eq!(with_key.public_key, Some(public));
    assert!(matches!(init_envelope(&s, false, Some("short")), Err(TaprootError::InvalidKey(_))));
}

#[test]
fn mount_rejects_symlink_even_with_no_fuse() {
    assert_eq!(
        mount_decision(&MountTarget::Symlink, "link", true),
        Err(TaprootError::Mount("mountpoint is a symlink (refusing): link".to_string()))
    );
    assert_eq!(
        mount_decision(&MountTarget::NotDirectory, "f", true),
        Err(TaprootError::Mount("mountpoint is not a directory: f".to_string()))
    );
}

#[test]
fn mount_no_fuse_succeeds_on_valid_dir() {
    assert_eq!(mount_decision(&MountTarget::Directory, "mnt", true), Ok(false));
    assert_eq!(mount_decision(&MountTarget::Directory, "mnt", false), Ok(true));
}

#[test]
fn mount_refuses_missing_or_non_empty_target_even_with_no_fuse() {
    for no_fuse in [true, false] {
        assert_eq!(
            mount_decision(&MountTarget::Missing("gone".into()), "mnt", no_fuse),
            Err(TaprootError::Mount("mountpoint does not exist: mnt".to_string()))
        );
        assert_eq!(
            mount_decision(&MountTarget::NonEmptyDirectory, "mnt", no_fuse),
            Err(TaprootError::Mount("mountpoint is not empty: mnt".to_string()))
        );
    }
}

#[test]
fn remote_helpers() {
    assert_eq!(remote_url("http://h:3000//", "/v1/states"), "http://h:3000/v1/states");
    assert_eq!(remote_url("http://h", "/v1/check"), "http://h/v1/check");
    assert_eq!(bearer_header("tok"), "Bearer tok");
    assert_eq!(
        remote_failure("remote push", "boom"),
        TaprootError::InvalidKey("remote push failed: boom".to_string())
    );
    assert_eq!(remote_check_outcome(true), Err(TaprootError::Drift { breaking: 1, warning: 0 }));
    assert_eq!(remote_check_outcome(false), Ok(()));
}

#[test]
fn local_policy_blocks_unsigned() {
    let s = init_state("myapp", "main", "abc").unwrap();
    let unsigned = init_envelope(&s, true, None).unwrap();
    assert_eq!(
        local_push_policy(&Policy::default(), &unsigned),
        Err(TaprootError::InvalidKey("policy requires signed state".to_string()))
    );
    let open = Policy { require_signed: false, ..Policy::default() };
    assert_eq!(local_push_policy(&open, &unsigned), Ok(()));
}

#[test]
fn check_output_lines() {
    assert_eq!(drift_summary(2, 1), "drift:      2 breaking, 1 warning");
    assert_eq!(drift_summary(0, 3), "drift:      0 breaking, 3 warnings");
    let d = FieldDiff {
        path: "env_vars.FOO".into(),
        kind: DiffKind::Changed,
        expected: Some("bar".into()),
        actual: None,
        severity: Severity::Breaking,
    };
    assert_eq!(diff_line(&d), "  \u{2717} env_vars.FOO: bar -> null (changed, breaking)");
    let a = FieldDiff {
        path: "notes".into(),
        kind: DiffKind::Added,
        expected: None,
        actual: Some("hi".into()),
        severity: Severity::Warning,
    };
    assert_eq!(diff_line(&a), "  \u{26a0} notes: +hi (added, warning)");
    assert_eq!(prefix_of("0123456789abcdef", 12), "0123456789ab");
    assert_eq!(prefix_of("abc", 12), "abc");
}
