use taproot::diff::DiffKind;
use taproot::engine::StateEngine;
use taproot::error::TaprootError;
use taproot::fabric::{Fabric, Policy};
use taproot::server::{
    check_auth, check_response, policy_update, pull_failure, push_audit_entry, push_state_problem,
    ref_request, side_not_found, ApiStatus, SetPolicyReq,
};
use taproot::state::{SignedState, TaprootState};
use taproot::strmap::StrMap;

fn state() -> TaprootState {
    TaprootState::new("myapp", "main", "abc123").with_env("FOO", "bar")
}

fn signed(s: TaprootState) -> SignedState {
    let (k, _) = StateEngine::generate_keypair();
    StateEngine::sign(&s, &k).unwrap()
}

fn unsigned(s: TaprootState) -> SignedState {
    let hash = StateEngine::hash(&s).unwrap();
    SignedState { state: s, hash, signature: None, public_key: None }
}

#[test]
fn open_registry_needs_no_token() {
    let f = Fabric::new("fab", "reg");
    assert_eq!(check_auth(&f, &StrMap::new(), None), Ok(None));
}

#[test]
fn bearer_token_is_checked() {
    let f = Fabric::new("fab", "reg");
    let mut tokens = StrMap::new();
    f.add_token(&mut tokens, "secret-token-123", "alice").unwrap();
    assert_eq!(check_auth(&f, &tokens, Some("Bearer secret-token-123")), Ok(Some("alice".to_string())));
    assert_eq!(check_auth(&f, &tokens, Some("secret-token-123")), Ok(Some("alice".to_string())));
    assert_eq!(check_auth(&f, &tokens, None), Err("missing Authorization Bearer token".to_string()));
    assert_eq!(check_auth(&f, &tokens, Some("Bearer ")), Err("missing Authorization Bearer token".to_string()));
    assert_eq!(check_auth(&f, &tokens, Some("Bearer nope-nope")), Err("invalid token".to_string()));
}

#[test]
fn push_requirements() {
    let open = Policy { require_signed: false, ..Policy::default() };
    assert_eq!(push_state_problem(&unsigned(state()), &open), None);
    assert_eq!(
        push_state_problem(&unsigned(state()), &Policy::default()),
        Some("policy requires signed state".to_string())
    );
    assert_eq!(push_state_problem(&signed(state()), &Policy::default()), None);
    let mut tampered = signed(state());
    tampered.state.env_vars.insert("EVIL".into(), "1".into());
    let msg = push_state_problem(&tampered, &open).unwrap();
    assert!(msg.starts_with("verify failed: invalid hash: expected "));
}

#[test]
fn audit_entry_of_a_push() {
    let s = signed(state());
    let e = push_audit_entry(&s, &s.hash, None);
    assert_eq!(e.action, "push");
    assert_eq!(e.actor, "local");
    assert_eq!(e.repo, "myapp");
    assert!(e.signed);
    assert_eq!(push_audit_entry(&s, "h", Some("bob".into())).actor, "bob");
}

#[test]
fn failures_map_to_statuses() {
    assert_eq!(
        pull_failure(&TaprootError::ObjectNotFound("h".into())),
        (ApiStatus::NotFound, "not found".to_string())
    );
    assert_eq!(
        pull_failure(&TaprootError::InvalidHash("hash must be hex".into())),
        (ApiStatus::BadRequest, "invalid hash: hash must be hex".to_string())
    );
    assert_eq!(
        side_not_found("baseline", &TaprootError::ObjectNotFound("h".into())),
        "baseline not found: object not found: h"
    );
    assert_eq!(ref_request("org%2Fapp", "feat%2Fx"), ("org/app".to_string(), "feat/x".to_string()));
}

#[test]
fn policy_request_merges() {
    let req = SetPolicyReq {
        require_signed: None,
        require_check_strict: Some(false),
        allowed_branches: Some(vec!["main".into()]),
        blocked_env_keys: None,
    };
    let p = policy_update(Policy::default(), "org/app", req);
    assert_eq!(p.repo, "org/app");
    assert!(p.require_signed);
    assert!(!p.require_check_strict);
    assert_eq!(p.allowed_branches, vec!["main"]);
    assert!(p.blocked_env_keys.is_empty());
}

#[test]
fn api_check_reports_drift_and_unsigned() {
    let b = signed(state());
    let c = unsigned(state().with_env("NEW", "1"));
    let r = check_response(&b, &c, true);
    assert!(r.drifted);
    assert!(r.has_breaking);
    assert_eq!(r.warnings, vec!["current is unsigned".to_string()]);
    assert_eq!(r.diffs.len(), 1);
    assert_eq!(r.diffs[0].kind, DiffKind::Added);
    let same = check_response(&b, &signed(state()), true);
    assert!(!same.drifted);
    assert!(!same.has_breaking);
}
