use taproot::engine::StateEngine;
use taproot::error::TaprootError;
use taproot::state::TaprootState;

fn sample_state() -> TaprootState {
    TaprootState::new("myapp", "main", "9f3a2c1")
        .with_runtime("python", "3.11.4")
        .with_runtime("node", "20.5.0")
        .with_container("postgres", "15.3", "postgres:15.3")
        .with_env("DATABASE_URL", "postgres://localhost/taproot")
        .with_env("NODE_ENV", "development")
}

#[test]
fn hash_is_deterministic() {
    let state = sample_state();
    let h1 = StateEngine::hash(&state).unwrap();
    let h2 = StateEngine::hash(&state).unwrap();
    assert_eq!(h1, h2);
    assert_eq!(h1.len(), 64); // hex sha256
}

#[test]
fn hash_changes_on_mutation() {
    let s1 = sample_state();
    let mut s2 = s1.clone();
    s2.env_vars.insert("NEW".into(), "1".into());
    assert_ne!(
        StateEngine::hash(&s1).unwrap(),
        StateEngine::hash(&s2).unwrap()
    );
}

#[test]
fn sign_and_verify() {
    let state = sample_state();
    let (priv_b64, _) = StateEngine::generate_keypair();
    let signed = StateEngine::sign(&state, &priv_b64).unwrap();
    assert!(StateEngine::verify(&signed).is_ok());
}

#[test]
fn verify_fails_on_tamper() {
    let state = sample_state();
    let (priv_b64, _) = StateEngine::generate_keypair();
    let mut signed = StateEngine::sign(&state, &priv_b64).unwrap();
    signed.state.env_vars.insert("EVIL".into(), "1".into());
    assert!(StateEngine::verify(&signed).is_err());
}

#[test]
fn verify_fails_on_wrong_key() {
    let state = sample_state();
    let (priv_b64, _) = StateEngine::generate_keypair();
    let (other_priv, _) = StateEngine::generate_keypair();
    let mut signed = StateEngine::sign(&state, &priv_b64).unwrap();
    // re-sign hash with wrong key but keep hash
    let other_signed = StateEngine::sign(&state, &other_priv).unwrap();
    signed.signature = other_signed.signature;
    signed.public_key = other_signed.public_key;
    // keep the original signature, swap the public key
    let mut tampered = StateEngine::sign(&state, &priv_b64).unwrap();
    let (_, other_pub) = StateEngine::generate_keypair();
    tampered.public_key = Some(other_pub);
    assert!(StateEngine::verify(&tampered).is_err());
}

#[test]
fn canonical_json_is_compact_and_sorted() {
    let mut state = TaprootState::new("org/app", "main", "c1").with_env("B", "2").with_env("A", "1");
    state.created_at = "2024-01-01T00:00:00Z".to_string();
    let text = String::from_utf8(StateEngine::to_canonical_json(&state).unwrap()).unwrap();
    assert_eq!(
        text,
        "{\"base\":{\"branch\":\"main\",\"commit\":\"c1\",\"repo\":\"org/app\"},\"created_at\":\"2024-01-01T00:00:00Z\",\"env_vars\":{\"A\":\"1\",\"B\":\"2\"},\"version\":\"1.0\"}"
    );
}

#[test]
fn hash_of_known_state() {
    let mut state = TaprootState::new("a", "b", "c");
    state.created_at = "2024-01-01T00:00:00Z".to_string();
    let hash = StateEngine::hash(&state).unwrap();
    assert_eq!(hash.len(), 64);
    assert!(hash.chars().all(|c| c.is_ascii_hexdigit() && !c.is_ascii_uppercase()));
}

#[test]
fn sign_rejects_bad_keys() {
    let state = sample_state();
    assert!(matches!(StateEngine::sign(&state, "!!!"), Err(TaprootError::InvalidKey(_))));
    assert_eq!(
        StateEngine::sign(&state, "AAAA"),
        Err(TaprootError::InvalidKey("private key must be 32 bytes".to_string()))
    );
    let (k, _) = StateEngine::generate_keypair();
    assert!(StateEngine::sign(&state, &format!("  {k}\n")).is_ok());
}

#[test]
fn verify_reports_each_failure() {
    let state = sample_state();
    let (k, _) = StateEngine::generate_keypair();
    let signed = StateEngine::sign(&state, &k).unwrap();
    let mut half = signed.clone();
    half.public_key = None;
    assert_eq!(
        StateEngine::verify(&half),
        Err(TaprootError::InvalidKey("signature and public_key must both be present or both absent".to_string()))
    );
    let mut short_sig = signed.clone();
    short_sig.signature = Some("AAAA".to_string());
    assert_eq!(
        StateEngine::verify(&short_sig),
        Err(TaprootError::InvalidKey("signature must be 64 bytes".to_string()))
    );
    let mut wrong_hash = signed.clone();
    wrong_hash.hash = "0".repeat(64);
    assert_eq!(
        StateEngine::verify(&wrong_hash),
        Err(TaprootError::HashMismatch { expected: "0".repeat(64), got: signed.hash.clone() })
    );
    let mut unsigned = signed;
    unsigned.signature = None;
    unsigned.public_key = None;
    assert!(StateEngine::verify(&unsigned).is_ok());
}
