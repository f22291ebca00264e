use taproot::error::TaprootError;
use taproot::fabric::{default_true, nonempty, AuditEntry, Fabric, Policy};
use taproot::strmap::StrMap;

fn entry(repo: &str, hash: &str) -> AuditEntry {
    AuditEntry {
        ts: "2024-01-01T00:00:00Z".to_string(),
        action: "push".to_string(),
        repo: repo.to_string(),
        branch: "main".to_string(),
        hash: hash.to_string(),
        actor: "tester".to_string(),
        signed: true,
    }
}

#[test]
fn fabric_paths() {
    let f = Fabric::new("fab", "reg/");
    assert_eq!(f.audit_path(), "reg/audit.log");
    assert_eq!(f.tokens_path(), "fab/tokens.json");
    assert_eq!(f.policy_path("org/app"), "fab/policy-org%2Fapp.json");
}

#[test]
fn audit_roundtrip() {
    let f = Fabric::new("fabric", "registry");
    let e = entry("myapp", &"a".repeat(64));
    let log = f.audit_log(vec![e.clone()], Some("myapp"));
    assert_eq!(log.len(), 1);
    assert_eq!(log[0].hash, e.hash);
    assert!(f.audit_log(vec![e.clone()], Some("other")).is_empty());
}

#[test]
fn policy_roundtrip() {
    let f = Fabric::new("fabric", "registry");
    let p = Policy {
        repo: "myapp".into(),
        require_signed: true,
        require_check_strict: false,
        allowed_branches: vec!["main".into()],
        blocked_env_keys: vec!["SECRET".into()],
    };
    let loaded = f.get_policy("myapp", Some(p.clone()));
    assert_eq!(loaded.require_check_strict, false);
    assert_eq!(loaded.allowed_branches, vec!["main"]);
    let def = f.get_policy("other", None);
    assert!(def.require_signed);
}

#[test]
fn audit_filter_by_repo() {
    let f = Fabric::new("fab", "reg");
    let entries = vec![entry("myapp", "h1"), entry("other", "h2"), entry("myapp", "h3")];
    let mine = f.audit_log(entries, Some("myapp"));
    assert_eq!(mine.len(), 2);
    assert_eq!(mine[0].hash, "h1");
    assert_eq!(mine[1].hash, "h3");
    assert!(f.audit_log(vec![entry("myapp", "h1")], Some("nope")).is_empty());
    assert_eq!(f.audit_log(vec![entry("a", "1"), entry("b", "2")], None).len(), 2);
}

#[test]
fn tokens_roundtrip() {
    let f = Fabric::new("fab", "reg");
    let mut tokens = StrMap::new();
    f.add_token(&mut tokens, "secret-token-123", "alice").unwrap();
    assert_eq!(f.verify_token(&tokens, "secret-token-123"), Some("alice".to_string()));
    assert_eq!(f.verify_token(&tokens, "bad"), None);
    for bad in ["short", "        ", "line\nbreak-here"] {
        assert_eq!(
            f.add_token(&mut tokens, bad, "bob"),
            Err(TaprootError::InvalidKey("invalid token".to_string()))
        );
    }
    assert_eq!(tokens.len(), 1);
}

#[test]
fn policy_defaults_and_updates() {
    let d = Policy::default();
    assert_eq!(d.repo, "*");
    assert!(d.require_signed && d.require_check_strict);
    assert!(default_true());
    let f = Fabric::new("fab", "reg");
    let p = f.get_policy("other", None);
    assert_eq!(p.repo, "other");
    assert!(p.require_signed);
    let stored = Policy {
        repo: "myapp".into(),
        require_signed: true,
        require_check_strict: false,
        allowed_branches: vec!["main".into()],
        blocked_env_keys: vec!["SECRET".into()],
    };
    let loaded = f.get_policy("myapp", Some(stored.clone()));
    assert_eq!(loaded.require_check_strict, false);
    assert_eq!(loaded.allowed_branches, vec!["main"]);
    let upd = stored.updated("myapp", Some(false), None, nonempty(vec![]), nonempty(vec!["TOKEN".into()]));
    assert!(!upd.require_signed);
    assert!(!upd.require_check_strict);
    assert_eq!(upd.allowed_branches, vec!["main"]);
    assert_eq!(upd.blocked_env_keys, vec!["TOKEN"]);
}

#[test]
fn audit_append_extends_each_view_by_the_new_entry() {
    let f = Fabric::new("fab", "reg");
    let old = vec![entry("myapp", "h1"), entry("other", "h2")];
    let mut grown = old.clone();
    grown.push(entry("myapp", "h3"));
    let before = f.audit_log(old.clone(), Some("myapp"));
    let after = f.audit_log(grown.clone(), Some("myapp"));
    assert_eq!(after.len(), before.len() + 1);
    assert_eq!(after[..before.len()].iter().map(|e| e.hash.clone()).collect::<Vec<_>>(),
        before.iter().map(|e| e.hash.clone()).collect::<Vec<_>>());
    assert_eq!(after.last().unwrap().hash, "h3");
    assert_eq!(f.audit_log(grown.clone(), Some("other")).len(), f.audit_log(old.clone(), Some("other")).len());
    assert_eq!(f.audit_log(grown, None).len(), 3);
}
