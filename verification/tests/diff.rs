use taproot::diff::{diff_states, evaluate_check, has_breaking, count_severity, DiffKind, Severity};
use taproot::engine::StateEngine;
use taproot::error::TaprootError;
use taproot::state::{SignedState, TaprootState};

fn base() -> TaprootState {
    TaprootState::new("myapp", "main", "abc123")
        .with_runtime("python", "3.11.4")
        .with_env("FOO", "bar")
}

#[test]
fn no_diff_on_identical() {
    let s = base();
    let mut b = s.clone();
    let mut c = s.clone();
    // created_at differs but ignored
    b.created_at = "2024-05-01T10:00:00Z".to_string();
    c.created_at = "2024-05-02T11:30:00Z".to_string();
    assert!(diff_states(&b, &c, true).is_empty());
    assert!(diff_states(&b, &c, false).is_empty());
}

#[test]
fn detects_env_added() {
    let b = base();
    let mut c = b.clone();
    c.env_vars.insert("NEW".into(), "1".into());
    let diffs = diff_states(&b, &c, false);
    assert!(diffs
        .iter()
        .any(|d| d.path == "env_vars.NEW" && d.kind == DiffKind::Added));
    assert!(has_breaking(&diffs));
}

#[test]
fn detects_runtime_version_change() {
    let b = base();
    let mut c = b.clone();
    c.runtimes[0].version = "3.12.0".into();
    let diffs = diff_states(&b, &c, false);
    assert!(diffs.iter().any(|d| d.path == "runtimes.python.version"));
}

#[test]
fn ignores_created_at() {
    let mut b = base();
    let mut c = base();
    b.created_at = "2020-01-01T00:00:00Z".to_string();
    c.created_at = "2025-01-01T00:00:00Z".to_string();
    assert!(diff_states(&b, &c, true).is_empty());
}

#[test]
fn notes_is_warning_unless_strict() {
    let b = base();
    let mut c = b.clone();
    c.notes = Some("hello".into());
    assert_eq!(diff_states(&b, &c, false)[0].severity, Severity::Warning);
    assert_eq!(diff_states(&b, &c, true)[0].severity, Severity::Breaking);
}

#[test]
fn branch_is_warning_unless_strict() {
    let b = base();
    let mut c = b.clone();
    c.base.branch = "feat/foo".into();
    assert_eq!(
        diff_states(&b, &c, false)
            .iter()
            .find(|d| d.path == "base.branch")
            .unwrap()
            .severity,
        Severity::Warning
    );
    assert_eq!(
        diff_states(&b, &c, true)
            .iter()
            .find(|d| d.path == "base.branch")
            .unwrap()
            .severity,
        Severity::Breaking
    );
}

#[test]
fn removed_and_changed_entries_are_reported_with_values() {
    let b = base().with_container("postgres", "15.3", "postgres:15.3");
    let mut c = base();
    c.env_vars.insert("FOO".into(), "baz".into());
    let diffs = diff_states(&b, &c, false);
    let foo = diffs.iter().find(|d| d.path == "env_vars.FOO").unwrap();
    assert_eq!(foo.kind, DiffKind::Changed);
    assert_eq!(foo.expected.as_deref(), Some("bar"));
    assert_eq!(foo.actual.as_deref(), Some("baz"));
    let pg = diffs.iter().find(|d| d.path == "containers.postgres").unwrap();
    assert_eq!(pg.kind, DiffKind::Removed);
    assert_eq!(pg.severity, Severity::Breaking);
    assert_eq!(count_severity(&diffs, Severity::Breaking), 2);
}

fn envelope(state: TaprootState, signed: bool) -> SignedState {
    if signed {
        let (k, _) = StateEngine::generate_keypair();
        StateEngine::sign(&state, &k).unwrap()
    } else {
        let hash = StateEngine::hash(&state).unwrap();
        SignedState { state, hash, signature: None, public_key: None }
    }
}

#[test]
fn check_passes_on_identical_signed_states() {
    let b = envelope(base(), true);
    let c = envelope(base(), true);
    let v = evaluate_check(&b, "baseline.json", &c, "head.json", true, false, false);
    assert_eq!(v.outcome, Ok(()));
    assert!(!v.report.drifted);
    assert_eq!(v.report.version, "1.0");
}

#[test]
fn check_fails_on_commit_drift_strict() {
    let b = envelope(base(), true);
    let c = envelope(TaprootState::new("myapp", "main", "deadbeef").with_runtime("python", "3.11.4").with_env("FOO", "bar"), true);
    let v = evaluate_check(&b, "baseline.json", &c, "head.json", true, false, false);
    assert_eq!(v.outcome, Err(TaprootError::Drift { breaking: 1, warning: 0 }));
    assert!(v.report.has_breaking);
}

#[test]
fn check_fails_on_unsigned_strict() {
    let b = envelope(base(), false);
    let c = envelope(base(), true);
    let v = evaluate_check(&b, "baseline.json", &c, "head.json", true, false, false);
    assert_eq!(v.outcome, Err(TaprootError::Drift { breaking: 1, warning: 0 }));
    assert_eq!(v.report.warnings, vec!["baseline is unsigned \u{2014} not cryptographically signed".to_string()]);
}

#[test]
fn check_warnings_pass_when_allowed() {
    let b = envelope(base(), true);
    let mut cs = base();
    cs.notes = Some("x".into());
    let c = envelope(cs, true);
    let strict = evaluate_check(&b, "b", &c, "c", true, false, false);
    assert_eq!(strict.outcome, Err(TaprootError::Drift { breaking: 1, warning: 0 }));
    let relaxed = evaluate_check(&b, "b", &c, "c", true, true, false);
    assert_eq!(relaxed.outcome, Ok(()));
    assert_eq!(relaxed.warnings, 1);
    assert!(!relaxed.failed_status);
}

#[test]
fn check_detects_env_drift() {
    let b = envelope(base(), true);
    let c = envelope(base().with_env("NEW", "1"), true);
    let v = evaluate_check(&b, "baseline.json", &c, "head.json", false, false, false);
    assert!(v.outcome.is_err());
    assert_eq!(v.report.diffs[0].path, "env_vars.NEW");
}

#[test]
fn strict_makes_every_difference_breaking() {
    let b = base();
    let mut c = base().with_runtime("node", "20");
    c.base.branch = "dev".into();
    c.notes = Some("n".into());
    c.env_vars.insert("FOO".into(), "baz".into());
    let relaxed = diff_states(&b, &c, false);
    assert!(relaxed.iter().any(|d| d.severity == Severity::Warning));
    let strict = diff_states(&b, &c, true);
    assert_eq!(strict.len(), relaxed.len());
    assert!(strict.iter().all(|d| d.severity == Severity::Breaking));
    assert_eq!(has_breaking(&strict), count_severity(&strict, Severity::Breaking) > 0);
    let warnings_only = diff_states(&b, &{ let mut w = base(); w.notes = Some("x".into()); w }, false);
    assert!(!has_breaking(&warnings_only));
    assert_eq!(count_severity(&warnings_only, Severity::Breaking), 0);
}

#[test]
fn strict_and_relaxed_list_the_same_differences() {
    let b = base().with_container("db", "15", "postgres:15");
    let mut c = base().with_runtime("node", "20").with_container("db", "16", "postgres:16");
    c.base.branch = "dev".into();
    c.base.commit = "def456".into();
    c.runtimes[0].pinned = !c.runtimes[0].pinned;
    c.notes = Some("n".into());
    let relaxed = diff_states(&b, &c, false);
    let strict = diff_states(&b, &c, true);
    assert_eq!(relaxed.len(), strict.len());
    assert!(relaxed.len() >= 6);
    for (r, s) in relaxed.iter().zip(strict.iter()) {
        assert_eq!(r.path, s.path);
        assert_eq!(r.kind, s.kind);
        assert_eq!(r.expected, s.expected);
        assert_eq!(r.actual, s.actual);
        assert_eq!(s.severity, Severity::Breaking);
    }
    assert!(relaxed.iter().any(|d| d.severity == Severity::Warning));
}
