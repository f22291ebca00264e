use taproot::error::TaprootError;
use taproot::keys::{deactivate_others, key_exists, key_id_for, key_not_found, KeyStore, Keypair};

fn kp(id: &str, active: bool) -> Keypair {
    Keypair {
        id: id.to_string(),
        private_key: format!("priv-{id}"),
        public_key: format!("pub-{id}"),
        created_at: "2024-01-01T00:00:00Z".to_string(),
        active,
    }
}

#[test]
fn key_paths() {
    let ks = KeyStore::new("/tmp/keys");
    assert_eq!(ks.index_path(), "/tmp/keys/keys.json");
    assert_eq!(ks.key_path("k1"), "/tmp/keys/k1.key");
}

#[test]
fn prepare_key_names_and_validates() {
    let ks = KeyStore::new("keys");
    let named = ks.prepare_key(Some("test-key".to_string())).unwrap();
    assert_eq!(named.id, "test-key");
    assert_eq!(named.private_key.len(), 44); // base64 of 32 bytes
    assert_eq!(named.public_key.len(), 44);
    assert!(named.active);
    let auto = ks.prepare_key(None).unwrap();
    assert!(auto.id.starts_with("key-"));
    assert_eq!(auto.id.len(), 12);
    assert_eq!(auto.id, key_id_for(&auto.public_key));
    for bad in ["a/b", "a\\b", "nul\0", "   ", ""] {
        assert_eq!(
            ks.prepare_key(Some(bad.to_string())).unwrap_err(),
            TaprootError::InvalidKey("invalid key id".to_string())
        );
    }
}

#[test]
fn key_id_from_public_key() {
    // "AAECAwQF" is base64 of 00 01 02 03 04 05
    assert_eq!(key_id_for("AAECAwQF"), "key-00010203");
    assert_eq!(key_id_for("AAE="), "key-0001");
    assert_eq!(key_id_for("!!"), "key-");
}

#[test]
fn list_and_default() {
    let ks = KeyStore::new("keys");
    let keys = vec![kp("k1", true), kp("k2", true)];
    assert_eq!(keys.len(), 2);
    assert_eq!(ks.default_key(&keys).unwrap().id, "k2");
}

#[test]
fn default_key_prefers_latest_active() {
    let ks = KeyStore::new("keys");
    assert_eq!(
        ks.default_key(&Vec::new()).unwrap_err(),
        TaprootError::InvalidKey("no keys found \u{2014} run `taproot keys generate`".to_string())
    );
    let keys = vec![kp("k1", true), kp("k2", true), kp("k3", false)];
    assert_eq!(ks.default_key(&keys).unwrap().id, "k2");
    let none_active = vec![kp("k1", false), kp("k2", false)];
    assert_eq!(ks.default_key(&none_active).unwrap().id, "k2");
}

#[test]
fn private_key_lookup() {
    let ks = KeyStore::new("keys");
    let keys = vec![kp("mykey", true), kp("other", false)];
    let stored = kp("mykey", true);
    assert_eq!(ks.private_key(Some("mykey"), Some(&stored), &keys).unwrap(), "priv-mykey");
    assert_eq!(ks.private_key(None, None, &keys).unwrap(), "priv-mykey");
    assert_eq!(
        ks.private_key(Some("nope"), None, &keys).unwrap_err(),
        TaprootError::InvalidKey("key not found: nope".to_string())
    );
    assert_eq!(
        ks.private_key(None, None, &Vec::new()).unwrap_err(),
        TaprootError::InvalidKey("no keys found \u{2014} run `taproot keys generate`".to_string())
    );
    assert_eq!(key_not_found("x"), TaprootError::InvalidKey("key not found: x".to_string()));
    assert_eq!(key_exists("x"), TaprootError::InvalidKey("key id already exists: x".to_string()));
}

#[test]
fn public_keys_by_id() {
    let ks = KeyStore::new("keys");
    let keys = vec![kp("b", true), kp("a", false)];
    let m = ks.public_keys(&keys);
    assert_eq!(m.len(), 2);
    assert_eq!(m.get("a").unwrap(), "pub-a");
    assert_eq!(m.key_at(0), "a");
}

#[test]
fn rotate_deactivates_old() {
    let ks = KeyStore::new("keys");
    let mut keys = vec![kp("old", true), kp("older", true), kp("new", true)];
    deactivate_others(&mut keys, "new");
    assert!(!keys[0].active);
    assert!(!keys[1].active);
    assert!(keys[2].active);
    assert_eq!(ks.default_key(&keys).unwrap().id, "new");
}
