use wartable::config::ApiKeyEntry;
use wartable::keys::{generate_secret, key_prefix, KeyStore};
use wartable::models::Timestamp;

fn at(n: i64) -> Timestamp {
    Timestamp { secs: 1_700_000_000 + n, nanos: 0 }
}

fn entry(name: &str, key: &str) -> ApiKeyEntry {
    ApiKeyEntry { name: name.to_string(), key: key.to_string() }
}

#[test]
fn store_validates_admin_and_config_keys() {
    let (store, admin) = KeyStore::new_with("admin-secret".to_string(), at(0), vec![entry("ci", "wt-ci-key")]);
    assert_eq!(admin, "admin-secret");
    assert_eq!(store.validate("admin-secret"), Some("admin".to_string()));
    assert_eq!(store.validate("wt-ci-key"), Some("ci".to_string()));
    assert_eq!(store.validate("nope"), None);
    assert_eq!(store.validate(""), None);
}

#[test]
fn fresh_store_has_random_admin_key() {
    let (store, admin) = KeyStore::new(vec![]).unwrap();
    assert_eq!(admin.len(), 64);
    assert_eq!(store.validate(&admin), Some("admin".to_string()));
    assert_eq!(generate_secret().unwrap().len(), 64);
}

#[test]
fn generated_keys_validate_and_revoke() {
    let (mut store, _) = KeyStore::new_with("adm".to_string(), at(0), vec![entry("cfg", "cfg-key")]);
    let k = store.generate_with("laptop".to_string(), "laptop-key".to_string(), at(5));
    assert!(k.revocable);
    assert_eq!(store.validate("laptop-key"), Some("laptop".to_string()));
    assert_eq!(store.revoke("laptop"), Ok(true));
    assert_eq!(store.validate("laptop-key"), None);
    assert_eq!(store.revoke("laptop"), Ok(false));
    assert_eq!(store.revoke("cfg"), Err("Cannot revoke admin or config key"));
    assert_eq!(store.revoke("admin"), Err("Cannot revoke admin or config key"));
    assert_eq!(store.validate("cfg-key"), Some("cfg".to_string()));
    let g = store.generate("other".to_string()).unwrap();
    assert_eq!(g.key.len(), 64);
    assert_eq!(store.validate(&g.key), Some("other".to_string()));
}

#[test]
fn same_secret_replaces_entry() {
    let (mut store, _) = KeyStore::new_with("adm".to_string(), at(0), vec![]);
    store.generate_with("a".to_string(), "s".to_string(), at(1));
    store.generate_with("b".to_string(), "s".to_string(), at(2));
    assert_eq!(store.validate("s"), Some("b".to_string()));
    assert_eq!(store.list().len(), 2);
}

#[test]
fn listing_is_oldest_first_with_masked_secrets() {
    let (mut store, _) = KeyStore::new_with("0123456789abcdef".to_string(), at(10), vec![]);
    store.generate_with("early".to_string(), "xyz".to_string(), at(1));
    store.generate_with("late".to_string(), "late-secret".to_string(), at(20));
    assert!(store.listable());
    let list = store.list();
    let names: Vec<&str> = list.iter().map(|i| i.name.as_str()).collect();
    assert_eq!(names, vec!["early", "admin", "late"]);
    assert_eq!(list[0].key_prefix, "xyz...");
    assert_eq!(list[1].key_prefix, "01234567...");
    assert!(!list[1].revocable);
    assert!(list[2].revocable);
}

#[test]
fn key_prefix_cases() {
    assert_eq!(key_prefix("abcdefghij"), "abcdefgh...");
    assert_eq!(key_prefix("abc"), "abc...");
    assert_eq!(key_prefix("abcdefgh"), "abcdefgh...");
}

#[test]
fn unlistable_secret_detected() {
    // 'é' takes bytes 7 and 8, so byte 8 is not a character boundary
    let (store, _) = KeyStore::new_with("abcdefgé-rest".to_string(), at(0), vec![]);
    assert!(!store.listable());
}

#[test]
fn generated_key_validates_until_revoked() {
    let (mut store, _) = KeyStore::new_with("adm".to_string(), at(0), vec![]);
    let k = store.generate_with("desk".to_string(), "desk-key".to_string(), at(1));
    store.generate_with("phone".to_string(), "phone-key".to_string(), at(2));
    assert_eq!(store.validate(&k.key), Some("desk".to_string()));
    assert_eq!(store.revoke("phone"), Ok(true));
    assert_eq!(store.revoke("admin"), Err("Cannot revoke admin or config key"));
    assert_eq!(store.validate(&k.key), Some("desk".to_string()));
    assert_eq!(store.revoke("desk"), Ok(true));
    assert_eq!(store.validate(&k.key), None);
}
