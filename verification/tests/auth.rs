use wartable::auth::{authorize, extract_api_key, trim, ClientTracker};
use wartable::keys::KeyStore;
use wartable::models::Timestamp;

fn at(n: i64) -> Timestamp {
    Timestamp { secs: 1_700_000_000 + n, nanos: 0 }
}

#[test]
fn bearer_token_comes_first() {
    let cookies = vec!["wartable_session=cookie-key".to_string()];
    assert_eq!(extract_api_key(Some("Bearer tok"), Some("xkey"), &cookies), Some("tok".to_string()));
    assert_eq!(extract_api_key(Some("Basic abc"), Some("xkey"), &cookies), Some("xkey".to_string()));
    assert_eq!(extract_api_key(None, None, &cookies), Some("cookie-key".to_string()));
    assert_eq!(extract_api_key(Some("Basic abc"), None, &vec![]), None);
}

#[test]
fn session_cookie_is_found_among_others() {
    let cookies = vec!["theme=dark; lang=en".to_string(), " a=b ;  wartable_session=s3cret ; c=d".to_string()];
    assert_eq!(extract_api_key(None, None, &cookies), Some("s3cret".to_string()));
    let none = vec!["wartable_sessionx=1".to_string()];
    assert_eq!(extract_api_key(None, None, &none), None);
    let empty = vec!["wartable_session=".to_string()];
    assert_eq!(extract_api_key(None, None, &empty), Some(String::new()));
}

#[test]
fn trimming_white_space() {
    let s: Vec<char> = " \t a b \u{3000}".chars().collect();
    assert_eq!(trim(&s).into_iter().collect::<String>(), "a b");
    let blank: Vec<char> = "   ".chars().collect();
    assert!(trim(&blank).is_empty());
}

#[test]
fn authorization_decisions() {
    let (store, admin) = KeyStore::new_with("adm-key".to_string(), at(0), vec![]);
    let mut tracker = ClientTracker::new();
    assert!(authorize(false, &store, &mut tracker, None, at(1)));
    assert!(tracker.list().is_empty());
    assert!(!authorize(true, &store, &mut tracker, None, at(1)));
    assert!(!authorize(true, &store, &mut tracker, Some("wrong".to_string()), at(1)));
    assert!(authorize(true, &store, &mut tracker, Some(admin.clone()), at(2)));
    assert!(authorize(true, &store, &mut tracker, Some(admin), at(3)));
    let clients = tracker.list();
    assert_eq!(clients.len(), 1);
    assert_eq!(clients[0].name, "admin");
    assert_eq!(clients[0].request_count, 2);
    assert_eq!(clients[0].last_seen, at(3));
}

#[test]
fn clients_listed_most_recent_first() {
    let mut tracker = ClientTracker::new();
    tracker.record("a".to_string(), at(1));
    tracker.record("b".to_string(), at(5));
    tracker.record("c".to_string(), at(3));
    let names: Vec<String> = tracker.list().into_iter().map(|c| c.name).collect();
    assert_eq!(names, vec!["b", "c", "a"]);
}
