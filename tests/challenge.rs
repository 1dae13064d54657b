use grux::challenge::{AcmeHttp01ChallengeStore, ChallengeEntry};

#[test]
fn test_extract_token_from_path() {
    assert_eq!(AcmeHttp01ChallengeStore::extract_token_from_path("/.well-known/acme-challenge/abc123"), Some("abc123"));
    assert_eq!(
        AcmeHttp01ChallengeStore::extract_token_from_path("/.well-known/acme-challenge/token-with-dashes"),
        Some("token-with-dashes")
    );
    assert_eq!(AcmeHttp01ChallengeStore::extract_token_from_path("/"), None);
    assert_eq!(AcmeHttp01ChallengeStore::extract_token_from_path("/index.html"), None);
    assert_eq!(AcmeHttp01ChallengeStore::extract_token_from_path("/.well-known/other"), None);
}

#[test]
fn test_challenge_store_basic() {
    let mut store = AcmeHttp01ChallengeStore::new();
    store.add_challenge("token123".to_string(), "token123.thumbprint".to_string());
    assert_eq!(store.get_key_authorization("token123"), Some("token123.thumbprint".to_string()));
    assert_eq!(store.get_key_authorization("unknown"), None);
    store.remove_challenge("token123");
    assert_eq!(store.get_key_authorization("token123"), None);
}

#[test]
fn test_try_handle_challenge() {
    let mut store = AcmeHttp01ChallengeStore::new();
    store.add_challenge("mytoken".to_string(), "mytoken.mythumbprint".to_string());
    assert_eq!(store.try_handle_challenge("/.well-known/acme-challenge/mytoken"), Some("mytoken.mythumbprint".to_string()));
    assert_eq!(store.try_handle_challenge("/index.html"), None);
    assert_eq!(store.try_handle_challenge("/.well-known/acme-challenge/unknown"), None);
    assert_eq!(store.try_handle_challenge("/.well-known/acme-challenge/"), None);
    assert_eq!(store.try_handle_challenge("/.well-known/acme-challenge/foo/bar"), None);
}

#[test]
fn test_active_challenge_count() {
    let mut store = AcmeHttp01ChallengeStore::new();
    assert_eq!(store.active_challenge_count(), 0);
    store.add_challenge("t1".to_string(), "k1".to_string());
    assert_eq!(store.active_challenge_count(), 1);
    store.add_challenge("t2".to_string(), "k2".to_string());
    assert_eq!(store.active_challenge_count(), 2);
    store.remove_challenge("t1");
    assert_eq!(store.active_challenge_count(), 1);
}

#[test]
fn http01_happy_path() {
    let mut store = AcmeHttp01ChallengeStore::default();
    store.add_challenge("abc123".to_string(), "abc123.thumb".to_string());
    assert_eq!(store.try_handle_challenge("/.well-known/acme-challenge/abc123"), Some("abc123.thumb".to_string()));
}

#[test]
fn challenge_expires_after_an_hour() {
    let mut store = AcmeHttp01ChallengeStore::new();
    store.add_challenge_at("t".to_string(), "t.k".to_string(), 1000);
    let path = "/.well-known/acme-challenge/t";
    assert_eq!(store.try_handle_challenge_at(path, 1000), Some("t.k".to_string()));
    assert_eq!(store.try_handle_challenge_at(path, 4600), Some("t.k".to_string()));
    assert_eq!(store.try_handle_challenge_at(path, 4601), None);
    assert_eq!(store.get_key_authorization_at("t", 4601), None);
    store.add_challenge_at("u".to_string(), "u.k".to_string(), 4000);
    store.cleanup_expired_at(4601);
    assert_eq!(store.active_challenge_count(), 1);
    assert_eq!(store.get_key_authorization_at("u", 4601), Some("u.k".to_string()));
}

#[test]
fn add_replaces_and_remove_forgets() {
    let mut store = AcmeHttp01ChallengeStore::new();
    store.add_challenge_at("t".to_string(), "old".to_string(), 10);
    store.add_challenge_at("t".to_string(), "new".to_string(), 20);
    assert_eq!(store.active_challenge_count(), 1);
    assert_eq!(store.try_handle_challenge_at("/.well-known/acme-challenge/t", 20), Some("new".to_string()));
    store.remove_challenge("t");
    assert_eq!(store.try_handle_challenge_at("/.well-known/acme-challenge/t", 20), None);
    store.remove_challenge("never-added");
    assert_eq!(store.active_challenge_count(), 0);
}

#[test]
fn entry_expiry_boundary() {
    let e = ChallengeEntry::new("k".to_string(), 100);
    assert!(!e.is_expired(3700));
    assert!(e.is_expired(3701));
    assert!(!e.is_expired(50));
}
