use base64::Engine;
use tams::api::{auth_base_url, extract_auth_requests};
use tams::auth::{
    authenticate, authenticate_at, check_api_key, check_basic_credentials, decode_basic_auth, AuthRequest,
    Credentials, TokenStore,
};

#[test]
fn basic_credentials_valid() {
    assert!(check_basic_credentials("test", "password"));
}

#[test]
fn basic_credentials_invalid() {
    assert!(!check_basic_credentials("wrong", "creds"));
}

#[test]
fn api_key_valid() {
    assert!(check_api_key("test-api-key"));
}

#[test]
fn api_key_invalid() {
    assert!(!check_api_key("wrong-key"));
}

#[test]
fn decode_basic_auth_valid() {
    let encoded = base64::engine::general_purpose::STANDARD.encode("test:password");
    let (user, pass) = decode_basic_auth(&encoded).unwrap();
    assert_eq!(user, "test");
    assert_eq!(pass, "password");
}

#[test]
fn decode_basic_auth_invalid() {
    assert!(decode_basic_auth("not-valid-base64!!!").is_none());
}

#[test]
fn decode_basic_auth_splits_at_first_colon() {
    let encoded = base64::engine::general_purpose::STANDARD.encode("user:pa:ss");
    let (user, pass) = decode_basic_auth(&encoded).unwrap();
    assert_eq!(user, "user");
    assert_eq!(pass, "pa:ss");
}

#[test]
fn decode_basic_auth_without_colon_is_none() {
    let encoded = base64::engine::general_purpose::STANDARD.encode("nocolon");
    assert!(decode_basic_auth(&encoded).is_none());
}

#[test]
fn decode_basic_auth_rejects_invalid_utf8() {
    let encoded = base64::engine::general_purpose::STANDARD.encode([0xffu8, 0x3a, 0x41]);
    assert!(decode_basic_auth(&encoded).is_none());
}

#[test]
fn credentials_check_own_pair() {
    let c = Credentials::new("alice", "secret");
    assert!(c.check("alice", "secret"));
    assert!(!c.check("alice", "other"));
    let d = Credentials::default();
    assert!(d.check("test", "password"));
}

#[test]
fn token_store_issue_and_validate_sync() {
    let mut store = TokenStore::new();
    let (token, expires_in) = store.issue();
    assert_eq!(expires_in, 3600);
    assert_eq!(token.len(), 36);
    assert!(store.validate(&token));
}

#[test]
fn token_store_unknown_token_invalid() {
    let store = TokenStore::new();
    assert!(!store.validate("nonexistent"));
}

#[test]
fn token_store_expired_token_invalid() {
    let mut store = TokenStore::new();
    let token = store.issue_expired();
    assert!(!store.validate(&token));
}

#[test]
fn token_lifetime_bounds_at_fixed_times() {
    let mut store = TokenStore::new();
    let (t, ttl) = store.issue_at("tok".to_string(), 5_000_000_000);
    assert_eq!(t, "tok");
    assert!(store.validate_at("tok", 5_000_000_000));
    assert!(store.validate_at("tok", 5_000_000_000 + ttl * 1_000_000_000 - 1));
    assert!(!store.validate_at("tok", 5_000_000_000 + ttl * 1_000_000_000));
}

#[test]
fn issuing_drops_expired_tokens() {
    let mut store = TokenStore::new();
    store.issue_at("old".to_string(), 0);
    store.issue_at("new".to_string(), 4_000_000_000_000);
    assert!(!store.validate_at("old", 0));
    assert!(store.validate_at("new", 4_000_000_000_000));
}

#[test]
fn authenticate_each_kind() {
    let mut store = TokenStore::new();
    let basic = AuthRequest::Basic { user: "test".into(), pass: "password".into() };
    assert!(authenticate(&basic, &store).is_ok());
    let wrong = AuthRequest::Basic { user: "wrong".into(), pass: "creds".into() };
    assert!(authenticate(&wrong, &store).is_err());
    let (token, _) = store.issue();
    assert!(authenticate(&AuthRequest::Bearer { token }, &store).is_ok());
    let missing = AuthRequest::Bearer { token: "nonexistent-token".into() };
    assert!(authenticate(&missing, &store).is_err());
    let expired = store.issue_expired();
    assert!(authenticate(&AuthRequest::Bearer { token: expired }, &store).is_err());
    assert!(authenticate(&AuthRequest::ApiKey { key: "test-api-key".into() }, &store).is_ok());
    assert!(authenticate(&AuthRequest::ApiKey { key: "wrong-key".into() }, &store).is_err());
}

#[test]
fn authenticate_bearer_at_fixed_time() {
    let mut store = TokenStore::new();
    store.issue_at("t1".to_string(), 10);
    let req = AuthRequest::Bearer { token: "t1".into() };
    assert!(authenticate_at(&req, &store, 10).is_ok());
    assert!(authenticate_at(&req, &store, 10 + 3600 * 1_000_000_000).is_err());
}

#[test]
fn auth_requests_from_basic_header() {
    let encoded = base64::engine::general_purpose::STANDARD.encode("test:password");
    let header = format!("Basic {encoded}");
    let reqs = extract_auth_requests(Some(&header), None);
    assert_eq!(reqs.len(), 1);
    match &reqs[0] {
        AuthRequest::Basic { user, pass } => {
            assert_eq!(user, "test");
            assert_eq!(pass, "password");
        }
        _ => panic!("expected Basic"),
    }
}

#[test]
fn auth_requests_from_bearer_and_key() {
    let reqs = extract_auth_requests(Some("Bearer abc"), Some("k1"));
    assert_eq!(reqs.len(), 2);
    assert!(matches!(&reqs[0], AuthRequest::Bearer { token } if token == "abc"));
    assert!(matches!(&reqs[1], AuthRequest::ApiKey { key } if key == "k1"));
}

#[test]
fn auth_requests_skip_undecodable_basic() {
    let reqs = extract_auth_requests(Some("Basic !!!"), None);
    assert!(reqs.is_empty());
    let none = extract_auth_requests(None, None);
    assert!(none.is_empty());
}

#[test]
fn auth_base_url_drops_trailing_slashes() {
    assert_eq!(auth_base_url("http://localhost:5802//"), "http://localhost:5802");
    assert_eq!(auth_base_url("http://a/b"), "http://a/b");
}

#[test]
fn grant_type_must_be_client_credentials() {
    assert!(tams::auth::check_grant_type(Some("client_credentials")).is_ok());
    assert_eq!(tams::auth::check_grant_type(Some("password")).unwrap_err(), "grant_type must be client_credentials");
    assert_eq!(tams::auth::check_grant_type(None).unwrap_err(), "grant_type must be client_credentials");
}
