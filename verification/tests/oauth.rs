//! Logging in: the token, the challenge and the callback.

use std::time::{SystemTime, UNIX_EPOCH};

use sha2::{Digest, Sha256};
use shows::oauth::{
    accept_code, authenticate, b64url, build_login_url, cache_base, ensure_token, exchange_body,
    exchange_code, load_cached_token, parse_query, pkce_pair, rand_b64url, redirect_uri, save_token,
    token_url, usable_token, CallbackOutcome, ExchangeReply, Token, CACHE_VERSION,
};

fn token(text: &str, expires_at: i64) -> Token {
    Token { token: text.to_string(), expires_at, version: CACHE_VERSION }
}

#[test]
fn b64url_is_urlsafe_no_pad() {
    assert_eq!(b64url(b"hello"), "aGVsbG8"); // "aGVsbG8=" without padding
    assert_eq!(b64url(&[0xfb, 0xff]), "-_8");
}

#[test]
fn pkce_challenge_is_sha256_of_verifier() {
    let (verifier, challenge) = pkce_pair();
    assert_eq!(challenge, b64url(&Sha256::digest(verifier.as_bytes())));
    assert!(verifier.len() >= 43); // 32 bytes -> 43 url-safe base64 chars
}

#[test]
fn random_texts_have_the_length_of_their_bytes() {
    assert_eq!(rand_b64url(16).len(), 22);
    assert_eq!(rand_b64url(0), "");
}

#[test]
fn token_expired_logic() {
    let now = SystemTime::now().duration_since(UNIX_EPOCH).unwrap().as_secs() as i64;
    assert!(token("", now + 99999).expired()); // empty
    assert!(!token("x", now + 99999).expired()); // far future
    assert!(token("x", now - 10).expired()); // past
}

#[test]
fn token_cache_round_trip_and_version_gate() {
    let text = save_token(&token("jwt", 123456));
    let loaded = load_cached_token(Some(&text)).unwrap();
    assert_eq!(loaded.token, "jwt");
    assert_eq!(loaded.expires_at, 123456);
    // a wrong cache version is rejected
    assert!(load_cached_token(Some(r#"{"version":999,"token":"x","expires_at":1}"#)).is_none());
    // a missing file is None
    assert!(load_cached_token(None).is_none());
    assert!(load_cached_token(Some("not json")).is_none());
}

#[test]
fn only_a_token_that_still_counts_is_used() {
    let now = SystemTime::now().duration_since(UNIX_EPOCH).unwrap().as_secs() as i64;
    assert!(ensure_token(Some(token("x", now + 99999))).is_some());
    assert!(ensure_token(Some(token("x", now - 10))).is_none());
    assert!(ensure_token(None).is_none());
    assert!(usable_token(Some(token("x", 1000)), 0).is_some());
}

#[test]
fn login_url_carries_pkce_params() {
    let u = build_login_url("https://auth.x", "http://127.0.0.1:5/callback", "CH", "ST");
    assert!(u.starts_with("https://auth.x/api/auth/cli/user-login?"));
    assert!(u.contains("code_challenge=CH"));
    assert!(u.contains("code_challenge_method=S256"));
    assert!(u.contains("state=ST"));
    assert!(u.contains("redirect_uri=http%3A%2F%2F127.0.0.1%3A5%2Fcallback"));
}

#[test]
fn parse_query_decodes_values() {
    let p = parse_query("code=abc%2F123&state=xyz");
    assert_eq!(p.get("code").unwrap(), "abc/123");
    assert_eq!(p.get("state").unwrap(), "xyz");
    assert!(p.get("other").is_none());
}

#[test]
fn a_login_asks_with_its_own_challenge_and_state() {
    let attempt = authenticate("https://auth.x", 5);
    assert_eq!(redirect_uri(5), "http://127.0.0.1:5/callback");
    assert!(attempt.login_url.contains(&format!("state={}", attempt.state)));
    assert!(attempt
        .login_url
        .contains(&format!("code_challenge={}", b64url(&Sha256::digest(attempt.verifier.as_bytes())))));
}

#[test]
fn a_callback_needs_the_state_that_was_sent() {
    let (_, good) = accept_code("GET /callback?code=abc&state=ST HTTP/1.1", "ST");
    assert!(matches!(good, CallbackOutcome::Code(c) if c == "abc"));
    let (_, bad) = accept_code("GET /callback?code=abc&state=other HTTP/1.1", "ST");
    assert!(!matches!(bad, CallbackOutcome::Code(_)));
    let (_, stray) = accept_code("GET /favicon.ico HTTP/1.1", "ST");
    assert!(!matches!(stray, CallbackOutcome::Code(_)));
}

#[test]
fn the_code_is_exchanged_at_the_token_address() {
    assert!(token_url("https://auth.x").starts_with("https://auth.x/"));
    let body: serde_json::Value = serde_json::from_str(&exchange_body("C", "V", "R")).unwrap();
    assert_eq!(body["code"], "C");
    assert!(exchange_code(ExchangeReply::Failed("down".to_string())).is_err());
}

#[test]
fn the_cache_lies_in_the_users_folder() {
    assert_eq!(cache_base(Some("C:\\Roaming".to_string()), None), "C:\\Roaming");
}

#[test]
fn a_token_of_another_version_is_not_read_back() {
    let old = Token { version: 7, ..token("jwt", 123456) };
    assert!(load_cached_token(Some(&save_token(&old))).is_none());
    let expired = load_cached_token(Some(&save_token(&token("jwt", -5)))).unwrap();
    assert_eq!((expired.expires_at, expired.version), (-5, CACHE_VERSION));
}
