use lait::serve::{bearer_token, presented_token, session_cookie, mint_token, query_param};

#[test]
fn query_param_finds_only_an_exact_key() {
    assert_eq!(query_param("token=abc", "token"), Some("abc".into()));
    assert_eq!(query_param("a=1&token=abc&b=2", "token"), Some("abc".into()));
    assert_eq!(query_param("a=1", "token"), None);
    assert_eq!(query_param("xtoken=abc", "token"), None);
    assert_eq!(query_param("", "token"), None);
}

#[test]
fn query_param_takes_the_first_match_and_the_rest_after_the_first_equals() {
    assert_eq!(query_param("token=a=b&token=c", "token"), Some("a=b".into()));
    assert_eq!(query_param("token&token=", "token"), Some("".into()));
    assert_eq!(query_param("=v", ""), Some("v".into()));
}

#[test]
fn minted_tokens_are_64_hex_chars_and_not_repeated() {
    let a = mint_token().expect("randomness");
    let b = mint_token().expect("randomness");
    assert_eq!(a.len(), 64);
    assert!(a.chars().all(|c| c.is_ascii_hexdigit()));
    assert_ne!(a, b, "a per-run token must not be deterministic");
}

#[test]
fn the_session_cookie_is_http_only_and_strict() {
    assert_eq!(session_cookie("abc"), "lait_token=abc; Path=/; HttpOnly; SameSite=Strict");
}

#[test]
fn a_bearer_header_carries_its_token() {
    assert_eq!(bearer_token("Bearer t0k"), Some("t0k".to_string()));
    assert_eq!(bearer_token("Bearer "), Some(String::new()));
    assert_eq!(bearer_token("bearer t0k"), None);
    assert_eq!(bearer_token("Basic t0k"), None);
    assert_eq!(bearer_token("Bear"), None);
}

#[test]
fn presented_tokens_prefer_header_then_cookie_then_query() {
    assert_eq!(presented_token(Some("Bearer h"), Some("c"), Some("token=q")), Some("h".to_string()));
    assert_eq!(presented_token(Some("Basic h"), Some("c"), Some("token=q")), Some("c".to_string()));
    assert_eq!(presented_token(None, None, Some("a=1&token=q")), Some("q".to_string()));
    assert_eq!(presented_token(None, None, Some("a=1")), None);
    assert_eq!(presented_token(None, None, None), None);
}
