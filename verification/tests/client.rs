use excentra_pulse::client::{auth_header, status_error, to_path_symbol, ClientError};

#[test]
fn path_symbol_replaces_slashes() {
    assert_eq!(to_path_symbol("BTC/USDT"), "BTC-USDT");
    assert_eq!(to_path_symbol("ETHUSDT"), "ETHUSDT");
    assert_eq!(to_path_symbol("A/B/C"), "A-B-C");
    assert_eq!(to_path_symbol(""), "");
}

#[test]
fn success_statuses_are_no_error() {
    assert!(status_error(200, 5, "200 OK", "").is_none());
    assert!(status_error(204, 5, "204 No Content", "").is_none());
    assert!(status_error(299, 5, "299", "").is_none());
}

#[test]
fn status_401_is_unauthorized() {
    assert!(matches!(status_error(401, 5, "401 Unauthorized", "no"), Some(ClientError::Unauthorized)));
}

#[test]
fn status_429_is_rate_limited_with_the_wait() {
    assert!(matches!(status_error(429, 42, "429 Too Many Requests", ""), Some(ClientError::RateLimited(42))));
}

#[test]
fn other_statuses_carry_status_and_body() {
    match status_error(404, 5, "404 Not Found", "missing pair") {
        Some(ClientError::Other(m)) => assert_eq!(m, "Request failed with status 404 Not Found: missing pair"),
        other => panic!("unexpected {:?}", other),
    }
    assert!(matches!(status_error(500, 5, "500", ""), Some(ClientError::Other(_))));
}

#[test]
fn auth_header_needs_a_token() {
    assert_eq!(auth_header(&Some("abc".to_string())).unwrap(), "Bearer abc");
    assert!(matches!(auth_header(&None), Err(ClientError::Unauthorized)));
}

#[test]
fn client_error_messages() {
    assert_eq!(ClientError::Unauthorized.to_string(), "Unauthorized");
    assert_eq!(ClientError::RateLimited(3).to_string(), "Rate limited");
    assert_eq!(ClientError::Other("boom".to_string()).to_string(), "boom");
}
