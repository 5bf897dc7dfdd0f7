//! Persistence: what the saved form of a jar holds, and what loading it
//! back reproduces.

use surf_cookie_middleware::CookieMiddleware;

fn line_count(bytes: &[u8]) -> usize {
    bytes.iter().filter(|b| **b == b'\n').count()
}

#[test]
fn save_and_load_round_trip() {
    let mut mw = CookieMiddleware::new();

    mw.store_cookies(
        &vec!["name=value; Path=/; Max-Age=100".to_string()],
        "http://example.com/persistent/name/value",
    );
    let bytes: Vec<u8> = mw.save_to_bytes();
    assert_eq!(line_count(&bytes), 1);

    mw.store_cookies(
        &vec!["other=other-value; Path=/; Max-Age=100".to_string()],
        "http://example.com/persistent/other/other-value",
    );
    let bytes: Vec<u8> = mw.save_to_bytes();
    assert_eq!(line_count(&bytes), 2);

    let mw2 = CookieMiddleware::load_from_bytes(&bytes);
    assert_eq!(
        mw2.cookie_header("http://example.com/cookies"),
        "name=value; other=other-value"
    );
}

#[test]
fn session_cookie_never_saved_persistent_cookie_is() {
    let mut mw = CookieMiddleware::new();
    let base = "http://example.com/";

    mw.store_cookies(
        &vec![
            "SESSION_ONLY=transient; Path=/".to_string(),
            "KEEPER=durable; Path=/; Max-Age=100".to_string(),
        ],
        base,
    );
    assert_eq!(mw.cookie_header(base), "KEEPER=durable; SESSION_ONLY=transient");

    let bytes: Vec<u8> = mw.save_to_bytes();
    let text = String::from_utf8(bytes).unwrap();
    assert!(!text.contains("SESSION_ONLY"));
    assert!(text.contains("KEEPER"));
}

#[test]
fn empty_jar_saves_to_nothing() {
    let mw = CookieMiddleware::new();
    let bytes: Vec<u8> = mw.save_to_bytes();
    assert_eq!(bytes.len(), 0);
}

#[test]
fn empty_bytes_load_as_an_empty_jar() {
    let empty: Vec<u8> = Vec::new();
    let mw = CookieMiddleware::load_from_bytes(&empty);
    assert_eq!(mw.cookie_header("http://example.com/"), "");
}

#[test]
fn undecodable_bytes_load_as_an_empty_jar() {
    let garbage: Vec<u8> = b"this is not a cookie jar\n".to_vec();
    let mw = CookieMiddleware::load_from_bytes(&garbage);
    assert_eq!(mw.cookie_header("http://example.com/"), "");
    let resaved: Vec<u8> = mw.save_to_bytes();
    assert_eq!(resaved.len(), 0);
}
