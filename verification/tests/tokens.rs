//! Token text codec and session-header extraction.

use hausmeister::errors::AuthError;
use hausmeister::token::{extract_session_id, format_token, new_token, parse_token_at};

#[test]
fn format_then_parse_round_trips() {
    for v in [
        0u128,
        1,
        0xdeadbeef,
        0x0123_4567_89ab_cdef_0123_4567_89ab_cdef,
        u128::MAX,
    ] {
        let text = format_token(v);
        assert_eq!(text.len(), 36);
        assert_eq!(parse_token_at(&text, 0), Some(v));
    }
}

#[test]
fn format_matches_canonical_uuid_text() {
    let v = 0x0123_4567_89ab_cdef_0123_4567_89ab_cdefu128;
    let text = format_token(v);
    assert_eq!(
        String::from_utf8(text).unwrap(),
        "01234567-89ab-cdef-0123-456789abcdef"
    );
}

#[test]
fn parse_rejects_malformed_text() {
    assert_eq!(parse_token_at(b"01234567-89ab-cdef-0123-456789abcdeg", 0), None);
    assert_eq!(parse_token_at(b"01234567x89ab-cdef-0123-456789abcdef", 0), None);
}

#[test]
fn parse_accepts_uppercase_digits() {
    assert_eq!(
        parse_token_at(b"01234567-89AB-CDEF-0123-456789ABCDEF", 0),
        Some(0x0123_4567_89ab_cdef_0123_4567_89ab_cdefu128)
    );
}

#[test]
fn bearer_header_is_extracted() {
    let v = new_token();
    let mut header = b"Bearer ".to_vec();
    header.extend_from_slice(&format_token(v));
    assert_eq!(extract_session_id(Some(&header)), Ok(v));
}

#[test]
fn missing_header_is_not_logged_in() {
    assert_eq!(extract_session_id(None), Err(AuthError::NotLoggedIn));
}

#[test]
fn malformed_header_is_rejected() {
    assert_eq!(
        extract_session_id(Some(b"Basic 01234567-89ab-cdef-0123-456789abcdef")),
        Err(AuthError::MalformedSessionHeader)
    );
    assert_eq!(
        extract_session_id(Some(b"Bearer not-a-token")),
        Err(AuthError::MalformedSessionHeader)
    );
}
