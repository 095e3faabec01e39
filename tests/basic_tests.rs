use base64::Engine;
use basic_auth_bridge::basic::{header_text, parse_authorization, parse_basic_auth, split_credentials, AuthFault};
use basic_auth_bridge::err::UNAUTHORIZED;
use hyper::header::{HeaderMap, HeaderValue};

fn basic(payload: &[u8]) -> String {
    format!("Basic {}", base64::engine::general_purpose::STANDARD.encode(payload))
}

#[test]
fn password_with_colons_round_trips() {
    let c = parse_authorization(&basic(b"user:pa:ss")).unwrap();
    assert_eq!(c.username, "user");
    assert_eq!(c.password, "pa:ss");
}

#[test]
fn bearer_scheme_is_rejected() {
    let r = parse_authorization("Bearer abcdef");
    assert_eq!(r.unwrap_err(), AuthFault::UnsupportedScheme);
    let mut h = HeaderMap::new();
    h.insert("Authorization", HeaderValue::from_static("Bearer abcdef"));
    assert_eq!(parse_basic_auth(&h).unwrap_err().status(), UNAUTHORIZED);
}

#[test]
fn short_value_is_unsupported_scheme() {
    assert_eq!(parse_authorization("Basi").unwrap_err(), AuthFault::UnsupportedScheme);
    assert_eq!(parse_authorization("").unwrap_err(), AuthFault::UnsupportedScheme);
    assert_eq!(parse_authorization("basic dXNlcjpwYXNz").unwrap_err(), AuthFault::UnsupportedScheme);
}

#[test]
fn bad_base64_is_rejected() {
    assert_eq!(parse_authorization("Basic !!!notbase64").unwrap_err(), AuthFault::BadEncoding);
}

#[test]
fn payload_that_is_not_utf8_is_rejected() {
    assert_eq!(parse_authorization(&basic(&[0xff, 0xfe, b':', b'a'])).unwrap_err(), AuthFault::NotText);
}

#[test]
fn payload_without_colon_is_rejected() {
    assert_eq!(parse_authorization(&basic(b"userpass")).unwrap_err(), AuthFault::NoSeparator);
}

#[test]
fn empty_username_and_password() {
    let c = parse_authorization(&basic(b":")).unwrap();
    assert_eq!(c.username, "");
    assert_eq!(c.password, "");
}

#[test]
fn header_map_extraction() {
    let mut h = HeaderMap::new();
    h.insert("Authorization", HeaderValue::from_str(&basic(b"alice:correct-password")).unwrap());
    let c = parse_basic_auth(&h).unwrap();
    assert_eq!(c.username, "alice");
    assert_eq!(c.password, "correct-password");
}

#[test]
fn missing_header_is_unauthorized() {
    let h = HeaderMap::new();
    let e = parse_basic_auth(&h).unwrap_err();
    assert_eq!(e.status(), UNAUTHORIZED);
    assert_eq!(e.message(), "No basic auth");
}

#[test]
fn non_text_header_is_unauthorized() {
    let mut h = HeaderMap::new();
    h.insert("Authorization", HeaderValue::from_bytes(b"Basic \xe9t\xe9").unwrap());
    let e = parse_basic_auth(&h).unwrap_err();
    assert_eq!(e.status(), UNAUTHORIZED);
    assert_eq!(e.message(), "Invalid basic auth text");
}

#[test]
fn split_at_first_colon_only() {
    let c = split_credentials("a:b:c").unwrap();
    assert_eq!(c.username, "a");
    assert_eq!(c.password, "b:c");
    assert!(split_credentials("abc").is_none());
    let c = split_credentials("héllo:wörld").unwrap();
    assert_eq!(c.username, "héllo");
    assert_eq!(c.password, "wörld");
}

#[test]
fn every_fault_is_unauthorized() {
    for f in [
        AuthFault::Missing,
        AuthFault::NotText,
        AuthFault::UnsupportedScheme,
        AuthFault::BadEncoding,
        AuthFault::NoSeparator,
    ] {
        assert_eq!(f.into_error().status(), UNAUTHORIZED);
    }
}

#[test]
fn tab_is_text_but_not_the_scheme() {
    let mut h = HeaderMap::new();
    h.insert("Authorization", HeaderValue::from_static("Basic\tdXNlcjpwYXNz"));
    let e = parse_basic_auth(&h).unwrap_err();
    assert_eq!(e.status(), UNAUTHORIZED);
    assert_eq!(e.message(), "Unsupported auth scheme");
}

#[test]
fn header_text_reads_visible_ascii_only() {
    assert_eq!(header_text(&b"Basic a\tb".to_vec()).as_deref(), Some("Basic a\tb"));
    assert_eq!(header_text(&vec![b'a', 0x7f]), None);
    assert_eq!(header_text(&vec![b'a', 0xe9]), None);
    assert_eq!(header_text(&Vec::new()).as_deref(), Some(""));
}
