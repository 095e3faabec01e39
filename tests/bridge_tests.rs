use basic_auth_bridge::bridge::{identity_headers, join_groups, render};
use basic_auth_bridge::config::{default_cache_max_size, default_cache_ttl_seconds, default_listen_addr};
use basic_auth_bridge::err::{ProxyError, INTERNAL_SERVER_ERROR};
use basic_auth_bridge::oidc::OidcUserInfo;

fn user(groups: &[&str]) -> OidcUserInfo {
    OidcUserInfo {
        id: "id-1".to_string(),
        email: None,
        preferred_username: None,
        groups: groups.iter().map(|s| s.to_string()).collect(),
    }
}

#[test]
fn empty_groups_omit_header() {
    let h = identity_headers(&user(&[]));
    assert_eq!(h, vec![("X-Auth-Request-User".to_string(), "id-1".to_string())]);
}

#[test]
fn groups_are_joined_with_commas() {
    let h = identity_headers(&user(&["a", "b"]));
    assert_eq!(h[1], ("X-Auth-Request-Groups".to_string(), "a,b".to_string()));
    assert_eq!(join_groups(&vec!["x,y".to_string(), "z".to_string()]), "x,y,z");
    assert_eq!(join_groups(&vec!["only".to_string()]), "only");
    assert_eq!(join_groups(&Vec::new()), "");
}

#[test]
fn all_headers_in_order() {
    let mut u = user(&["g"]);
    u.email = Some("a@b.c".to_string());
    u.preferred_username = Some("al".to_string());
    let r = render(&Ok(u));
    assert_eq!(r.status, 200);
    let names: Vec<&str> = r.headers.iter().map(|h| h.0.as_str()).collect();
    assert_eq!(
        names,
        vec![
            "X-Auth-Request-User",
            "X-Auth-Request-Email",
            "X-Auth-Request-Preferred-Username",
            "X-Auth-Request-Groups"
        ]
    );
    assert_eq!(r.headers[1].1, "a@b.c");
    assert_eq!(r.headers[2].1, "al");
}

#[test]
fn error_renders_its_status_only() {
    let r = render(&Err(ProxyError::new("x".to_string(), INTERNAL_SERVER_ERROR)));
    assert_eq!(r.status, 500);
    assert!(r.headers.is_empty());
    assert_eq!(r.error.as_deref(), Some("x"));
}

#[test]
fn configuration_defaults() {
    assert_eq!(default_listen_addr(), "0.0.0.0:8080");
    assert_eq!(default_cache_ttl_seconds(), 60);
    assert_eq!(default_cache_max_size(), 1000);
}

use basic_auth_bridge::basic::Credentials;
use basic_auth_bridge::bridge::{finish_request, poll_request, OutcomeCache, RequestStep};
use basic_auth_bridge::err::UNAUTHORIZED;

#[test]
fn wrong_password_is_cached_and_answered_without_second_call() {
    let mut cache = OutcomeCache::new(60_000, 100);
    let creds = Credentials { username: "alice".to_string(), password: "wrong".to_string() };
    let mut upstream_calls = 0;
    let first = match poll_request(&mut cache, &creds, 0) {
        RequestStep::Resolve => {
            upstream_calls += 1;
            finish_request(&mut cache, &creds, Err(ProxyError::new("invalid_grant".to_string(), UNAUTHORIZED)), 5)
        }
        other => panic!("unexpected step {:?}", other),
    };
    assert_eq!(first.status, 401);
    assert!(first.headers.is_empty());
    match poll_request(&mut cache, &creds, 1_000) {
        RequestStep::Answer(a) => {
            assert_eq!(a.status, 401);
            assert!(a.headers.is_empty());
        }
        RequestStep::Resolve => upstream_calls += 1,
        RequestStep::Wait => panic!("nothing is in flight"),
    }
    assert_eq!(upstream_calls, 1);
}

#[test]
fn concurrent_requests_wait_for_one_resolution() {
    let mut cache = OutcomeCache::new(60_000, 100);
    let creds = Credentials { username: "bob".to_string(), password: "pw".to_string() };
    assert!(matches!(poll_request(&mut cache, &creds, 0), RequestStep::Resolve));
    for t in 1..5 {
        assert!(matches!(poll_request(&mut cache, &creds, t), RequestStep::Wait));
    }
    let ok = finish_request(&mut cache, &creds, Ok(user(&["a", "b"])), 10);
    assert_eq!(ok.status, 200);
    match poll_request(&mut cache, &creds, 20) {
        RequestStep::Answer(a) => assert_eq!(a.headers, ok.headers),
        other => panic!("unexpected step {:?}", other),
    }
    assert!(matches!(poll_request(&mut cache, &creds, 60_010), RequestStep::Resolve));
}
