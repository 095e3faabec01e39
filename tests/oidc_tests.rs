use basic_auth_bridge::bridge::render;
use basic_auth_bridge::err::{INTERNAL_SERVER_ERROR, UNAUTHORIZED};
use basic_auth_bridge::oidc::{ClaimsPolicy, NextStep, TokenClaims};
use serde_json::Value;

fn claims(sub: &str, extra: Vec<(&str, Value)>) -> TokenClaims {
    let mut additional = serde_json::Map::new();
    for (k, v) in extra {
        additional.insert(k.to_string(), v);
    }
    TokenClaims {
        subject: sub.to_string(),
        email: None,
        preferred_username: None,
        additional,
    }
}

fn strings(v: &[&str]) -> Value {
    Value::Array(v.iter().map(|s| Value::String(s.to_string())).collect())
}

fn groups_policy() -> ClaimsPolicy {
    ClaimsPolicy::new(Some("groups".to_string()), Vec::new())
}

#[test]
fn alice_groups_come_from_user_info() {
    let policy = groups_policy();
    let step = policy.after_token_exchange(Ok(Some(claims("alice-id", vec![]))));
    assert!(matches!(step, NextStep::FetchUserInfo));
    let info = policy.after_user_info(Ok(claims("alice-id", vec![("groups", strings(&["dev", "ops"]))])));
    let i = info.as_ref().unwrap();
    assert_eq!(i.groups, vec!["dev".to_string(), "ops".to_string()]);
    let resp = render(&info);
    assert_eq!(resp.status, 200);
    assert_eq!(
        resp.headers,
        vec![
            ("X-Auth-Request-User".to_string(), "alice-id".to_string()),
            ("X-Auth-Request-Groups".to_string(), "dev,ops".to_string()),
        ]
    );
}

#[test]
fn rejected_exchange_is_unauthorized() {
    let policy = groups_policy();
    let step = policy.after_token_exchange(Err("invalid_grant".to_string()));
    match step {
        NextStep::Done(Err(e)) => {
            assert_eq!(e.status(), UNAUTHORIZED);
            assert_eq!(e.message(), "invalid_grant");
            let resp = render(&Err(e));
            assert_eq!(resp.status, 401);
            assert!(resp.headers.is_empty());
        }
        _ => panic!("expected a finished step"),
    }
}

#[test]
fn id_token_with_groups_wins() {
    let policy = groups_policy();
    let step = policy.after_token_exchange(Ok(Some(claims("u1", vec![("groups", strings(&["a"]))]))));
    match step {
        NextStep::Done(Ok(i)) => {
            assert_eq!(i.id, "u1");
            assert_eq!(i.groups, vec!["a".to_string()]);
        }
        _ => panic!("expected the identity token to settle it"),
    }
}

#[test]
fn id_token_without_groups_config_wins_with_no_groups() {
    let policy = ClaimsPolicy::new(None, Vec::new());
    let step = policy.after_token_exchange(Ok(Some(claims("u2", vec![("groups", strings(&["a"]))]))));
    match step {
        NextStep::Done(Ok(i)) => assert!(i.groups.is_empty()),
        _ => panic!("expected the identity token to settle it"),
    }
}

#[test]
fn no_identity_token_asks_user_info() {
    let policy = groups_policy();
    assert!(matches!(policy.after_token_exchange(Ok(None)), NextStep::FetchUserInfo));
}

#[test]
fn malformed_groups_claim_is_internal_error() {
    let policy = groups_policy();
    let step = policy.after_token_exchange(Ok(Some(claims("u3", vec![("groups", Value::String("a".to_string()))]))));
    match step {
        NextStep::Done(Err(e)) => assert_eq!(e.status(), INTERNAL_SERVER_ERROR),
        _ => panic!("expected a decode error"),
    }
    let r = policy.parse_user_info_claims(claims("u3", vec![("groups", Value::Bool(true))]));
    assert_eq!(r.unwrap_err().status(), INTERNAL_SERVER_ERROR);
}

#[test]
fn user_info_without_groups_claim_has_no_groups() {
    let policy = groups_policy();
    let mut c = claims("u4", vec![]);
    c.email = Some("u4@example.org".to_string());
    let i = policy.after_user_info(Ok(c)).unwrap();
    assert!(i.groups.is_empty());
    assert_eq!(i.email.as_deref(), Some("u4@example.org"));
}

#[test]
fn failed_user_info_call_is_internal_error() {
    let policy = groups_policy();
    let e = policy.after_user_info(Err("timeout".to_string())).unwrap_err();
    assert_eq!(e.status(), INTERNAL_SERVER_ERROR);
}

#[test]
fn id_token_claims_without_configured_claim_give_none() {
    let policy = groups_policy();
    assert!(policy.parse_id_token_claims(claims("u5", vec![])).unwrap().is_none());
}

#[test]
fn token_scopes_start_with_base_scopes() {
    let policy = ClaimsPolicy::new(None, vec!["groups".to_string(), "offline_access".to_string()]);
    assert_eq!(policy.token_scopes(), vec!["openid", "email", "profile", "groups", "offline_access"]);
    let policy = ClaimsPolicy::new(None, Vec::new());
    assert_eq!(policy.token_scopes(), vec!["openid", "email", "profile"]);
}
