use basic_auth_bridge::err::{BoundaryError, ProxyError, INTERNAL_SERVER_ERROR, UNAUTHORIZED};

fn proxy_result() -> Result<(), BoundaryError> {
    i32::from_str_radix("foo", 10).map_err(|e| {
        ProxyError::from_source(BoundaryError::Unclassified(e.to_string()), UNAUTHORIZED)
    })?;
    Ok(())
}

#[test]
fn test_proxy_downcast() {
    let e = ProxyError::new("test".to_string(), UNAUTHORIZED);
    let e2: BoundaryError = e.into();
    let e3: ProxyError = e2.into();
    assert_eq!(e3.status(), UNAUTHORIZED);
}

#[test]
fn test_proxy_result() {
    let r = proxy_result();
    assert!(r.is_err());
    let e = r.unwrap_err();
    let e2 = e.downcast();
    assert!(e2.is_ok());
    assert!(e2.unwrap().status() == UNAUTHORIZED);
}

#[test]
fn classified_error_keeps_status_and_message_through_boundary() {
    let e = ProxyError::new("claims".to_string(), INTERNAL_SERVER_ERROR);
    let back: ProxyError = BoundaryError::from(e).into();
    assert_eq!(back.status(), INTERNAL_SERVER_ERROR);
    assert_eq!(back.message(), "claims");
    let e = ProxyError::new("denied".to_string(), UNAUTHORIZED);
    let back: ProxyError = BoundaryError::from(e).into();
    assert_eq!(back.status(), UNAUTHORIZED);
    assert_eq!(back.message(), "denied");
}

#[test]
fn unclassified_error_defaults_to_internal() {
    let back: ProxyError = BoundaryError::Unclassified("boom".to_string()).into();
    assert_eq!(back.status(), INTERNAL_SERVER_ERROR);
    assert_eq!(back.message(), "boom");
}

#[test]
fn from_source_keeps_message() {
    let e = ProxyError::from_source(BoundaryError::Unclassified("bad".to_string()), UNAUTHORIZED);
    assert_eq!(e.status(), UNAUTHORIZED);
    assert_eq!(e.message(), "bad");
}

#[test]
fn downcast_of_unclassified_is_err() {
    let r = BoundaryError::Unclassified("x".to_string()).downcast();
    assert!(matches!(r, Err(BoundaryError::Unclassified(ref m)) if m == "x"));
}
