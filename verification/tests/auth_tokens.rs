use fincore::auth::{JwtManager, make_claims};

#[test]
fn test_generate_and_verify_token() {
    let manager = JwtManager::new("test_secret".to_string());
    let token = manager
        .generate_access_token("user123", "testuser", "user")
        .unwrap();

    let claims = manager.verify_token(&token).unwrap();
    assert_eq!(claims.sub, "user123");
    assert_eq!(claims.username, "testuser");
    assert_eq!(claims.role, "user");
}

#[test]
fn test_refresh_token_claims() {
    let manager = JwtManager::new("test_secret".to_string());
    let token = manager
        .generate_refresh_token("user123", "testuser", "user")
        .unwrap();
    let claims = manager.verify_token(&token).unwrap();
    assert_eq!(claims.sub, "user123");
    assert_eq!(claims.user_id, "user123");
    assert_eq!(claims.username, "");
    assert_eq!(claims.role, "refresh");
    assert_eq!(claims.exp - claims.iat, 604_800);
}

#[test]
fn test_verify_token_rejects_garbage() {
    let manager = JwtManager::new("test_secret".to_string());
    let err = manager.verify_token("not.a.token").unwrap_err();
    assert!(matches!(err, fincore::error::Error::Unauthorized(_)));
    assert!(err.describe().starts_with("Unauthorized: Invalid token: "));
}

#[test]
fn test_verify_token_rejects_wrong_secret() {
    let manager = JwtManager::new("test_secret".to_string());
    let token = manager
        .generate_access_token("user123", "testuser", "user")
        .unwrap();
    let other = JwtManager::new("another_secret".to_string());
    assert!(other.verify_token(&token).is_err());
}

#[test]
fn test_make_claims_fields() {
    let c = make_claims("u1", "alice", "admin", 1_000, 8_200);
    assert_eq!(c.sub, "u1");
    assert_eq!(c.user_id, "u1");
    assert_eq!(c.username, "alice");
    assert_eq!(c.role, "admin");
    assert_eq!(c.iat, 1_000);
    assert_eq!(c.exp, 8_200);
}

#[test]
fn test_access_token_expiry_window() {
    let manager = JwtManager::new("s3".to_string());
    assert_eq!(manager.access_token_expiry_secs, 7_200);
    assert_eq!(manager.refresh_token_expiry_secs, 604_800);
    let token = manager.generate_access_token("u", "n", "user").unwrap();
    let claims = manager.verify_token(&token).unwrap();
    assert_eq!(claims.exp - claims.iat, 7_200);
}
