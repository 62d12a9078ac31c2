use openapi_to_axum::auth::{AuthError, AuthService, Claims, TokenType, Verdict};

fn claims(roles: Vec<&str>, token_type: TokenType) -> Claims {
    Claims {
        sub: "user123".to_string(),
        roles: roles.into_iter().map(|r| r.to_string()).collect(),
        exp: 0,
        token_type,
    }
}

#[test]
fn test_role_checking() {
    let auth_service = AuthService::new(b"test_secret");
    let claims = Claims {
        sub: "user123".to_string(),
        roles: vec!["user".to_string(), "admin".to_string()],
        exp: 0,
        token_type: TokenType::User,
    };

    assert!(auth_service.has_role(&claims, "user"));
    assert!(auth_service.has_role(&claims, "admin"));
    assert!(!auth_service.has_role(&claims, "superadmin"));
}

#[test]
fn the_service_keeps_its_secret() {
    let auth_service = AuthService::new(b"test_secret");
    assert_eq!(auth_service.secret_bytes().as_slice(), b"test_secret");
    assert!(AuthService::new(b"").secret_bytes().is_empty());
}

#[test]
fn any_role_of_the_required_ones_is_enough() {
    let auth_service = AuthService::new(b"s");
    let held = claims(vec!["user", "admin"], TokenType::User);
    assert!(auth_service.has_any_role(&held, &["root".to_string(), "admin".to_string()]));
    assert!(!auth_service.has_any_role(&held, &["root".to_string()]));
    assert!(!auth_service.has_any_role(&held, &[]));
    assert!(!auth_service.has_any_role(&claims(vec![], TokenType::User), &["user".to_string()]));
}

#[test]
fn a_token_expires_after_its_hours() {
    assert_eq!(AuthService::expiration(1_700_000_000, 24), Some(1_700_086_400));
    assert_eq!(AuthService::expiration(1_700_000_000, 0), Some(1_700_000_000));
    assert_eq!(AuthService::expiration(7_200, -1), Some(3_600));
    assert_eq!(AuthService::expiration(3_600, -1), Some(0));
    assert_eq!(AuthService::expiration(3_599, -1), None);
    assert_eq!(AuthService::expiration(0, i64::MAX), None);
    assert_eq!(AuthService::expiration(i64::MAX, 1), None);
}

#[test]
fn claims_hold_what_they_were_made_for() {
    let made = AuthService::claims_for("service-a", vec!["system".to_string()], TokenType::System, 42);
    assert_eq!(
        made,
        Claims {
            sub: "service-a".to_string(),
            roles: vec!["system".to_string()],
            exp: 42,
            token_type: TokenType::System
        }
    );
}

#[test]
fn a_header_holds_its_token_behind_the_scheme() {
    assert_eq!(AuthService::bearer_token("Bearer abc.def"), Some("abc.def".to_string()));
    assert_eq!(AuthService::bearer_token("Bearer "), Some("".to_string()));
    assert_eq!(AuthService::bearer_token("Bearer Bearer x"), Some("x".to_string()));
    assert_eq!(AuthService::bearer_token("Bearer  x"), Some(" x".to_string()));
    assert_eq!(AuthService::bearer_token("Bearer"), None);
    assert_eq!(AuthService::bearer_token("bearer abc"), None);
    assert_eq!(AuthService::bearer_token("Basic abc"), None);
    assert_eq!(AuthService::bearer_token(""), None);
}

#[test]
fn a_route_lets_one_kind_of_token_pass() {
    let user = claims(vec![], TokenType::User);
    let system = claims(vec![], TokenType::System);
    assert_eq!(AuthService::check_kind(&user, TokenType::User), Verdict::Pass);
    assert_eq!(AuthService::check_kind(&user, TokenType::System), Verdict::Unauthorized);
    assert_eq!(AuthService::check_kind(&system, TokenType::System), Verdict::Pass);
    assert_eq!(AuthService::check_kind(&system, TokenType::User), Verdict::Unauthorized);
    assert!(user.is_of(TokenType::User));
    assert!(!user.is_of(TokenType::System));
}

#[test]
fn a_route_asks_for_claims_and_then_for_a_role() {
    let auth_service = AuthService::new(b"s");
    let required = vec!["admin".to_string()];
    assert_eq!(auth_service.check_roles(None, &required), Verdict::Unauthorized);
    let user = claims(vec!["user"], TokenType::User);
    assert_eq!(auth_service.check_roles(Some(&user), &required), Verdict::Forbidden);
    let admin = claims(vec!["user", "admin"], TokenType::User);
    assert_eq!(auth_service.check_roles(Some(&admin), &required), Verdict::Pass);
}

#[test]
fn auth_errors_have_their_sentences() {
    assert_eq!(AuthError::InvalidToken.message(), "Invalid token");
    assert_eq!(AuthError::MissingToken.message(), "Missing authorization header");
    assert_eq!(AuthError::InsufficientPermissions.message(), "Insufficient permissions");
    assert_eq!(AuthError::TokenExpired.message(), "Token expired");
}
