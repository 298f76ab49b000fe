use zitadel_core::oidc::{ClientMetadata, UserClaims};
use zitadel_core::oidc_op::{ClientAuthMethod, ClientAuthentication, GrantKind, StoredToken, TokenLifetimes};
use zitadel_core::oidc_token::{
    access_token_claims, check_refresh_redemption, check_stored_token, id_token_claims, refresh_family,
    refresh_token_claims, reissues_refresh_token, require_client, require_client_auth, require_presented,
    require_subject, session_of, token_record, userinfo_response, PresentedToken,
};

fn user() -> UserClaims {
    UserClaims {
        subject: "user-1".to_string(),
        name: "Alice".to_string(),
        email: "alice@example.com".to_string(),
        email_verified: true,
    }
}

fn stored(token_type: &str, family: Option<&str>) -> StoredToken {
    StoredToken {
        token_id: "tok-1".to_string(),
        token_type: token_type.to_string(),
        user_id: Some("user-1".to_string()),
        session_id: Some("session-1".to_string()),
        client_id: "client".to_string(),
        application_id: "app-1".to_string(),
        scope: "openid offline_access".to_string(),
        refresh_family_id: family.map(|f| f.to_string()),
    }
}

#[test]
fn token_uses_consumed_auth_time_in_id_token() {
    let claims = id_token_claims(
        "https://issuer.example",
        &user(),
        "client",
        "nonce",
        Some(1_700_000_123),
        Some("session-1"),
        1_700_000_200,
        "jti-1".to_string(),
        43200,
    );
    assert_eq!(claims.auth_time, Some(1_700_000_123));
    assert_eq!(claims.iss, "https://issuer.example");
    assert_eq!(claims.aud, "client");
    assert_eq!(claims.exp, 1_700_000_200 + 43200);
    assert_eq!(claims.iat, 1_700_000_200);
    assert_eq!(claims.sid.as_deref(), Some("session-1"));
    assert_eq!(claims.nonce, "nonce");
    assert_eq!(claims.email, "alice@example.com");
}

#[test]
fn token_claims_use_request_origin_when_unpinned() {
    let access = access_token_claims("https://demo.example.com", "user-1", "client", "openid", None, 10, "a".to_string(), 5);
    assert_eq!(access.iss, "https://demo.example.com");
    assert_eq!(access.exp, 15);
    assert_eq!(access.client_id, "client");
    assert!(access.sid.is_none());
    let refresh = refresh_token_claims("https://demo.example.com", "user-1", "client", "openid offline_access", Some("s"), 10, "r".to_string(), 100);
    assert_eq!(refresh.exp, 110);
    assert_eq!(refresh.scope, "openid offline_access");
}

#[test]
fn token_exchange_persists_session_linked_tokens() {
    let lifetimes = TokenLifetimes::default();
    let session = session_of("session-1");
    let family = Some("refresh-jti".to_string());
    let access = token_record(
        false,
        "access-jti",
        "raw-access",
        Some("user-1"),
        &session,
        "client",
        "app-1",
        "openid offline_access",
        &family,
        "authorization_code",
        &lifetimes,
    );
    assert_eq!(access.token_type, "oidc_access");
    assert_eq!(access.session_id.as_deref(), Some("session-1"));
    assert_eq!(access.refresh_family_id.as_deref(), Some("refresh-jti"));
    assert_eq!(access.expires_in_secs, 43200);
    let refresh = token_record(
        true,
        "refresh-jti",
        "raw-refresh",
        Some("user-1"),
        &session,
        "client",
        "app-1",
        "openid offline_access",
        &family,
        "authorization_code",
        &lifetimes,
    );
    assert_eq!(refresh.token_type, "oidc_refresh");
    assert_eq!(refresh.expires_in_secs, 2_592_000);
    assert_eq!(refresh.refresh_family_id, access.refresh_family_id);
    assert!(session_of("").is_none());
}

#[test]
fn refresh_families() {
    assert_eq!(refresh_family(&stored("oidc_refresh", Some("fam"))), "fam");
    assert_eq!(refresh_family(&stored("oidc_refresh", None)), "tok-1");
    assert!(reissues_refresh_token("openid offline_access"));
    assert!(!reissues_refresh_token("openid"));
}

#[test]
fn client_and_subject_requirements() {
    let auth = ClientAuthentication {
        client_id: "client".to_string(),
        client_secret: String::new(),
        method: ClientAuthMethod::ClientSecretPost,
    };
    assert_eq!(require_client_auth(Some(&auth), GrantKind::RefreshToken).unwrap().client_id, "client");
    let err = require_client_auth(None, GrantKind::AuthorizationCode).unwrap_err();
    assert_eq!(err.body.error_description.as_deref(), Some("client_id required"));
    let err = require_client_auth(None, GrantKind::ClientCredentials).unwrap_err();
    assert_eq!(err.body.error_description.as_deref(), Some("client authentication required"));
    assert_eq!(err.status_code, 401);
    let missing: Option<ClientMetadata> = None;
    assert_eq!(require_client(missing).unwrap_err().body.error_description.as_deref(), Some("unknown client_id"));
    assert_eq!(require_subject(None).unwrap_err().body.error, "invalid_grant");
    assert_eq!(require_subject(Some(user())).unwrap().subject, "user-1");
}

#[test]
fn presented_tokens_must_not_be_empty() {
    assert!(require_presented("x", PresentedToken::AccessToken).is_ok());
    let e = require_presented("", PresentedToken::AccessToken).unwrap_err();
    assert_eq!(e.body.error_description.as_deref(), Some("Bearer token required"));
    let e = require_presented("", PresentedToken::RefreshToken).unwrap_err();
    assert_eq!(e.body.error_description.as_deref(), Some("refresh_token required"));
    let e = require_presented("", PresentedToken::IdTokenHint).unwrap_err();
    assert_eq!(e.body.error_description.as_deref(), Some("id_token_hint required"));
}

#[test]
fn stored_token_enforcement() {
    let t = stored("oidc_access", None);
    assert!(check_stored_token(false, None, "oidc_access", "x").is_ok());
    assert!(check_stored_token(true, Some(&t), "oidc_access", "tok-1").is_ok());
    assert_eq!(check_stored_token(true, Some(&t), "oidc_refresh", "tok-1").unwrap_err().body.error, "invalid_grant");
    assert_eq!(check_stored_token(true, Some(&t), "oidc_access", "other").unwrap_err().body.error, "invalid_grant");
    assert!(check_stored_token(true, None, "oidc_access", "tok-1").is_err());
}

#[test]
fn refresh_redemption_checks() {
    let err = check_refresh_redemption(None, "client", "client").unwrap_err();
    assert_eq!(err.body.error_description.as_deref(), Some("refresh token not found"));
    let err = check_refresh_redemption(Some(stored("oidc_refresh", None)), "client", "other").unwrap_err();
    assert_eq!(err.body.error_description.as_deref(), Some("refresh token client mismatch"));
    assert_eq!(check_refresh_redemption(Some(stored("oidc_refresh", None)), "client", "client").unwrap().token_id, "tok-1");
}

#[test]
fn userinfo_copies_claims() {
    let info = userinfo_response(user());
    assert_eq!(info.sub, "user-1");
    assert_eq!(info.name, "Alice");
    assert!(info.email_verified);
}
