use zitadel_core::json::{JsonMember, JsonValue};
use zitadel_core::oidc::{JsonWebKey, JsonWebKeySet, OpenIdConfiguration};
use zitadel_core::oidc_rp::{
    check_callback, check_nonce, claims_source, external_identity, merge_claims, metadata_url, rp_scope_text,
    select_signing_key, should_enrich_from_userinfo, start, token_request_form, CachedIssuerMetadata, ClaimsSource,
    RpAuthState, RpCallbackRequest, RpProviderSpec, RpService, RpStartRequest, VerifiedExternalIdentity,
};
use zitadel_core::sso::{
    bundled_schema_name, check_callback_params, check_provider, login_error_redirect, match_identifier,
    new_account_names, profile_string, provider_to_rp_spec, resolve_identity, rp_error_code, schema_lookup,
    IdentityAction, ProviderConnection, ProviderMatchBy, SchemaLookup,
};

fn s(v: &str) -> JsonValue {
    JsonValue::Str(v.to_string())
}

fn obj(members: Vec<(&str, JsonValue)>) -> JsonValue {
    JsonValue::Object(members.into_iter().map(|(k, v)| JsonMember { key: k.to_string(), value: v }).collect())
}

fn provider(scopes: &[&str], method: &str, secret: &str) -> RpProviderSpec {
    RpProviderSpec {
        provider_id: "provider-1".to_string(),
        issuer: "https://issuer.example".to_string(),
        client_id: "client-1".to_string(),
        client_secret: secret.to_string(),
        scopes: scopes.iter().map(|x| x.to_string()).collect(),
        token_endpoint_auth_method: method.to_string(),
    }
}

fn auth_state() -> RpAuthState {
    RpAuthState {
        provider_id: "provider-1".to_string(),
        state: "state-1".to_string(),
        nonce: "nonce-1".to_string(),
        pkce_verifier: "verifier-1".to_string(),
        flow_id: "flow-1".to_string(),
        redirect_uri: "/console".to_string(),
        expected_issuer: "https://issuer.example".to_string(),
        callback_uri: "http://localhost:8080/v1/auth/sso/callback".to_string(),
    }
}

fn metadata(authorization_endpoint: &str) -> CachedIssuerMetadata {
    CachedIssuerMetadata {
        config: OpenIdConfiguration {
            issuer: "https://issuer.example".to_string(),
            authorization_endpoint: authorization_endpoint.to_string(),
            token_endpoint: "https://issuer.example/token".to_string(),
            userinfo_endpoint: "https://issuer.example/userinfo".to_string(),
            jwks_uri: "https://issuer.example/keys".to_string(),
            revocation_endpoint: String::new(),
            end_session_endpoint: String::new(),
            response_types_supported: vec![],
            grant_types_supported: vec![],
            subject_types_supported: vec![],
            id_token_signing_alg_values_supported: vec![],
            scopes_supported: vec![],
            token_endpoint_auth_methods_supported: vec![],
            code_challenge_methods_supported: vec![],
            claims_supported: vec![],
        },
        jwks: JsonWebKeySet { keys: vec![] },
    }
}

fn identity(email: &str, verified: bool) -> VerifiedExternalIdentity {
    VerifiedExternalIdentity {
        issuer: "https://issuer.example".to_string(),
        subject: "ext-1".to_string(),
        email: email.to_string(),
        email_verified: verified,
        claims: obj(vec![]),
        id_token: None,
        access_token: "token".to_string(),
    }
}

#[test]
fn start_builds_authorization_url_and_persists_state() {
    let request = RpStartRequest {
        provider: provider(&[], "", ""),
        flow_id: "flow-1".to_string(),
        redirect_uri: "/console".to_string(),
        callback_uri: "http://localhost:8080/v1/auth/sso/callback".to_string(),
    };
    let result = start(
        &request,
        &metadata("https://issuer.example/authorize"),
        "state-1".to_string(),
        "nonce-1".to_string(),
        "dBjftJeZ4CVP-mB92K27uhbUJU1p1r_wW1gFWFOEjXk".to_string(),
    )
    .unwrap();
    assert!(result.authorization_url.starts_with("https://issuer.example/authorize?response_type=code&client_id=client-1"));
    assert!(result.authorization_url.contains("redirect_uri=http%3A%2F%2Flocalhost%3A8080%2Fv1%2Fauth%2Fsso%2Fcallback"));
    assert!(result.authorization_url.contains("scope=openid+profile+email"));
    assert!(result.authorization_url.contains("code_challenge=E9Melhoa2OwvFrEMTJguCHaoeK1t8URWbuGJSstw-cM"));
    assert!(result.authorization_url.ends_with("code_challenge_method=S256"));
    assert_eq!(result.state.state, "state-1");
    assert_eq!(result.state.expected_issuer, "https://issuer.example");
    assert_eq!(result.state.flow_id, "flow-1");
    let bad = start(&request, &metadata("not a url"), "a".to_string(), "b".to_string(), "c".to_string());
    assert_eq!(bad.unwrap_err(), "parse authorization endpoint");
}

#[test]
fn scopes_default_and_join() {
    assert_eq!(rp_scope_text(&vec![]), "openid profile email");
    assert_eq!(rp_scope_text(&vec!["openid".to_string(), "groups".to_string()]), "openid groups");
    assert_eq!(metadata_url("https://issuer.example/"), "https://issuer.example/.well-known/openid-configuration");
}

#[test]
fn callback_checks() {
    let mut request = RpCallbackRequest {
        provider: provider(&[], "", ""),
        stored_state: auth_state(),
        returned_state: "state-1".to_string(),
        code: "code-1".to_string(),
    };
    assert!(check_callback(&request).is_ok());
    request.returned_state = "other".to_string();
    assert_eq!(check_callback(&request).unwrap_err(), "invalid or expired state");
    request.returned_state = "state-1".to_string();
    request.provider.issuer = "https://elsewhere.example".to_string();
    assert_eq!(check_callback(&request).unwrap_err(), "issuer mismatch");
    request.code = String::new();
    assert_eq!(check_callback(&request).unwrap_err(), "missing authorization code");
}

#[test]
fn token_form_by_auth_method() {
    let (form, basic) = token_request_form(&provider(&[], "client_secret_basic", "secret"), &auth_state(), "code-1");
    assert_eq!(form.len(), 5);
    assert_eq!(form[1], ("code".to_string(), "code-1".to_string()));
    assert_eq!(form[4], ("code_verifier".to_string(), "verifier-1".to_string()));
    assert_eq!(basic, Some(("client-1".to_string(), "secret".to_string())));
    let (form, basic) = token_request_form(&provider(&[], "client_secret_post", "secret"), &auth_state(), "c");
    assert_eq!(form.len(), 6);
    assert_eq!(form[5], ("client_secret".to_string(), "secret".to_string()));
    assert!(basic.is_none());
    let (form, _) = token_request_form(&provider(&[], "none", ""), &auth_state(), "c");
    assert_eq!(form.len(), 5);
}

#[test]
fn claims_sources_and_enrichment() {
    assert_eq!(claims_source(true, ""), ClaimsSource::IdToken);
    assert_eq!(claims_source(false, "https://issuer.example/userinfo"), ClaimsSource::Userinfo);
    assert_eq!(claims_source(false, ""), ClaimsSource::Unavailable);
    assert!(should_enrich_from_userinfo(&obj(vec![("sub", s("user-1"))])));
    assert!(should_enrich_from_userinfo(&obj(vec![("email", s("a@example.com"))])));
    assert!(!should_enrich_from_userinfo(&obj(vec![
        ("email", s("a@example.com")),
        ("email_verified", JsonValue::Bool(false)),
    ])));
}

#[test]
fn finish_enriches_sparse_id_token_with_userinfo_claims() {
    let id_claims = obj(vec![("iss", s("https://issuer.example")), ("sub", s("user-1")), ("nonce", s("nonce-1"))]);
    let userinfo = obj(vec![
        ("sub", s("other")),
        ("email", s("userinfo@example.com")),
        ("email_verified", JsonValue::Bool(true)),
        ("name", s("User Info")),
    ]);
    assert!(should_enrich_from_userinfo(&id_claims));
    let merged = merge_claims(id_claims, userinfo);
    let identity = external_identity("https://issuer.example", merged, Some("id".to_string()), "access-1".to_string())
        .unwrap();
    assert_eq!(identity.subject, "user-1");
    assert_eq!(identity.email, "userinfo@example.com");
    assert!(identity.email_verified);
    assert_eq!(identity.access_token, "access-1");
    match &identity.claims {
        JsonValue::Object(members) => assert!(members
            .iter()
            .any(|m| m.key == "name" && matches!(&m.value, JsonValue::Str(v) if v == "User Info"))),
        other => panic!("unexpected {:?}", other),
    }
}

#[test]
fn finish_falls_back_to_userinfo_when_no_id_token_exists() {
    let userinfo = obj(vec![
        ("sub", s("userinfo-1")),
        ("email", s("userinfo@example.com")),
        ("email_verified", JsonValue::Bool(true)),
    ]);
    let identity = external_identity("https://issuer.example", userinfo, None, "access-1".to_string()).unwrap();
    assert_eq!(identity.subject, "userinfo-1");
    assert!(identity.id_token.is_none());
}

#[test]
fn identity_needs_a_subject() {
    let err = external_identity("i", obj(vec![("email", s("x"))]), None, String::new()).unwrap_err();
    assert_eq!(err, "provider response did not include sub");
    let by_id = external_identity("i", obj(vec![("id", s("42"))]), None, String::new()).unwrap();
    assert_eq!(by_id.subject, "42");
    assert!(!by_id.email_verified);
    assert!(external_identity("i", obj(vec![("sub", JsonValue::Number("7".to_string())), ("id", s("42"))]), None, String::new()).is_err());
}

#[test]
fn finish_rejects_nonce_mismatch() {
    let claims = obj(vec![("sub", s("user-1")), ("nonce", s("wrong-nonce"))]);
    assert_eq!(check_nonce(&claims, "expected-nonce").unwrap_err(), "nonce mismatch");
    assert!(check_nonce(&claims, "wrong-nonce").is_ok());
    assert!(check_nonce(&claims, "").is_ok());
    assert!(check_nonce(&obj(vec![]), "expected").is_err());
}

#[test]
fn merge_keeps_primary_claims() {
    match merge_claims(obj(vec![("a", s("1"))]), obj(vec![("a", s("2")), ("b", s("3"))])) {
        JsonValue::Object(members) => {
            assert_eq!(members.len(), 2);
            assert_eq!(members[0].key, "a");
            assert!(matches!(&members[0].value, JsonValue::Str(v) if v == "1"));
            assert_eq!(members[1].key, "b");
        }
        other => panic!("unexpected {:?}", other),
    }
    assert!(matches!(merge_claims(s("x"), obj(vec![])), JsonValue::Str(_)));
}

#[test]
fn signing_key_selection() {
    let key = |kid: &str| JsonWebKey {
        kty: "RSA".to_string(),
        use_: "sig".to_string(),
        kid: kid.to_string(),
        alg: "RS256".to_string(),
        n: "n".to_string(),
        e: "AQAB".to_string(),
    };
    let set = JsonWebKeySet { keys: vec![key("k1"), key("k2")] };
    assert_eq!(select_signing_key(&set, Some("k2")).unwrap().kid, "k2");
    assert_eq!(select_signing_key(&set, Some("k9")).unwrap().kid, "k1");
    assert_eq!(select_signing_key(&set, None).unwrap().kid, "k1");
    assert!(select_signing_key(&JsonWebKeySet { keys: vec![] }, None).is_none());
    let service = RpService::new(1u8, "cache");
    assert_eq!(service.http, 1u8);
}

#[test]
fn provider_checks() {
    assert_eq!(check_provider(false, "oidc").unwrap_err(), "provider disabled");
    assert_eq!(check_provider(true, "saml").unwrap_err(), "provider protocol is not supported by this endpoint");
    assert!(check_provider(true, "oidc").is_ok());
    let connection = ProviderConnection {
        issuer: "https://issuer.example".to_string(),
        client_id: "client-1".to_string(),
        client_secret: "secret".to_string(),
        scopes: vec!["openid".to_string()],
        token_endpoint_auth_method: "client_secret_basic".to_string(),
    };
    let spec = provider_to_rp_spec("provider-1", &connection).unwrap();
    assert_eq!(spec.provider_id, "provider-1");
    assert_eq!(spec.scopes, vec!["openid".to_string()]);
    let missing = ProviderConnection { client_id: String::new(), ..connection };
    assert_eq!(provider_to_rp_spec("p", &missing).unwrap_err(), "provider missing issuer or client_id");
}

#[test]
fn callback_parameter_checks_and_error_codes() {
    assert_eq!(check_callback_params("c", "s", "access_denied", "denied").unwrap_err(), "denied");
    assert_eq!(check_callback_params("", "s", "", "").unwrap_err(), "missing state or code");
    assert!(check_callback_params("c", "s", "", "").is_ok());
    assert_eq!(rp_error_code("Nonce mismatch"), "sso_nonce");
    assert_eq!(rp_error_code("bad NONCE here"), "sso_nonce");
    assert_eq!(rp_error_code("token endpoint failed"), "sso_token");
    assert_eq!(rp_error_code("non"), "sso_token");
    assert_eq!(
        login_error_redirect("sso_failed", "missing state or code"),
        "/login?error=sso_failed&error_description=missing+state+or+code"
    );
}

#[test]
fn matching_and_new_accounts() {
    let profile = obj(vec![("username", s("ext-user")), ("display_name", s("")), ("email", s(""))]);
    assert_eq!(profile_string(&profile, "username"), Some("ext-user".to_string()));
    assert_eq!(profile_string(&profile, "email"), None);
    assert_eq!(
        match_identifier(ProviderMatchBy::VerifiedEmail, &identity("a@example.com", true), &profile),
        Some("a@example.com".to_string())
    );
    assert_eq!(match_identifier(ProviderMatchBy::VerifiedEmail, &identity("a@example.com", false), &profile), None);
    assert_eq!(
        match_identifier(ProviderMatchBy::Identifier, &identity("a@example.com", false), &profile),
        Some("ext-user".to_string())
    );
    assert_eq!(match_identifier(ProviderMatchBy::Nothing, &identity("a@example.com", true), &profile), None);
    let (identifier, display) = new_account_names(&identity("", false), &obj(vec![]));
    assert_eq!(identifier, "ext-1");
    assert_eq!(display, "ext-1");
    let (identifier, display) =
        new_account_names(&identity("a@example.com", false), &obj(vec![("display_name", s("Alice"))]));
    assert_eq!(identifier, "a@example.com");
    assert_eq!(display, "Alice");
}

#[test]
fn link_only_rejects_unknown_user() {
    assert_eq!(
        resolve_identity(None, None, true).unwrap_err(),
        "no linked account found and provider is link_only"
    );
    assert!(matches!(resolve_identity(None, None, false).unwrap(), IdentityAction::CreateAccount));
    match resolve_identity(Some("u1".to_string()), Some("u2".to_string()), true).unwrap() {
        IdentityAction::UseLinked { user_id } => assert_eq!(user_id, "u1"),
        other => panic!("unexpected {:?}", other),
    }
    match resolve_identity(None, Some("u2".to_string()), true).unwrap() {
        IdentityAction::LinkExisting { user_id } => assert_eq!(user_id, "u2"),
        other => panic!("unexpected {:?}", other),
    }
}

#[test]
fn schema_choice() {
    assert!(matches!(schema_lookup("s1", "t"), SchemaLookup::ById { .. }));
    assert!(matches!(schema_lookup("", "t"), SchemaLookup::ByType { .. }));
    assert!(matches!(schema_lookup("", ""), SchemaLookup::Bundled));
    assert_eq!(bundled_schema_name(""), "human_user");
    assert_eq!(bundled_schema_name("machine_user"), "machine_user");
}
