use base64::engine::general_purpose::URL_SAFE_NO_PAD;
use base64::Engine;
use zitadel_core::oidc_authorize::plan_authorize;
use zitadel_core::oidc_token::{plan_code_exchange, plan_refresh_exchange};
use zitadel_core::oidc_request_object::{
    authorize_params_from_claims, check_request_object_header, decode_request_object_payload, split_request_object,
    RequestObjectClaims,
};
use zitadel_core::oidc::{non_empty, scope_contains, split_whitespace, ClientMetadata, ConsumedAuthRequest, ProtocolError};
use zitadel_core::oidc_authorize::{
    allows_authorization_error_redirect, authorization_error_pairs, authorize_redirect, build_authorize_request,
    check_authorize_client, check_authorize_request, merge_authorize_params, new_auth_request,
    parse_authorize_params, AuthorizeParams,
};
use zitadel_core::oidc_op::{
    append_query_param, check_client_grant, check_consumed_code, check_revoke, end_session_redirect,
    end_session_target, grant_kind, issues_refresh_token, local_client_authentication, resolve_client_auth,
    revoke_action, s256_challenge, token_response, verify_pkce, ClientAuthMethod, EndSessionRequest, GrantKind,
    Provider, RevokeAction, StoredToken, TokenLifetimes,
};

fn strings(v: &[&str]) -> Vec<String> {
    v.iter().map(|s| s.to_string()).collect()
}

fn client(grants: &[&str]) -> ClientMetadata {
    ClientMetadata {
        client_id: "client".to_string(),
        client_secret: "secret".to_string(),
        app_id: "app-1".to_string(),
        redirect_uris: strings(&["https://app.example/callback"]),
        post_logout_redirect_uris: strings(&["https://app.example/logout"]),
        grant_types: strings(grants),
        response_types: strings(&["code"]),
        state: "active".to_string(),
    }
}

fn consumed(challenge: &str) -> ConsumedAuthRequest {
    ConsumedAuthRequest {
        auth_request_id: "auth-1".to_string(),
        user_id: "user-1".to_string(),
        session_id: "session-1".to_string(),
        client_id: "client".to_string(),
        redirect_uri: "https://app.example/callback".to_string(),
        scope: "openid".to_string(),
        nonce: "nonce".to_string(),
        code_challenge: challenge.to_string(),
        auth_time: Some(1_700_000_123),
    }
}

fn assert_error(e: &ProtocolError, status: u16, code: &str, text: &str) {
    assert_eq!(e.status_code, status);
    assert_eq!(e.body.error, code);
    assert_eq!(e.body.error_description.as_deref(), Some(text));
}

#[test]
fn build_authorize_request_does_not_default_response_type() {
    let request = build_authorize_request(AuthorizeParams {
        client_id: Some("client".to_string()),
        redirect_uri: Some("https://good.example/callback".to_string()),
        scope: Some("openid".to_string()),
        state: Some("state".to_string()),
        nonce: Some("nonce".to_string()),
        ..AuthorizeParams::default()
    });

    assert!(request.response_type.is_empty());
}

#[test]
fn build_authorize_request_preserves_max_age_without_forcing_login_prompt() {
    let request = build_authorize_request(AuthorizeParams {
        prompt: Some("consent".to_string()),
        max_age: Some("1".to_string()),
        ..AuthorizeParams::default()
    });

    assert_eq!(request.prompt, vec!["consent".to_string()]);
    assert_eq!(request.max_age, Some(1));
}

#[test]
fn build_authorize_request_defaults_scope_and_drops_bad_max_age() {
    let request = build_authorize_request(AuthorizeParams {
        prompt: Some(" login  consent ".to_string()),
        max_age: Some("-1".to_string()),
        ..AuthorizeParams::default()
    });
    assert_eq!(request.scope, "openid");
    assert_eq!(request.prompt, strings(&["login", "consent"]));
    assert_eq!(request.max_age, None);
}

#[test]
fn protocol_error_omits_empty_description() {
    let err = ProtocolError::invalid_request("");
    assert!(err.body.error_description.is_none());
}

#[test]
fn protocol_error_constructors() {
    assert_error(&ProtocolError::invalid_client("x"), 401, "invalid_client", "x");
    assert_error(&ProtocolError::invalid_grant("x"), 400, "invalid_grant", "x");
    assert_error(&ProtocolError::unsupported_grant_type("x"), 400, "unsupported_grant_type", "x");
    assert_error(&ProtocolError::unauthorized_client("x"), 400, "unauthorized_client", "x");
    assert_error(&ProtocolError::server_error("x"), 500, "server_error", "x");
    assert_error(&ProtocolError::temporarily_unavailable("x"), 503, "temporarily_unavailable", "x");
}

#[test]
fn parses_query_into_authorize_params() {
    let params = parse_authorize_params("client_id=client&redirect_uri=https%3A%2F%2Fa.example%2Fcb&scope=openid+email&unknown=1&max_age=30");
    assert_eq!(params.client_id.as_deref(), Some("client"));
    assert_eq!(params.redirect_uri.as_deref(), Some("https://a.example/cb"));
    assert_eq!(params.scope.as_deref(), Some("openid email"));
    assert_eq!(params.max_age.as_deref(), Some("30"));
    assert!(params.state.is_none());
}

#[test]
fn request_object_parameters_override_outer_ones() {
    let mut outer = AuthorizeParams {
        client_id: Some("client".to_string()),
        redirect_uri: Some("https://evil.example/callback".to_string()),
        state: Some("outer".to_string()),
        ..AuthorizeParams::default()
    };
    let inner = AuthorizeParams {
        redirect_uri: Some("https://good.example/callback".to_string()),
        max_age: Some("1".to_string()),
        ..AuthorizeParams::default()
    };
    merge_authorize_params(&mut outer, inner);
    assert_eq!(outer.redirect_uri.as_deref(), Some("https://good.example/callback"));
    assert_eq!(outer.max_age.as_deref(), Some("1"));
    assert_eq!(outer.state.as_deref(), Some("outer"));
    assert_eq!(outer.client_id.as_deref(), Some("client"));
}

#[test]
fn authorize_request_checks() {
    let ok = build_authorize_request(AuthorizeParams {
        client_id: Some("client".to_string()),
        redirect_uri: Some("https://app.example/callback".to_string()),
        response_type: Some("code".to_string()),
        ..AuthorizeParams::default()
    });
    assert!(check_authorize_request(&ok).is_ok());
    let missing_type = build_authorize_request(AuthorizeParams {
        client_id: Some("client".to_string()),
        redirect_uri: Some("https://app.example/callback".to_string()),
        ..AuthorizeParams::default()
    });
    assert_error(
        &check_authorize_request(&missing_type).unwrap_err(),
        400,
        "unsupported_response_type",
        "only response_type=code is supported",
    );
    let no_client = build_authorize_request(AuthorizeParams::default());
    assert_error(&check_authorize_request(&no_client).unwrap_err(), 400, "invalid_request", "client_id required");
    let plain = build_authorize_request(AuthorizeParams {
        client_id: Some("client".to_string()),
        redirect_uri: Some("https://app.example/callback".to_string()),
        response_type: Some("code".to_string()),
        code_challenge_method: Some("plain".to_string()),
        ..AuthorizeParams::default()
    });
    assert_error(
        &check_authorize_request(&plain).unwrap_err(),
        400,
        "invalid_request",
        "only code_challenge_method=S256 is supported",
    );
}

#[test]
fn authorize_rejects_unregistered_redirect_uri() {
    let c = client(&["authorization_code"]);
    let err = check_authorize_client(Some(&c), "https://evil.example/callback").unwrap_err();
    assert_eq!(err.body.error, "invalid_request");
    assert!(check_authorize_client(Some(&c), "https://app.example/callback").is_ok());
    assert_error(&check_authorize_client(None, "x").unwrap_err(), 401, "invalid_client", "unknown client_id");
}

#[test]
fn stored_auth_request_defaults_empty_scope() {
    let mut request = build_authorize_request(AuthorizeParams::default());
    request.scope = String::new();
    let stored = new_auth_request(&request);
    assert_eq!(stored.scope, "openid");
    assert_eq!(authorize_redirect("/login", "auth-1").location, "/login?auth_request_id=auth-1");
}

#[test]
fn authorization_errors_go_back_only_to_registered_clients() {
    let c = client(&["authorization_code"]);
    assert!(allows_authorization_error_redirect("client", "https://app.example/callback", Some(&c)));
    assert!(!allows_authorization_error_redirect("client", "https://evil.example/cb", Some(&c)));
    assert!(!allows_authorization_error_redirect("", "https://app.example/callback", Some(&c)));
    assert!(!allows_authorization_error_redirect("client", "https://app.example/callback", None));
    let err = ProtocolError::invalid_request("missing response_type");
    let pairs = authorization_error_pairs(&err, "state-123").unwrap();
    assert_eq!(
        pairs,
        vec![
            ("error".to_string(), "invalid_request".to_string()),
            ("error_description".to_string(), "missing response_type".to_string()),
            ("state".to_string(), "state-123".to_string()),
        ]
    );
}

#[test]
fn pkce_s256_matches_known_value() {
    let verifier = "dBjftJeZ4CVP-mB92K27uhbUJU1p1r_wW1gFWFOEjXk";
    let expected = "E9Melhoa2OwvFrEMTJguCHaoeK1t8URWbuGJSstw-cM";
    assert_eq!(s256_challenge(verifier), expected);
}

#[test]
fn pkce_verification() {
    assert!(verify_pkce("", "").is_ok());
    assert_error(&verify_pkce("abc", "").unwrap_err(), 400, "invalid_grant", "code_verifier required");
    assert_error(&verify_pkce("abc", "wrong").unwrap_err(), 400, "invalid_grant", "PKCE verification failed");
    assert!(verify_pkce(
        "E9Melhoa2OwvFrEMTJguCHaoeK1t8URWbuGJSstw-cM",
        "dBjftJeZ4CVP-mB92K27uhbUJU1p1r_wW1gFWFOEjXk"
    )
    .is_ok());
}

#[test]
fn resolve_client_auth_from_basic_header() {
    // base64 of "client:secret"
    let header = format!("Basic {}", "Y2xpZW50OnNlY3JldA==");
    let auth = resolve_client_auth(Some(&header), "", "").unwrap().unwrap();
    assert_eq!(auth.client_id, "client");
    assert_eq!(auth.client_secret, "secret");
    assert_eq!(auth.method, ClientAuthMethod::ClientSecretBasic);
}

#[test]
fn resolve_client_auth_from_form_and_errors() {
    let auth = resolve_client_auth(None, "client", "secret").unwrap().unwrap();
    assert_eq!(auth.method, ClientAuthMethod::ClientSecretPost);
    assert_eq!(auth.client_secret, "secret");
    assert!(resolve_client_auth(None, "", "").unwrap().is_none());
    assert!(resolve_client_auth(Some("Basic !!!"), "", "").is_err());
}

#[test]
fn grant_types_and_client_checks() {
    assert_eq!(grant_kind("refresh_token").unwrap(), GrantKind::RefreshToken);
    assert_error(&grant_kind("password").unwrap_err(), 400, "unsupported_grant_type", "unsupported grant_type");
    assert_eq!(local_client_authentication("", ""), Some(true));
    assert_eq!(local_client_authentication("", "x"), Some(false));
    assert_eq!(local_client_authentication("s", "s"), None);
    let c = client(&["authorization_code"]);
    assert!(check_client_grant(&c, true, GrantKind::AuthorizationCode).is_ok());
    assert_error(
        &check_client_grant(&c, false, GrantKind::AuthorizationCode).unwrap_err(),
        401,
        "invalid_client",
        "invalid client credentials",
    );
    assert_error(
        &check_client_grant(&c, false, GrantKind::ClientCredentials).unwrap_err(),
        400,
        "unauthorized_client",
        "client is not allowed to use client_credentials",
    );
}

#[test]
fn token_rejects_wrong_pkce_verifier() {
    let c = client(&["authorization_code"]);
    let err = check_consumed_code(&c, "client", Some(consumed("expected")), "https://app.example/callback", "wrong")
        .unwrap_err();
    assert_eq!(err.body.error, "invalid_grant");
}

#[test]
fn consumed_code_checks() {
    let c = client(&["authorization_code"]);
    assert_error(
        &check_consumed_code(&c, "client", None, "", "").unwrap_err(),
        400,
        "invalid_grant",
        "authorization code not found",
    );
    assert_error(
        &check_consumed_code(&c, "other", Some(consumed("")), "", "").unwrap_err(),
        400,
        "invalid_grant",
        "authorization code client mismatch",
    );
    assert_error(
        &check_consumed_code(&c, "client", Some(consumed("")), "https://x.example", "").unwrap_err(),
        400,
        "invalid_grant",
        "redirect_uri mismatch",
    );
    let ok = check_consumed_code(&c, "client", Some(consumed("")), "", "").unwrap();
    assert_eq!(ok.auth_time, Some(1_700_000_123));
}

#[test]
fn refresh_tokens_need_grant_and_offline_access() {
    assert!(issues_refresh_token(&client(&["authorization_code", "refresh_token"]), "openid offline_access"));
    assert!(!issues_refresh_token(&client(&["authorization_code"]), "openid offline_access"));
    assert!(!issues_refresh_token(&client(&["refresh_token"]), "openid"));
    assert!(scope_contains("openid  email", "email"));
    assert_eq!(split_whitespace("a\tb  c"), strings(&["a", "b", "c"]));
}

#[test]
fn token_response_is_bearer() {
    let r = token_response("at".to_string(), &TokenLifetimes::default(), None, Some("rt".to_string()), "openid".to_string());
    assert_eq!(r.token_type, "Bearer");
    assert_eq!(r.expires_in, 43200);
    assert_eq!(r.refresh_token.as_deref(), Some("rt"));
}

#[test]
fn revocation_checks_and_actions() {
    assert_error(&check_revoke(false, false, false, "").unwrap_err(), 401, "invalid_client", "client authentication required");
    assert_error(&check_revoke(true, true, true, "").unwrap_err(), 400, "invalid_request", "token required");
    assert!(check_revoke(true, true, true, "t").is_ok());
    let refresh = StoredToken {
        token_id: "rt-1".to_string(),
        token_type: "oidc_refresh".to_string(),
        user_id: None,
        session_id: None,
        client_id: "client".to_string(),
        application_id: "app-1".to_string(),
        scope: "openid".to_string(),
        refresh_family_id: Some("family-1".to_string()),
    };
    match revoke_action(Some(&refresh), "client") {
        RevokeAction::RevokeRefreshFamily { family_id } => assert_eq!(family_id, "family-1"),
        other => panic!("unexpected {:?}", other),
    }
    assert!(matches!(revoke_action(Some(&refresh), "other"), RevokeAction::Nothing));
    assert!(matches!(revoke_action(None, "client"), RevokeAction::Nothing));
}

#[test]
fn discovery_document_uses_request_origin_when_unpinned() {
    let provider = Provider::new("default".to_string(), "http://localhost:8080".to_string(), "/login".to_string());
    let doc = provider.discovery_document(Some("https://demo.example.com"));
    assert_eq!(doc.issuer, "https://demo.example.com");
    assert_eq!(doc.authorization_endpoint, "https://demo.example.com/authorize");
}

#[test]
fn explicit_issuer_override_beats_request_origin() {
    let provider = Provider::new("default".to_string(), "http://localhost:8080".to_string(), "/login".to_string())
        .with_issuer_override(Some("https://login.example.com/".to_string()));
    assert_eq!(provider.issuer(Some("https://demo.example.com")), "https://login.example.com");
    let plain = Provider::new("default".to_string(), "http://localhost:8080".to_string(), "/login".to_string());
    assert_eq!(plain.issuer(None), "http://localhost:8080");
}

#[test]
fn end_session_uses_id_token_hint_for_redirect_validation() {
    let (client_id, session) = end_session_target("", Some(("client", Some("session-1"))), Some("other"));
    assert_eq!(client_id.as_deref(), Some("client"));
    assert_eq!(session.as_deref(), Some("session-1"));
    let c = client(&["authorization_code"]);
    let request = EndSessionRequest {
        client_id: String::new(),
        id_token_hint: "hint".to_string(),
        post_logout_redirect_uri: "https://app.example/logout".to_string(),
        state: "logout-state".to_string(),
    };
    let target = end_session_redirect(&request, client_id.as_deref(), Some(&c)).unwrap();
    assert_eq!(target, "https://app.example/logout?state=logout-state");
}

#[test]
fn end_session_without_redirect_goes_to_login() {
    let request = EndSessionRequest {
        client_id: String::new(),
        id_token_hint: String::new(),
        post_logout_redirect_uri: String::new(),
        state: String::new(),
    };
    assert_eq!(end_session_redirect(&request, None, None).unwrap(), "/login?logged_out=1");
    let request = EndSessionRequest { post_logout_redirect_uri: "https://evil.example".to_string(), ..request };
    assert_error(&end_session_redirect(&request, None, None).unwrap_err(), 400, "invalid_request", "client_id required");
}

#[test]
fn appends_query_parameters() {
    assert_eq!(append_query_param("https://a.example/x?y=1", "state", "s t"), "https://a.example/x?y=1&state=s+t");
    assert_eq!(append_query_param("https://a.example/x", "state", ""), "https://a.example/x");
    assert_eq!(append_query_param("not a url", "k", "v"), "not a url?k=v");
}

#[test]
fn providers_keep_their_settings_when_lifetimes_change() {
    let provider = Provider::new("inst".into(), "https://idp.example.com".into(), "/login".into()).with_lifetimes(
        TokenLifetimes { access_token_secs: 60, id_token_secs: 120, refresh_token_secs: 3600 },
    );
    assert_eq!(provider.instance_id, "inst");
    assert_eq!(provider.login_path, "/login");
    assert_eq!(provider.lifetimes.id_token_secs, 120);
    assert_eq!(non_empty(String::new()), None);
    assert_eq!(non_empty("x".to_string()), Some("x".to_string()));
}

#[test]
fn request_object_is_split_at_its_dots() {
    // "{"alg":"none"}" in URL-safe unpadded base64
    let parts = split_request_object("eyJhbGciOiJub25lIn0.cGF5bG9hZA.").unwrap();
    assert_eq!(parts.header, br#"{"alg":"none"}"#.to_vec());
    assert_eq!(parts.payload, "cGF5bG9hZA");
    assert_eq!(parts.signature, "");
    let signed = split_request_object("eyJhbGciOiJub25lIn0.cGF5bG9hZA.c2ln.more").unwrap();
    assert_eq!(signed.signature, "c2ln.more");
    let err = split_request_object("no-dots-here").unwrap_err();
    assert_eq!(err.status_code, 400);
    assert!(split_request_object("!!!.cGF5bG9hZA").is_err());
}

#[test]
fn only_unsigned_request_objects_pass_the_header_check() {
    assert!(check_request_object_header("none", "").is_ok());
    assert!(check_request_object_header("RS256", "").is_err());
    assert!(check_request_object_header("none", "c2ln").is_err());
}

#[test]
fn request_object_payload_is_decoded() {
    assert_eq!(decode_request_object_payload("cGF5bG9hZA").unwrap(), b"payload".to_vec());
    assert!(decode_request_object_payload("cGF5bG9hZA==").is_err());
}

#[test]
fn request_object_claims_become_parameters() {
    let params = authorize_params_from_claims(RequestObjectClaims {
        client_id: Some("client".into()),
        redirect_uri: Some("https://good.example/callback".into()),
        response_type: Some("code".into()),
        scope: Some("openid".into()),
        state: Some("state".into()),
        nonce: Some("nonce".into()),
        code_challenge: None,
        code_challenge_method: None,
        prompt: None,
        login_hint: None,
        max_age: Some(1),
    });
    assert_eq!(params.redirect_uri.as_deref(), Some("https://good.example/callback"));
    assert_eq!(params.max_age.as_deref(), Some("1"));
    assert!(params.request.is_none());
}

fn decode_object(token: &str) -> zitadel_core::oidc_authorize::AuthorizeParams {
    let parts = split_request_object(token).unwrap();
    let header: serde_json::Value = serde_json::from_slice(&parts.header).unwrap();
    check_request_object_header(header["alg"].as_str().unwrap(), &parts.signature).unwrap();
    let payload = decode_request_object_payload(&parts.payload).unwrap();
    let claims: serde_json::Value = serde_json::from_slice(&payload).unwrap();
    let text = |k: &str| claims.get(k).and_then(|v| v.as_str()).map(|s| s.to_string());
    authorize_params_from_claims(RequestObjectClaims {
        client_id: text("client_id"),
        redirect_uri: text("redirect_uri"),
        response_type: text("response_type"),
        scope: text("scope"),
        state: text("state"),
        nonce: text("nonce"),
        code_challenge: text("code_challenge"),
        code_challenge_method: text("code_challenge_method"),
        prompt: text("prompt"),
        login_hint: text("login_hint"),
        max_age: claims.get("max_age").and_then(|v| v.as_u64()),
    })
}

#[test]
fn request_object_redirect_uri_overrides_outer_param() {
    let header = URL_SAFE_NO_PAD.encode(r#"{"alg":"none"}"#);
    let payload = URL_SAFE_NO_PAD.encode(
        r#"{"client_id":"client","redirect_uri":"https://good.example/callback","response_type":"code","scope":"openid","state":"state","nonce":"nonce"}"#,
    );
    let request = format!("{header}.{payload}.");

    let mut params = parse_authorize_params(
        "client_id=client&redirect_uri=https%3A%2F%2Fevil.example%2Fcallback_invalid&request=",
    );
    params.request = Some(request);
    let merged = decode_object(params.request.as_deref().unwrap());
    merge_authorize_params(&mut params, merged);

    assert_eq!(params.redirect_uri.as_deref(), Some("https://good.example/callback"));
}

#[test]
fn max_age_is_captured_from_request_object() {
    let header = URL_SAFE_NO_PAD.encode(r#"{"alg":"none"}"#);
    let payload = URL_SAFE_NO_PAD.encode(
        r#"{"client_id":"client","redirect_uri":"https://good.example/callback","response_type":"code","scope":"openid","state":"state","nonce":"nonce","max_age":1}"#,
    );
    let params = decode_object(&format!("{header}.{payload}."));

    assert_eq!(params.max_age.as_deref(), Some("1"));
}

#[test]
fn plan_authorize_composes_the_checks() {
    let ok = build_authorize_request(AuthorizeParams {
        client_id: Some("client".to_string()),
        redirect_uri: Some("https://app.example/callback".to_string()),
        response_type: Some("code".to_string()),
        ..AuthorizeParams::default()
    });
    let c = client(&["authorization_code"]);
    let stored = plan_authorize(&ok, Some(&c)).unwrap();
    assert_eq!(stored.scope, "openid");
    assert_eq!(stored.redirect_uri, "https://app.example/callback");
    assert_error(&plan_authorize(&ok, None).unwrap_err(), 401, "invalid_client", "unknown client_id");
    let elsewhere = build_authorize_request(AuthorizeParams {
        client_id: Some("client".to_string()),
        redirect_uri: Some("https://evil.example/callback".to_string()),
        response_type: Some("code".to_string()),
        ..AuthorizeParams::default()
    });
    assert_error(&plan_authorize(&elsewhere, Some(&c)).unwrap_err(), 400, "invalid_request", "redirect_uri is not registered");
    let token = build_authorize_request(AuthorizeParams {
        client_id: Some("client".to_string()),
        redirect_uri: Some("https://app.example/callback".to_string()),
        response_type: Some("token".to_string()),
        ..AuthorizeParams::default()
    });
    assert_error(
        &plan_authorize(&token, None).unwrap_err(),
        400,
        "unsupported_response_type",
        "only response_type=code is supported",
    );
}

#[test]
fn code_exchange_plan_fixes_tokens_and_session() {
    let c = client(&["authorization_code", "refresh_token"]);
    let mut g = consumed("");
    g.scope = "openid offline_access".to_string();
    let plan = plan_code_exchange(&c, "client", true, Some(g), "", "").unwrap();
    assert!(plan.issue_refresh);
    assert_eq!(plan.session_id.as_deref(), Some("session-1"));
    assert_eq!(plan.granted.nonce, "nonce");
    let plain = plan_code_exchange(&c, "client", true, Some(consumed("")), "", "").unwrap();
    assert!(!plain.issue_refresh);
    assert_error(
        &plan_code_exchange(&c, "client", false, Some(consumed("")), "", "").unwrap_err(),
        401,
        "invalid_client",
        "invalid client credentials",
    );
    let no_code = client(&["refresh_token"]);
    assert_error(
        &plan_code_exchange(&no_code, "client", true, Some(consumed("")), "", "").unwrap_err(),
        400,
        "unauthorized_client",
        "client is not allowed to use authorization_code",
    );
    assert_error(
        &plan_code_exchange(&c, "client", true, None, "", "").unwrap_err(),
        400,
        "invalid_grant",
        "authorization code not found",
    );
}

#[test]
fn refresh_exchange_plan_keeps_family_and_scope() {
    let c = client(&["refresh_token"]);
    let t = StoredToken {
        token_id: "tok-1".to_string(),
        token_type: "oidc_refresh".to_string(),
        user_id: Some("user-1".to_string()),
        session_id: Some("session-1".to_string()),
        client_id: "client".to_string(),
        application_id: "app-1".to_string(),
        scope: "openid offline_access".to_string(),
        refresh_family_id: Some("family-1".to_string()),
    };
    let plan = plan_refresh_exchange(&c, true, Some(t), "client", "openid offline_access", "client").unwrap();
    assert_eq!(plan.family, "family-1");
    assert!(plan.rotate);
    assert!(!plan.issue_id_token);
    assert_eq!(plan.scope, "openid offline_access");
    assert_eq!(plan.revoke_token_id, "tok-1");
    assert_error(
        &plan_refresh_exchange(&c, true, None, "client", "openid", "client").unwrap_err(),
        400,
        "invalid_grant",
        "refresh token not found",
    );
    assert_error(
        &plan_refresh_exchange(&client(&["authorization_code"]), true, None, "client", "openid", "client").unwrap_err(),
        400,
        "unauthorized_client",
        "client is not allowed to use refresh_token",
    );
}
