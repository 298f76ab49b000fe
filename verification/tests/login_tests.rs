use zitadel_core::login::{
    build_auth_error_redirect, build_auth_redirect, default_action, default_provider, effective_public_origin,
    expired_session_cookie, render_error_page, render_login_page, render_session_reuse_page,
    session_satisfies_max_age, sso_callback_uri, urlencoding_encode, LoginStep,
};

#[test]
fn max_age_accepts_fresh_session() {
    assert!(session_satisfies_max_age(100, Some(10), 109));
}

#[test]
fn max_age_rejects_stale_session() {
    assert!(!session_satisfies_max_age(100, Some(10), 111));
}

#[test]
fn max_age_boundary_and_absent_limit() {
    assert!(session_satisfies_max_age(100, Some(10), 110));
    assert!(session_satisfies_max_age(100, None, 1_000_000));
    // A clock that runs behind the session counts as no elapsed time.
    assert!(session_satisfies_max_age(100, Some(0), 50));
    assert!(!session_satisfies_max_age(100, Some(0), 101));
}

#[test]
fn login_step_names_round_trip() {
    for step in [LoginStep::Identifier, LoginStep::Password, LoginStep::SessionReuse, LoginStep::Complete] {
        assert_eq!(LoginStep::from_str(step.as_str()), Some(step));
    }
    assert_eq!(LoginStep::Identifier.as_str(), "identifier");
    assert_eq!(LoginStep::SessionReuse.as_str(), "session_reuse");
    assert_eq!(LoginStep::from_str("unknown"), None);
}

#[test]
fn auth_redirect_carries_code_and_state() {
    assert_eq!(
        build_auth_redirect("https://rp.example/callback", "state-1", "code-1"),
        "https://rp.example/callback?code=code-1&state=state-1"
    );
    assert_eq!(build_auth_redirect("https://rp.example/cb", "", "c"), "https://rp.example/cb?code=c");
}

#[test]
fn auth_error_redirect_form_encodes_parameters() {
    assert_eq!(
        build_auth_error_redirect(
            "https://rp.example/cb",
            "s 1",
            "login_required",
            "prompt=none requires a recent session"
        ),
        "https://rp.example/cb?error=login_required&error_description=prompt%3Dnone+requires+a+recent+session&state=s+1"
    );
    assert_eq!(
        build_auth_error_redirect("https://rp.example/cb", "", "access_denied", "no"),
        "https://rp.example/cb?error=access_denied&error_description=no"
    );
}

#[test]
fn urlencoding_keeps_unreserved_and_escapes_the_rest() {
    assert_eq!(urlencoding_encode("a-b_c.d*e"), "a-b_c.d*e");
    assert_eq!(urlencoding_encode("~"), "%7E");
    assert_eq!(urlencoding_encode("a b&c/é"), "a+b%26c%2F%C3%A9");
}

#[test]
fn expired_cookie_clears_the_session() {
    assert_eq!(
        expired_session_cookie("zitadel_session", false),
        "zitadel_session=; Path=/; HttpOnly; Max-Age=0; Expires=Thu, 01 Jan 1970 00:00:00 GMT; SameSite=Lax"
    );
    assert!(expired_session_cookie("s", true).ends_with("; Secure"));
}

#[test]
fn effective_public_origin_uses_request_origin_when_unpinned() {
    assert_eq!(
        effective_public_origin(None, Some("https://demo.example.com"), "http://localhost:8080"),
        "https://demo.example.com"
    );
    assert_eq!(
        effective_public_origin(Some("https://pinned.example"), Some("https://demo.example.com"), "x"),
        "https://pinned.example"
    );
    assert_eq!(effective_public_origin(None, None, "http://localhost:8080"), "http://localhost:8080");
}

#[test]
fn callback_uri_uses_request_origin_when_unpinned() {
    let origin = effective_public_origin(None, Some("https://demo.example.com"), "http://localhost:8080");
    assert_eq!(sso_callback_uri(&origin), "https://demo.example.com/v1/auth/sso/callback");
    assert_eq!(sso_callback_uri("https://a.example//"), "https://a.example/v1/auth/sso/callback");
}

#[test]
fn bot_protection_defaults() {
    assert_eq!(default_action(), "challenge");
    assert_eq!(default_provider(), "pow");
}

#[test]
fn login_pages_embed_their_inputs() {
    let page = render_login_page("auth-1", Some("alice"), Some("Invalid credentials"));
    assert!(page.contains("value=\"auth-1\""));
    assert!(page.contains("value=\"alice\""));
    assert!(page.contains("Invalid credentials"));
    let plain = render_login_page("auth-1", None, None);
    assert!(plain.contains("value=\"\""));
    let reuse = render_session_reuse_page("auth-1", "alice", "Alice");
    assert!(reuse.contains("alice"));
    assert!(reuse.contains("Alice"));
    assert!(render_error_page("boom").contains("boom"));
}
