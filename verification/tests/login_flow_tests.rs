use zitadel_core::json::{JsonMember, JsonValue};
use zitadel_core::login_flow::{decide_captcha, decide_password_step, initial_flow_data, PasswordStep, PowCheck};
use zitadel_core::login::LoginStep;
use zitadel_core::login_flow::{
    bot_action_taken, bot_enforcement, can_reuse_session, captcha_kind, captcha_verify_url,
    completion_without_request, current_step_nodes, decide_flow_start, decide_page_start,
    decide_page_use_session, decide_use_session, fresh_sign_in_required_nodes, identifier_step_nodes,
    is_disabled, is_enforce, is_observe, is_silent, login_required_description, nodes_for_step,
    parse_flow_action, parse_page_action, password_step_nodes, session_cookie, session_cookie_token,
    session_reuse_nodes, unknown_action_error, with_error, CaptchaKind, FlowAction, FlowStart,
    FlowStepResponse, PageAction, PageStart, UINode, UseSessionDecision,
};

fn prompts(v: &[&str]) -> Vec<String> {
    v.iter().map(|s| s.to_string()).collect()
}

fn heading(n: &UINode) -> Option<&str> {
    match n {
        UINode::Heading { text } => Some(text.as_str()),
        _ => None,
    }
}

#[test]
fn identifier_screen_asks_for_the_account() {
    let nodes = identifier_step_nodes();
    assert_eq!(nodes.len(), 5);
    assert_eq!(heading(&nodes[0]), Some("Sign in"));
    match &nodes[2] {
        UINode::Input { name, input_type, required, value, .. } => {
            assert_eq!(name, "identifier");
            assert_eq!(input_type, "text");
            assert!(*required);
            assert!(value.is_none());
        }
        other => panic!("unexpected {:?}", other),
    }
    assert!(matches!(nodes[4], UINode::FingerprintCollect));
}

#[test]
fn password_screen_names_the_account() {
    let nodes = password_step_nodes("alice");
    assert_eq!(nodes.len(), 6);
    match &nodes[1] {
        UINode::Description { text } => assert_eq!(text, "Signing in as alice"),
        other => panic!("unexpected {:?}", other),
    }
    match &nodes[2] {
        UINode::Hidden { name, value } => {
            assert_eq!(name, "identifier");
            assert_eq!(value, "alice");
        }
        other => panic!("unexpected {:?}", other),
    }
    match &nodes[5] {
        UINode::Submit { action, .. } => assert_eq!(action, "back"),
        other => panic!("unexpected {:?}", other),
    }
}

#[test]
fn session_reuse_screen_shows_the_account() {
    let nodes = session_reuse_nodes("alice@example.com", "alice");
    match &nodes[2] {
        UINode::Avatar { initial, text } => {
            assert_eq!(initial, "A");
            assert_eq!(text, "alice · alice@example.com");
        }
        other => panic!("unexpected {:?}", other),
    }
    match &session_reuse_nodes("bob", "")[2] {
        UINode::Avatar { initial, text } => {
            assert_eq!(initial, "B");
            assert_eq!(text, "bob");
        }
        other => panic!("unexpected {:?}", other),
    }
    match &session_reuse_nodes("", "")[2] {
        UINode::Avatar { initial, text } => {
            assert_eq!(initial, "?");
            assert_eq!(text, "");
        }
        other => panic!("unexpected {:?}", other),
    }
}

#[test]
fn empty_identifier_shows_error_above_identifier_screen() {
    let nodes = with_error("Identifier is required", identifier_step_nodes());
    assert_eq!(nodes.len(), 6);
    match &nodes[0] {
        UINode::Error { message } => assert_eq!(message, "Identifier is required"),
        other => panic!("unexpected {:?}", other),
    }
    assert_eq!(heading(&nodes[1]), Some("Sign in"));
}

#[test]
fn flow_screens_by_step() {
    assert_eq!(nodes_for_step("identifier").len(), 5);
    assert_eq!(nodes_for_step("password").len(), 6);
    let done = nodes_for_step("complete");
    assert_eq!(heading(&done[0]), Some("Login complete"));
    assert_eq!(nodes_for_step("whatever").len(), 5);
    assert_eq!(current_step_nodes("password", "alice").len(), 6);
    assert_eq!(current_step_nodes("identifier", "alice").len(), 5);
    assert_eq!(fresh_sign_in_required_nodes().len(), 1);
}

#[test]
fn flow_actions() {
    assert_eq!(parse_flow_action("identifier"), FlowAction::Identifier);
    assert_eq!(parse_flow_action("use_session"), FlowAction::UseSession);
    assert_eq!(parse_flow_action("captcha_submit"), FlowAction::CaptchaSubmit);
    assert_eq!(parse_flow_action("nope"), FlowAction::Unknown);
    assert_eq!(unknown_action_error("nope"), "unknown action: nope");
    assert_eq!(parse_page_action("use_session"), PageAction::UseSession);
    assert_eq!(parse_page_action("back"), PageAction::Back);
    assert_eq!(parse_page_action(""), PageAction::SignIn);
}

#[test]
fn flow_start_decisions() {
    let none = prompts(&[]);
    assert_eq!(decide_flow_start(None, &none, None, 100), FlowStart::AskIdentifier);
    assert_eq!(decide_flow_start(Some(90), &none, Some(20), 100), FlowStart::OfferSessionReuse);
    assert_eq!(decide_flow_start(Some(50), &none, Some(20), 100), FlowStart::AskIdentifier);
    let silent = prompts(&["none"]);
    assert_eq!(decide_flow_start(Some(90), &silent, None, 100), FlowStart::CompleteWithSession);
    assert_eq!(decide_flow_start(Some(50), &silent, Some(20), 100), FlowStart::LoginRequired);
    assert_eq!(decide_flow_start(None, &silent, None, 100), FlowStart::LoginRequired);
    let login = prompts(&["login", "consent"]);
    assert_eq!(decide_flow_start(Some(99), &login, None, 100), FlowStart::AskIdentifier);
    assert_eq!(decide_flow_start(Some(99), &prompts(&["select_account"]), None, 100), FlowStart::AskIdentifier);
    assert!(is_silent(&silent));
    assert!(!can_reuse_session(None, &none, None, 0));
    assert_eq!(login_required_description(true), "prompt=none requires a recent session");
    assert_eq!(login_required_description(false), "prompt=none requires an existing session");
}

#[test]
fn page_start_decisions() {
    assert_eq!(decide_page_start(Some(90), &prompts(&[]), None, 100), PageStart::CompleteWithSession);
    assert_eq!(decide_page_start(None, &prompts(&["none"]), None, 100), PageStart::LoginRequired);
    assert_eq!(decide_page_start(None, &prompts(&[]), None, 100), PageStart::ShowLoginPage);
    assert_eq!(decide_page_start(Some(90), &prompts(&["login"]), None, 100), PageStart::ShowLoginPage);
}

#[test]
fn use_session_decisions() {
    assert_eq!(decide_use_session("", Some(("u1", 90)), "auth-1", None, 100), UseSessionDecision::SessionGone);
    assert_eq!(decide_use_session("u1", Some(("u2", 90)), "auth-1", None, 100), UseSessionDecision::SessionGone);
    assert_eq!(decide_use_session("u1", None, "auth-1", None, 100), UseSessionDecision::SessionGone);
    assert_eq!(decide_use_session("u1", Some(("u1", 90)), "", Some(1), 100), UseSessionDecision::AlreadySignedIn);
    assert_eq!(
        decide_use_session("u1", Some(("u1", 50)), "auth-1", Some(10), 100),
        UseSessionDecision::FreshSignInRequired
    );
    assert_eq!(decide_use_session("u1", Some(("u1", 95)), "auth-1", Some(10), 100), UseSessionDecision::Complete);
    assert_eq!(decide_page_use_session(None, None, 0), UseSessionDecision::SessionGone);
    assert_eq!(decide_page_use_session(Some(10), Some(5), 100), UseSessionDecision::FreshSignInRequired);
    assert_eq!(decide_page_use_session(Some(98), Some(5), 100), UseSessionDecision::Complete);
}

#[test]
fn completion_without_request_goes_to_console() {
    assert_eq!(completion_without_request(""), "/console");
    assert_eq!(completion_without_request("/app"), "/app");
}

#[test]
fn bot_protection_decisions() {
    assert_eq!(bot_enforcement("enforce", "challenge", true, false), (true, false));
    assert_eq!(bot_enforcement("enforce", "challenge", true, true), (false, false));
    assert_eq!(bot_enforcement("enforce", "block", true, false), (false, true));
    assert_eq!(bot_enforcement("observe", "block", true, false), (false, false));
    assert_eq!(bot_enforcement("enforce", "block", false, false), (false, false));
    assert!(is_disabled(""));
    assert!(is_disabled("disabled"));
    assert!(is_observe("observe"));
    assert!(is_enforce("enforce"));
    assert_eq!(bot_action_taken("observe", "block", true), "observe");
    assert_eq!(bot_action_taken("enforce", "block", true), "block");
    assert_eq!(bot_action_taken("enforce", "block", false), "allow");
    assert_eq!(captcha_kind("pow"), CaptchaKind::ProofOfWork);
    assert_eq!(captcha_kind("turnstile"), CaptchaKind::Widget);
    assert_eq!(captcha_kind("other"), CaptchaKind::NoChallenge);
    assert_eq!(captcha_verify_url("hcaptcha"), Some("https://api.hcaptcha.com/siteverify"));
    assert_eq!(captcha_verify_url("pow"), None);
}

#[test]
fn session_cookies() {
    assert_eq!(
        session_cookie("zitadel_session", "signed.token", 86400, true),
        "zitadel_session=signed.token; HttpOnly; SameSite=Lax; Path=/; Max-Age=86400; Secure"
    );
    assert_eq!(
        session_cookie("s", "t", 0, false),
        "s=t; HttpOnly; SameSite=Lax; Path=/; Max-Age=0"
    );
    assert_eq!(
        session_cookie_token("theme=dark; zitadel_session=abc.def ; other=1", "zitadel_session"),
        Some("abc.def".to_string())
    );
    assert_eq!(session_cookie_token("a=1;a=2", "a"), Some("1".to_string()));
    assert_eq!(session_cookie_token("theme=dark", "zitadel_session"), None);
    assert_eq!(session_cookie_token("", "s"), None);
}

#[test]
fn flow_step_response_starts_without_redirect() {
    let r = FlowStepResponse::new("flow-1".to_string(), "identifier".to_string(), identifier_step_nodes());
    assert_eq!(r.flow_id, "flow-1");
    assert!(r.redirect_uri.is_none());
    assert!(r.captcha_required.is_none());
    assert_eq!(r.nodes.len(), 5);
}

#[test]
fn failed_password_asks_again() {
    match decide_password_step("anne@example.com", true, false) {
        PasswordStep::Retry { status, step, nodes } => {
            assert_eq!(status, 200);
            assert_eq!(step, LoginStep::Password);
            assert!(matches!(&nodes[0], UINode::Error { message } if message == "Invalid credentials"));
            assert!(nodes.len() > 1);
        }
        PasswordStep::IssueSession => panic!("a failed password issued a session"),
    }
    assert!(matches!(decide_password_step("anne@example.com", false, true), PasswordStep::Retry { .. }));
    assert!(matches!(decide_password_step("anne@example.com", true, true), PasswordStep::IssueSession));
}

#[test]
fn new_flow_stores_step_and_trusted_user() {
    let scoring = vec![JsonMember { key: "risk_signals".to_string(), value: JsonValue::Array(vec![]) }];
    let data = initial_flow_data(LoginStep::SessionReuse, "https://app/cb", "s", "fp", scoring, "auth-1", Some("user-1"));
    let members = match data {
        JsonValue::Object(m) => m,
        _ => panic!("not an object"),
    };
    assert_eq!(members.len(), 7);
    assert_eq!(members[0].key, "step");
    assert!(matches!(&members[0].value, JsonValue::Str(s) if s == "session_reuse"));
    assert_eq!(members[5].key, "auth_request_id");
    assert_eq!(members[6].key, "trusted_user_id");
    assert!(matches!(&members[6].value, JsonValue::Str(s) if s == "user-1"));
    let bare = initial_flow_data(LoginStep::Identifier, "", "", "", vec![], "", None);
    assert!(matches!(bare, JsonValue::Object(m) if m.len() == 4));
}

#[test]
fn captcha_submissions_are_judged_in_order() {
    assert_eq!(
        decide_captcha(PowCheck::Absent, "", "pow", "", false),
        Err((400, "altcha_payload or captcha_token is required"))
    );
    assert_eq!(decide_captcha(PowCheck::Malformed, "", "pow", "", false), Err((400, "invalid altcha_payload: ")));
    assert_eq!(
        decide_captcha(PowCheck::Checked(false), "", "pow", "", false),
        Err((400, "invalid proof-of-work solution"))
    );
    assert_eq!(decide_captcha(PowCheck::Checked(true), "", "pow", "", false), Ok(()));
    assert_eq!(
        decide_captcha(PowCheck::Absent, "tok", "turnstile", "secret", false),
        Err((400, "captcha verification failed"))
    );
    assert_eq!(decide_captcha(PowCheck::Absent, "tok", "turnstile", "secret", true), Ok(()));
    assert_eq!(decide_captcha(PowCheck::Absent, "tok", "turnstile", "", false), Ok(()));
}
