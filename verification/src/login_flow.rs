//! The server-driven login flow: the screens it shows, and the decisions it
//! takes between the calls that read sessions, users and authorization
//! requests.

use vstd::prelude::*;

use crate::json::{JsonMember, JsonValue};
use crate::login::{LoginStep, spec_satisfies_max_age, session_satisfies_max_age, step_name};
use crate::num::{spec_decimal, u64_to_decimal};
use crate::oidc_authorize::{is_registered, registered};
use crate::observability::{split_char, split_on, trim, trim_ws};
use crate::text::{chars_of, concat2, concat3, is_prefix, push_char, str_eq, str_starts_with, str_to_string, string_from_range};

verus! {

/// One element of a login screen.
#[derive(Debug)]
pub enum UINode {
    Heading { text: String },
    Description { text: String },
    Input { name: String, label: String, input_type: String, value: Option<String>, required: bool },
    Submit { label: String, action: String },
    Error { message: String },
    Hidden { name: String, value: String },
    Avatar { initial: String, text: String },
    FingerprintCollect,
    CaptchaChallenge { algorithm: String, salt: String, challenge: String, maxnumber: u64, signature: String },
    CaptchaWidget { provider: String, site_key: String },
}

/// The value of a screen element.
pub enum NodeV {
    Heading(Seq<char>),
    Description(Seq<char>),
    Input(Seq<char>, Seq<char>, Seq<char>, Option<Seq<char>>, bool),
    Submit(Seq<char>, Seq<char>),
    Error(Seq<char>),
    Hidden(Seq<char>, Seq<char>),
    Avatar(Seq<char>, Seq<char>),
    FingerprintCollect,
    CaptchaChallenge(Seq<char>, Seq<char>, Seq<char>, u64, Seq<char>),
    CaptchaWidget(Seq<char>, Seq<char>),
}

pub open spec fn opt_text(o: Option<String>) -> Option<Seq<char>> {
    match o {
        Some(s) => Some(s@),
        None => None,
    }
}

impl View for UINode {
    type V = NodeV;

    open spec fn view(&self) -> NodeV {
        match self {
            UINode::Heading { text } => NodeV::Heading(text@),
            UINode::Description { text } => NodeV::Description(text@),
            UINode::Input { name, label, input_type, value, required } => NodeV::Input(
                name@,
                label@,
                input_type@,
                opt_text(*value),
                *required,
            ),
            UINode::Submit { label, action } => NodeV::Submit(label@, action@),
            UINode::Error { message } => NodeV::Error(message@),
            UINode::Hidden { name, value } => NodeV::Hidden(name@, value@),
            UINode::Avatar { initial, text } => NodeV::Avatar(initial@, text@),
            UINode::FingerprintCollect => NodeV::FingerprintCollect,
            UINode::CaptchaChallenge { algorithm, salt, challenge, maxnumber, signature } => NodeV::CaptchaChallenge(
                algorithm@,
                salt@,
                challenge@,
                *maxnumber,
                signature@,
            ),
            UINode::CaptchaWidget { provider, site_key } => NodeV::CaptchaWidget(provider@, site_key@),
        }
    }
}

pub open spec fn nodes_view(s: Seq<UINode>) -> Seq<NodeV> {
    s.map_values(|n: UINode| n@)
}

/// The screen that asks who signs in.
pub open spec fn spec_identifier_nodes() -> Seq<NodeV> {
    seq![
        NodeV::Heading("Sign in"@),
        NodeV::Description("Enter your email or username"@),
        NodeV::Input("identifier"@, "Email or username"@, "text"@, None, true),
        NodeV::Submit("Continue"@, "identifier"@),
        NodeV::FingerprintCollect,
    ]
}

/// The screen that asks for the password of `identifier`.
pub open spec fn spec_password_nodes(identifier: Seq<char>) -> Seq<NodeV> {
    seq![
        NodeV::Heading("Enter your password"@),
        NodeV::Description("Signing in as "@ + identifier),
        NodeV::Hidden("identifier"@, identifier),
        NodeV::Input("password"@, "Password"@, "password"@, None, true),
        NodeV::Submit("Sign in"@, "password"@),
        NodeV::Submit("Back"@, "back"@),
    ]
}

/// The upper-case form of a text, as `str::to_uppercase` gives it.
pub uninterp spec fn uppercase_of(s: Seq<char>) -> Seq<char>;

/// `str::to_uppercase`.
#[verifier::external_body]
fn to_uppercase(s: &str) -> (r: String)
    ensures
        r@ == uppercase_of(s@),
{
    s.to_uppercase()
}

/// The letter an avatar shows: the first character of the display name,
/// else of the identifier, else `?`, in upper case.
pub open spec fn avatar_initial(identifier: Seq<char>, display_name: Seq<char>) -> Seq<char> {
    let c = if display_name.len() > 0 {
        display_name[0]
    } else if identifier.len() > 0 {
        identifier[0]
    } else {
        '?'
    };
    uppercase_of(seq![c])
}

/// The account an avatar names.
pub open spec fn avatar_text(identifier: Seq<char>, display_name: Seq<char>) -> Seq<char> {
    if display_name.len() > 0 && identifier.len() > 0 {
        display_name + " · "@ + identifier
    } else if identifier.len() > 0 {
        identifier
    } else {
        display_name
    }
}

/// The screen that offers to continue with an existing session.
pub open spec fn spec_session_reuse_nodes(identifier: Seq<char>, display_name: Seq<char>) -> Seq<NodeV> {
    seq![
        NodeV::Heading("Use your existing session?"@),
        NodeV::Description(
            "You're already signed in. Continue with that session or choose a different account."@,
        ),
        NodeV::Avatar(avatar_initial(identifier, display_name), avatar_text(identifier, display_name)),
        NodeV::Submit("Continue with this session"@, "use_session"@),
        NodeV::Submit("Use a different account"@, "back"@),
    ]
}

fn text_node_heading(text: &str) -> (r: UINode)
    ensures
        r@ == NodeV::Heading(text@),
{
    UINode::Heading { text: str_to_string(text) }
}

fn submit_node(label: &str, action: &str) -> (r: UINode)
    ensures
        r@ == NodeV::Submit(label@, action@),
{
    UINode::Submit { label: str_to_string(label), action: str_to_string(action) }
}

fn input_node(name: &str, label: &str, input_type: &str) -> (r: UINode)
    ensures
        r@ == NodeV::Input(name@, label@, input_type@, None, true),
{
    UINode::Input {
        name: str_to_string(name),
        label: str_to_string(label),
        input_type: str_to_string(input_type),
        value: None,
        required: true,
    }
}

/// The screen that asks who signs in.
pub fn identifier_step_nodes() -> (r: Vec<UINode>)
    ensures
        nodes_view(r@) == spec_identifier_nodes(),
{
    let mut v: Vec<UINode> = Vec::new();
    v.push(text_node_heading("Sign in"));
    v.push(UINode::Description { text: str_to_string("Enter your email or username") });
    v.push(input_node("identifier", "Email or username", "text"));
    v.push(submit_node("Continue", "identifier"));
    v.push(UINode::FingerprintCollect);
    assert(nodes_view(v@) =~= spec_identifier_nodes());
    v
}

/// The screen that asks for the password of `identifier`.
pub fn password_step_nodes(identifier: &str) -> (r: Vec<UINode>)
    ensures
        nodes_view(r@) == spec_password_nodes(identifier@),
{
    let mut v: Vec<UINode> = Vec::new();
    v.push(text_node_heading("Enter your password"));
    v.push(UINode::Description { text: concat2("Signing in as ", identifier) });
    v.push(UINode::Hidden { name: str_to_string("identifier"), value: str_to_string(identifier) });
    v.push(input_node("password", "Password", "password"));
    v.push(submit_node("Sign in", "password"));
    v.push(submit_node("Back", "back"));
    assert(nodes_view(v@) =~= spec_password_nodes(identifier@));
    v
}

/// The screen that offers to continue with an existing session.
pub fn session_reuse_nodes(identifier: &str, display_name: &str) -> (r: Vec<UINode>)
    ensures
        nodes_view(r@) == spec_session_reuse_nodes(identifier@, display_name@),
{
    let dv = chars_of(display_name);
    let iv = chars_of(identifier);
    let c = if dv.len() > 0 {
        dv[0]
    } else if iv.len() > 0 {
        iv[0]
    } else {
        '?'
    };
    let mut first = String::new();
    push_char(&mut first, c);
    proof {
        assert(first@ =~= seq![c]);
    }
    let initial = to_uppercase(first.as_str());
    let text = if dv.len() > 0 && iv.len() > 0 {
        concat3(display_name, " · ", identifier)
    } else if iv.len() > 0 {
        str_to_string(identifier)
    } else {
        str_to_string(display_name)
    };
    let mut v: Vec<UINode> = Vec::new();
    v.push(text_node_heading("Use your existing session?"));
    v.push(
        UINode::Description {
            text: str_to_string(
                "You're already signed in. Continue with that session or choose a different account.",
            ),
        },
    );
    v.push(UINode::Avatar { initial, text });
    v.push(submit_node("Continue with this session", "use_session"));
    v.push(submit_node("Use a different account", "back"));
    assert(nodes_view(v@) =~= spec_session_reuse_nodes(identifier@, display_name@));
    v
}

/// `nodes` with an error shown above them.
pub fn with_error(message: &str, nodes: Vec<UINode>) -> (r: Vec<UINode>)
    ensures
        nodes_view(r@) == seq![NodeV::Error(message@)] + nodes_view(nodes@),
{
    let mut v: Vec<UINode> = Vec::new();
    v.push(UINode::Error { message: str_to_string(message) });
    let mut rest = nodes;
    v.append(&mut rest);
    assert(nodes_view(v@) =~= seq![NodeV::Error(message@)] + nodes_view(nodes@));
    v
}

/// A step of the login flow.
#[derive(Clone, Copy, Debug, PartialEq, Eq, Structural)]
pub enum FlowAction {
    Identifier,
    Password,
    Back,
    UseSession,
    FingerprintSubmit,
    CaptchaSubmit,
    Unknown,
}

pub open spec fn spec_flow_action(action: Seq<char>) -> FlowAction {
    if action == "identifier"@ {
        FlowAction::Identifier
    } else if action == "password"@ {
        FlowAction::Password
    } else if action == "back"@ {
        FlowAction::Back
    } else if action == "use_session"@ {
        FlowAction::UseSession
    } else if action == "fingerprint_submit"@ {
        FlowAction::FingerprintSubmit
    } else if action == "captcha_submit"@ {
        FlowAction::CaptchaSubmit
    } else {
        FlowAction::Unknown
    }
}

/// The action a submitted step asks for.
pub fn parse_flow_action(action: &str) -> (r: FlowAction)
    ensures
        r == spec_flow_action(action@),
{
    if str_eq(action, "identifier") {
        FlowAction::Identifier
    } else if str_eq(action, "password") {
        FlowAction::Password
    } else if str_eq(action, "back") {
        FlowAction::Back
    } else if str_eq(action, "use_session") {
        FlowAction::UseSession
    } else if str_eq(action, "fingerprint_submit") {
        FlowAction::FingerprintSubmit
    } else if str_eq(action, "captcha_submit") {
        FlowAction::CaptchaSubmit
    } else {
        FlowAction::Unknown
    }
}

/// The error an unknown action is answered with.
pub fn unknown_action_error(action: &str) -> (r: String)
    ensures
        r@ == "unknown action: "@ + action@,
{
    concat2("unknown action: ", action)
}

/// The screens a flow shows for its stored step: the identifier screen,
/// an empty password screen, or the completion heading; an unknown step
/// starts over.
pub open spec fn spec_nodes_for_step(step: Seq<char>) -> Seq<NodeV> {
    if step == "password"@ {
        spec_password_nodes(Seq::empty())
    } else if step == "complete"@ {
        seq![NodeV::Heading("Login complete"@)]
    } else {
        spec_identifier_nodes()
    }
}

/// The screen of a flow that stands at `step`.
pub fn nodes_for_step(step: &str) -> (r: Vec<UINode>)
    ensures
        nodes_view(r@) == spec_nodes_for_step(step@),
{
    if str_eq(step, "password") {
        let e = String::new();
        proof {
            assert(e@ =~= Seq::<char>::empty());
        }
        password_step_nodes(e.as_str())
    } else if str_eq(step, "complete") {
        let mut v: Vec<UINode> = Vec::new();
        v.push(text_node_heading("Login complete"));
        assert(nodes_view(v@) =~= seq![NodeV::Heading("Login complete"@)]);
        v
    } else {
        identifier_step_nodes()
    }
}

/// The screen a flow shows again after a step that does not move it: the
/// password screen of the identifier for `password`, else the identifier
/// screen.
pub fn current_step_nodes(step: &str, identifier: &str) -> (r: Vec<UINode>)
    ensures
        nodes_view(r@) == if step@ == "password"@ {
            spec_password_nodes(identifier@)
        } else {
            spec_identifier_nodes()
        },
{
    if str_eq(step, "password") {
        password_step_nodes(identifier)
    } else {
        identifier_step_nodes()
    }
}

/// The answer to a step of the flow: the step the flow stands at, the
/// screen, and where the browser goes next, if anywhere. The app adds the
/// branding when it sends it.
#[derive(Debug)]
pub struct FlowStepResponse {
    pub flow_id: String,
    pub step: String,
    pub nodes: Vec<UINode>,
    pub redirect_uri: Option<String>,
    pub captcha_required: Option<bool>,
    pub captcha_verified: Option<bool>,
}

impl FlowStepResponse {
    /// A response without a redirect or captcha state.
    pub fn new(flow_id: String, step: String, nodes: Vec<UINode>) -> (r: FlowStepResponse)
        ensures
            r.flow_id == flow_id,
            r.step == step,
            r.nodes == nodes,
            r.redirect_uri is None,
            r.captcha_required is None,
            r.captcha_verified is None,
    {
        FlowStepResponse {
            flow_id,
            step,
            nodes,
            redirect_uri: None,
            captcha_required: None,
            captcha_verified: None,
        }
    }
}

/// Whether the requested prompts let an existing session be used: neither
/// `login` nor `select_account` is asked for.
pub open spec fn prompts_allow_reuse(prompts: Seq<String>) -> bool {
    !registered(prompts, "login"@) && !registered(prompts, "select_account"@)
}

/// Whether the request must not show any screen (`prompt=none`).
pub open spec fn prompts_silent(prompts: Seq<String>) -> bool {
    registered(prompts, "none"@)
}

/// Whether the session authenticated at `session` (if any) may answer the
/// request.
pub open spec fn spec_can_reuse(session: Option<u64>, prompts: Seq<String>, max_age: Option<u64>, now: u64) -> bool {
    match session {
        Some(t) => prompts_allow_reuse(prompts) && spec_satisfies_max_age(t, max_age, now),
        None => false,
    }
}

/// Whether an existing session may answer an authorization request.
pub fn can_reuse_session(session: Option<u64>, prompts: &Vec<String>, max_age: Option<u64>, now: u64) -> (r: bool)
    ensures
        r == spec_can_reuse(session, prompts@, max_age, now),
{
    match session {
        Some(t) => !is_registered(prompts, "login") && !is_registered(prompts, "select_account")
            && session_satisfies_max_age(t, max_age, now),
        None => false,
    }
}

/// Whether the request asks for `prompt=none`.
pub fn is_silent(prompts: &Vec<String>) -> (r: bool)
    ensures
        r == prompts_silent(prompts@),
{
    is_registered(prompts, "none")
}

/// How a new login flow starts.
#[derive(Clone, Copy, Debug, PartialEq, Eq, Structural)]
pub enum FlowStart {
    /// Complete the authorization request with the session at once.
    CompleteWithSession,
    /// Offer to continue with the session.
    OfferSessionReuse,
    /// `prompt=none` cannot be honoured: answer `login_required`.
    LoginRequired,
    /// Ask who signs in.
    AskIdentifier,
}

pub open spec fn spec_flow_start(session: Option<u64>, prompts: Seq<String>, max_age: Option<u64>, now: u64) -> FlowStart {
    let reuse = spec_can_reuse(session, prompts, max_age, now);
    let silent = prompts_silent(prompts);
    if reuse && silent {
        FlowStart::CompleteWithSession
    } else if reuse {
        FlowStart::OfferSessionReuse
    } else if silent {
        FlowStart::LoginRequired
    } else {
        FlowStart::AskIdentifier
    }
}

/// How a flow starts for a browser whose session (if any) authenticated at
/// `session`, given the prompts and maximum age of the request.
pub fn decide_flow_start(session: Option<u64>, prompts: &Vec<String>, max_age: Option<u64>, now: u64) -> (r: FlowStart)
    ensures
        r == spec_flow_start(session, prompts@, max_age, now),
{
    let reuse = can_reuse_session(session, prompts, max_age, now);
    let silent = is_silent(prompts);
    if reuse && silent {
        FlowStart::CompleteWithSession
    } else if reuse {
        FlowStart::OfferSessionReuse
    } else if silent {
        FlowStart::LoginRequired
    } else {
        FlowStart::AskIdentifier
    }
}

/// What a submitted password leads to.
#[derive(Debug)]
pub enum PasswordStep {
    /// Ask again: the answer carries `status`, the step to show and its
    /// nodes; the flow's stored data stays as it was.
    Retry { status: u16, step: LoginStep, nodes: Vec<UINode> },
    /// The user is known and the password verified: issue a session.
    IssueSession,
}

/// The password step once the user has been looked up by identifier and,
/// where found, the password checked against the stored hash: an unknown
/// user or a failed verification answers 200 with the password step again,
/// led by an "Invalid credentials" error.
pub fn decide_password_step(identifier: &str, user_found: bool, verified: bool) -> (r: PasswordStep)
    ensures
        (user_found && verified) <==> r is IssueSession,
        r matches PasswordStep::Retry { status, step, nodes } ==> status == 200 && step == LoginStep::Password
            && nodes_view(nodes@) == seq![NodeV::Error("Invalid credentials"@)] + spec_password_nodes(identifier@),
{
    if user_found && verified {
        PasswordStep::IssueSession
    } else {
        let nodes = with_error("Invalid credentials", password_step_nodes(identifier));
        PasswordStep::Retry { status: 200, step: LoginStep::Password, nodes }
    }
}

/// A text member `key: value`.
pub open spec fn text_member(m: JsonMember, key: Seq<char>, value: Seq<char>) -> bool {
    &&& m.key@ == key
    &&& m.value matches JsonValue::Str(s) && s@ == value
}

fn text_json_member(key: &str, value: &str) -> (r: JsonMember)
    ensures
        text_member(r, key@, value@),
{
    JsonMember { key: str_to_string(key), value: JsonValue::Str(str_to_string(value)) }
}

/// The data stored with a new login flow: its first step, where it returns
/// to, the client state and browser fingerprint, the scoring members as
/// given, the authorization request it serves where there is one, and the
/// user of a session it may reuse.
pub fn initial_flow_data(
    step: LoginStep,
    redirect_uri: &str,
    state: &str,
    fingerprint: &str,
    scoring: Vec<JsonMember>,
    auth_request_id: &str,
    trusted_user_id: Option<&str>,
) -> (r: JsonValue)
    ensures
        r matches JsonValue::Object(ms) && {
            let m = ms@;
            let n = scoring@.len() as int;
            let a: int = if auth_request_id@.len() > 0 { 1 } else { 0 };
            &&& m.len() == 4 + n + a + (if trusted_user_id is Some { 1int } else { 0int })
            &&& text_member(m[0], "step"@, step_name(step))
            &&& text_member(m[1], "redirect_uri"@, redirect_uri@)
            &&& text_member(m[2], "state"@, state@)
            &&& text_member(m[3], "fingerprint"@, fingerprint@)
            &&& m.subrange(4, 4 + n) == scoring@
            &&& auth_request_id@.len() > 0 ==> text_member(m[4 + n], "auth_request_id"@, auth_request_id@)
            &&& trusted_user_id matches Some(t) ==> text_member(m[m.len() - 1], "trusted_user_id"@, t@)
        },
{
    let ghost sc = scoring@;
    let mut m: Vec<JsonMember> = Vec::new();
    m.push(text_json_member("step", step.as_str()));
    m.push(text_json_member("redirect_uri", redirect_uri));
    m.push(text_json_member("state", state));
    m.push(text_json_member("fingerprint", fingerprint));
    let mut rest = scoring;
    m.append(&mut rest);
    assert(m@.subrange(4, 4 + sc.len() as int) =~= sc);
    if !auth_request_id.is_empty() {
        m.push(text_json_member("auth_request_id", auth_request_id));
    }
    let ghost before = m@;
    match trusted_user_id {
        Some(t) => {
            m.push(text_json_member("trusted_user_id", t));
        },
        None => {},
    }
    assert(m@.subrange(4, 4 + sc.len() as int) =~= sc);
    JsonValue::Object(m)
}

/// The description of a `login_required` answer: a session that is too old
/// needs a recent one, no session an existing one.
pub fn login_required_description(has_session: bool) -> (r: &'static str)
    ensures
        r@ == if has_session {
            "prompt=none requires a recent session"@
        } else {
            "prompt=none requires an existing session"@
        },
{
    if has_session {
        "prompt=none requires a recent session"
    } else {
        "prompt=none requires an existing session"
    }
}

/// The screen shown where a session was too old for `prompt=none` and the
/// client cannot be sent the error.
pub fn fresh_sign_in_required_nodes() -> (r: Vec<UINode>)
    ensures
        nodes_view(r@) == seq![NodeV::Error("A fresh sign-in is required."@)],
{
    let mut v: Vec<UINode> = Vec::new();
    v.push(UINode::Error { message: str_to_string("A fresh sign-in is required.") });
    assert(nodes_view(v@) =~= seq![NodeV::Error("A fresh sign-in is required."@)]);
    v
}

/// How the HTML sign-in page answers an authorization request.
#[derive(Clone, Copy, Debug, PartialEq, Eq, Structural)]
pub enum PageStart {
    CompleteWithSession,
    LoginRequired,
    ShowLoginPage,
}

pub open spec fn spec_page_start(session: Option<u64>, prompts: Seq<String>, max_age: Option<u64>, now: u64) -> PageStart {
    if spec_can_reuse(session, prompts, max_age, now) {
        PageStart::CompleteWithSession
    } else if prompts_silent(prompts) {
        PageStart::LoginRequired
    } else {
        PageStart::ShowLoginPage
    }
}

/// How the HTML sign-in page starts: a usable session completes the request,
/// `prompt=none` without one is refused, else the page is shown.
pub fn decide_page_start(session: Option<u64>, prompts: &Vec<String>, max_age: Option<u64>, now: u64) -> (r: PageStart)
    ensures
        r == spec_page_start(session, prompts@, max_age, now),
{
    if can_reuse_session(session, prompts, max_age, now) {
        PageStart::CompleteWithSession
    } else if is_silent(prompts) {
        PageStart::LoginRequired
    } else {
        PageStart::ShowLoginPage
    }
}

/// The flow and the HTML page use a session under the same conditions, and
/// both refuse `prompt=none` when they cannot.
pub proof fn lemma_flow_and_page_agree(session: Option<u64>, prompts: Seq<String>, max_age: Option<u64>, now: u64)
    ensures
        (spec_flow_start(session, prompts, max_age, now) is CompleteWithSession || spec_flow_start(
            session,
            prompts,
            max_age,
            now,
        ) is OfferSessionReuse) <==> spec_page_start(session, prompts, max_age, now) is CompleteWithSession,
        spec_flow_start(session, prompts, max_age, now) is LoginRequired <==> spec_page_start(
            session,
            prompts,
            max_age,
            now,
        ) is LoginRequired,
{
}

/// A session is never used where the request asks for a fresh login, or
/// where it is older than the maximum age allows.
pub proof fn lemma_no_reuse_against_prompt_or_age(t: u64, prompts: Seq<String>, max_age: Option<u64>, now: u64)
    requires
        !prompts_allow_reuse(prompts) || !spec_satisfies_max_age(t, max_age, now),
    ensures
        !(spec_flow_start(Some(t), prompts, max_age, now) is CompleteWithSession),
        !(spec_flow_start(Some(t), prompts, max_age, now) is OfferSessionReuse),
        !(spec_page_start(Some(t), prompts, max_age, now) is CompleteWithSession),
{
}

/// What continuing with the existing session does.
#[derive(Clone, Copy, Debug, PartialEq, Eq, Structural)]
pub enum UseSessionDecision {
    /// The session the flow offered is gone or belongs to someone else.
    SessionGone,
    /// No authorization request waits: the browser goes to the console.
    AlreadySignedIn,
    /// The session is older than the request allows.
    FreshSignInRequired,
    /// Complete the authorization request with the session.
    Complete,
}

pub open spec fn spec_use_session(
    trusted_user_id: Seq<char>,
    current: Option<(Seq<char>, u64)>,
    auth_request_id: Seq<char>,
    max_age: Option<u64>,
    now: u64,
) -> UseSessionDecision {
    match current {
        Some((user, t)) => if trusted_user_id.len() == 0 || user != trusted_user_id {
            UseSessionDecision::SessionGone
        } else if auth_request_id.len() == 0 {
            UseSessionDecision::AlreadySignedIn
        } else if !spec_satisfies_max_age(t, max_age, now) {
            UseSessionDecision::FreshSignInRequired
        } else {
            UseSessionDecision::Complete
        },
        None => UseSessionDecision::SessionGone,
    }
}

/// Decides the `use_session` step: the flow's trusted user must still hold
/// the browser's session (`current`: its user and when it authenticated).
pub fn decide_use_session(
    trusted_user_id: &str,
    current: Option<(&str, u64)>,
    auth_request_id: &str,
    max_age: Option<u64>,
    now: u64,
) -> (r: UseSessionDecision)
    ensures
        r == spec_use_session(
            trusted_user_id@,
            match current {
                Some((u, t)) => Some((u@, t)),
                None => None,
            },
            auth_request_id@,
            max_age,
            now,
        ),
{
    match current {
        Some((user, t)) => {
            if trusted_user_id.is_empty() || !str_eq(user, trusted_user_id) {
                UseSessionDecision::SessionGone
            } else if auth_request_id.is_empty() {
                UseSessionDecision::AlreadySignedIn
            } else if !session_satisfies_max_age(t, max_age, now) {
                UseSessionDecision::FreshSignInRequired
            } else {
                UseSessionDecision::Complete
            }
        },
        None => UseSessionDecision::SessionGone,
    }
}

/// Where a login without an authorization request sends the browser: the
/// flow's own address, else the console.
pub fn completion_without_request(flow_redirect: &str) -> (r: String)
    ensures
        r@ == if flow_redirect@.len() > 0 {
            flow_redirect@
        } else {
            "/console"@
        },
{
    if flow_redirect.is_empty() {
        str_to_string("/console")
    } else {
        str_to_string(flow_redirect)
    }
}

/// What bot protection does with a step: whether a captcha must be solved
/// first, and whether the step is blocked. `risk_at_threshold` says whether
/// the risk score reached the configured threshold.
pub fn bot_enforcement(mode: &str, action: &str, risk_at_threshold: bool, captcha_verified: bool) -> (r: (
    bool,
    bool,
))
    ensures
        r.0 == (mode@ == "enforce"@ && risk_at_threshold && !captcha_verified && action@ == "challenge"@),
        r.1 == (mode@ == "enforce"@ && risk_at_threshold && action@ == "block"@),
{
    let enforce = str_eq(mode, "enforce");
    let needs_captcha = enforce && risk_at_threshold && !captcha_verified && str_eq(action, "challenge");
    let blocked = enforce && risk_at_threshold && str_eq(action, "block");
    (needs_captcha, blocked)
}

/// Whether bot protection is off: no mode or `disabled`.
pub fn is_disabled(mode: &str) -> (r: bool)
    ensures
        r == (mode@.len() == 0 || mode@ == "disabled"@),
{
    mode.is_empty() || str_eq(mode, "disabled")
}

/// Whether bot protection only observes.
pub fn is_observe(mode: &str) -> (r: bool)
    ensures
        r == (mode@ == "observe"@),
{
    str_eq(mode, "observe")
}

/// Whether bot protection enforces its action.
pub fn is_enforce(mode: &str) -> (r: bool)
    ensures
        r == (mode@ == "enforce"@),
{
    str_eq(mode, "enforce")
}

/// The action recorded for a scored request: `observe` in observe mode, the
/// configured action where the risk reached the threshold, else `allow`.
pub fn bot_action_taken(mode: &str, action: &str, risk_at_threshold: bool) -> (r: String)
    ensures
        r@ == if mode@ == "observe"@ {
            "observe"@
        } else if risk_at_threshold {
            action@
        } else {
            "allow"@
        },
{
    if is_observe(mode) {
        str_to_string("observe")
    } else if risk_at_threshold {
        str_to_string(action)
    } else {
        str_to_string("allow")
    }
}

/// The kind of challenge a captcha provider stands for.
#[derive(Clone, Copy, Debug, PartialEq, Eq, Structural)]
pub enum CaptchaKind {
    ProofOfWork,
    Widget,
    NoChallenge,
}

/// The challenge of a provider: proof of work for `pow`, a widget for
/// `recaptcha`, `hcaptcha` and `turnstile`, none for any other.
pub fn captcha_kind(provider: &str) -> (r: CaptchaKind)
    ensures
        r == if provider@ == "pow"@ {
            CaptchaKind::ProofOfWork
        } else if provider@ == "recaptcha"@ || provider@ == "hcaptcha"@ || provider@ == "turnstile"@ {
            CaptchaKind::Widget
        } else {
            CaptchaKind::NoChallenge
        },
{
    if str_eq(provider, "pow") {
        CaptchaKind::ProofOfWork
    } else if str_eq(provider, "recaptcha") || str_eq(provider, "hcaptcha") || str_eq(provider, "turnstile") {
        CaptchaKind::Widget
    } else {
        CaptchaKind::NoChallenge
    }
}

/// Where a widget provider verifies its tokens.
pub fn captcha_verify_url(provider: &str) -> (r: Option<&'static str>)
    ensures
        match r {
            Some(u) => (provider@ == "recaptcha"@ && u@ == "https://www.google.com/recaptcha/api/siteverify"@) || (
            provider@ == "hcaptcha"@ && u@ == "https://api.hcaptcha.com/siteverify"@) || (provider@ == "turnstile"@
                && u@ == "https://challenges.cloudflare.com/turnstile/v0/siteverify"@),
            None => provider@ != "recaptcha"@ && provider@ != "hcaptcha"@ && provider@ != "turnstile"@,
        },
{
    if str_eq(provider, "recaptcha") {
        Some("https://www.google.com/recaptcha/api/siteverify")
    } else if str_eq(provider, "hcaptcha") {
        Some("https://api.hcaptcha.com/siteverify")
    } else if str_eq(provider, "turnstile") {
        Some("https://challenges.cloudflare.com/turnstile/v0/siteverify")
    } else {
        None
    }
}

/// What a proof-of-work submission turned out to be.
#[derive(Clone, Copy, Debug, PartialEq, Eq, Structural)]
pub enum PowCheck {
    /// No `altcha_payload` was submitted.
    Absent,
    /// The payload is not a solution.
    Malformed,
    /// The solution was checked against the server's secret.
    Checked(bool),
}

/// Whether a third-party captcha token is checked with its provider: for a
/// widget provider with a configured secret.
pub open spec fn provider_checks_token(provider: Seq<char>, secret: Seq<char>) -> bool {
    (provider == "recaptcha"@ || provider == "hcaptcha"@ || provider == "turnstile"@) && secret.len() > 0
}

/// Whether a third-party captcha token is checked with its provider.
pub fn checks_captcha_token(provider: &str, secret: &str) -> (r: bool)
    ensures
        r == provider_checks_token(provider@, secret@),
{
    (str_eq(provider, "recaptcha") || str_eq(provider, "hcaptcha") || str_eq(provider, "turnstile"))
        && secret.unicode_len() > 0
}

/// The verdict on a captcha submission, given the proof-of-work check, the
/// third-party token, the flow's provider and secret, and the provider's
/// answer (consulted only where `provider_checks_token`). A refusal carries
/// its status and error text (the malformed-payload text is completed with
/// the parser's message); `Ok` marks the flow verified.
pub fn decide_captcha(pow: PowCheck, token: &str, provider: &str, secret: &str, provider_verified: bool) -> (r: Result<
    (),
    (u16, &'static str),
>)
    ensures
        pow == PowCheck::Absent && token@.len() == 0 ==> r == Err::<(), (u16, &'static str)>(
            (400, "altcha_payload or captcha_token is required"),
        ),
        !(pow == PowCheck::Absent && token@.len() == 0) && pow == PowCheck::Malformed ==> r == Err::<
            (),
            (u16, &'static str),
        >((400, "invalid altcha_payload: ")),
        !(pow == PowCheck::Absent && token@.len() == 0) && pow == PowCheck::Checked(false) ==> r == Err::<
            (),
            (u16, &'static str),
        >((400, "invalid proof-of-work solution")),
        !(pow == PowCheck::Absent && token@.len() == 0) && pow != PowCheck::Malformed && pow != PowCheck::Checked(
            false,
        ) ==> if token@.len() > 0 && provider_checks_token(provider@, secret@) && !provider_verified {
            r == Err::<(), (u16, &'static str)>((400, "captcha verification failed"))
        } else {
            r is Ok
        },
{
    if pow == PowCheck::Absent && token.unicode_len() == 0 {
        return Err((400, "altcha_payload or captcha_token is required"));
    }
    match pow {
        PowCheck::Malformed => {
            return Err((400, "invalid altcha_payload: "));
        },
        PowCheck::Checked(false) => {
            return Err((400, "invalid proof-of-work solution"));
        },
        _ => {},
    }
    if token.unicode_len() > 0 && checks_captcha_token(provider, secret) && !provider_verified {
        return Err((400, "captcha verification failed"));
    }
    Ok(())
}

/// The `Set-Cookie` value of a new session: the signed token, then its
/// attributes and lifetime, `Secure` where cookies are secure.
pub fn session_cookie(cookie_name: &str, signed_token: &str, max_age: u64, secure: bool) -> (r: String)
    ensures
        r@ == cookie_name@ + "="@ + signed_token@ + "; HttpOnly; SameSite=Lax; Path=/; Max-Age="@ + spec_decimal(
            max_age as nat,
        ) + if secure {
            "; Secure"@
        } else {
            Seq::<char>::empty()
        },
{
    let age = u64_to_decimal(max_age);
    let head = concat3(cookie_name, "=", signed_token);
    let mid = concat3(head.as_str(), "; HttpOnly; SameSite=Lax; Path=/; Max-Age=", age.as_str());
    if secure {
        concat2(mid.as_str(), "; Secure")
    } else {
        proof {
            assert(mid@ =~= mid@ + Seq::<char>::empty());
        }
        mid
    }
}

/// The value of the first cookie of a `Cookie` header whose trimmed text
/// starts with `prefix`.
pub open spec fn first_cookie_value(parts: Seq<Seq<char>>, prefix: Seq<char>) -> Option<Seq<char>>
    decreases parts.len(),
{
    if parts.len() == 0 {
        None
    } else {
        let p = trim_ws(parts[0]);
        if is_prefix(prefix, p) {
            Some(p.subrange(prefix.len() as int, p.len() as int))
        } else {
            first_cookie_value(parts.drop_first(), prefix)
        }
    }
}

/// The session cookie's value in a `Cookie` header: the first `;`-separated
/// part that, trimmed, starts with `<cookie_name>=`.
pub fn session_cookie_token(cookie_header: &str, cookie_name: &str) -> (r: Option<String>)
    ensures
        match r {
            Some(v) => first_cookie_value(split_on(cookie_header@, ';'), cookie_name@ + "="@) == Some(v@),
            None => first_cookie_value(split_on(cookie_header@, ';'), cookie_name@ + "="@) is None,
        },
{
    let prefix = concat2(cookie_name, "=");
    let parts = split_char(cookie_header, ';');
    let ghost sp = split_on(cookie_header@, ';');
    let mut i: usize = 0;
    assert(sp.subrange(0, sp.len() as int) =~= sp);
    while i < parts.len()
        invariant
            i <= parts@.len(),
            parts@.len() == sp.len(),
            forall|j: int| 0 <= j < parts@.len() ==> (#[trigger] parts@[j])@ == sp[j],
            first_cookie_value(sp, prefix@) == first_cookie_value(sp.subrange(i as int, sp.len() as int), prefix@),
            prefix@ == cookie_name@ + "="@,
            sp == split_on(cookie_header@, ';'),
        decreases parts.len() - i,
    {
        let t = trim(parts[i].as_str());
        proof {
            assert(parts@[i as int]@ == sp[i as int]);
            assert(sp.subrange(i as int, sp.len() as int)[0] == sp[i as int]);
            assert(sp.subrange(i as int, sp.len() as int).drop_first() =~= sp.subrange(i + 1, sp.len() as int));
        }
        if str_starts_with(t.as_str(), prefix.as_str()) {
            let v = chars_of(t.as_str());
            let plen = chars_of(prefix.as_str()).len();
            proof {
                let rest = sp.subrange(i as int, sp.len() as int);
                assert(trim_ws(rest[0]) == t@);
                assert(first_cookie_value(rest, prefix@) == Some(t@.subrange(prefix@.len() as int, t@.len() as int)));
            }
            return Some(string_from_range(v.as_slice(), plen, v.len()));
        }
        i = i + 1;
    }
    proof {
        assert(sp.subrange(i as int, sp.len() as int).len() == 0);
    }
    None
}

/// What a post to the HTML sign-in page asks for.
#[derive(Clone, Copy, Debug, PartialEq, Eq, Structural)]
pub enum PageAction {
    UseSession,
    Back,
    SignIn,
}

/// The action of a post to the HTML page: `use_session`, `back`, or signing
/// in with the submitted credentials.
pub fn parse_page_action(action: &str) -> (r: PageAction)
    ensures
        r == if action@ == "use_session"@ {
            PageAction::UseSession
        } else if action@ == "back"@ {
            PageAction::Back
        } else {
            PageAction::SignIn
        },
{
    if str_eq(action, "use_session") {
        PageAction::UseSession
    } else if str_eq(action, "back") {
        PageAction::Back
    } else {
        PageAction::SignIn
    }
}

/// Decides `use_session` on the HTML page: without a session it is gone, a
/// session older than the request allows needs a fresh sign-in, else the
/// request is completed.
pub fn decide_page_use_session(session: Option<u64>, max_age: Option<u64>, now: u64) -> (r: UseSessionDecision)
    ensures
        r == match session {
            None => UseSessionDecision::SessionGone,
            Some(t) => if spec_satisfies_max_age(t, max_age, now) {
                UseSessionDecision::Complete
            } else {
                UseSessionDecision::FreshSignInRequired
            },
        },
{
    match session {
        None => UseSessionDecision::SessionGone,
        Some(t) => if session_satisfies_max_age(t, max_age, now) {
            UseSessionDecision::Complete
        } else {
            UseSessionDecision::FreshSignInRequired
        },
    }
}

} // verus!
