//! The login service's decisions and texts: login steps, session age, the
//! redirects back to clients, cookies and the pages and form nodes it shows.

use vstd::prelude::*;

use crate::oidc_op::trim_trailing_slashes;
use crate::text::{chars_of, concat2, concat3, concat4, concat5, push_char, str_eq, str_to_string, string_from_range};
use vstd::utf8::encode_utf8;

verus! {

/// The steps of a login flow.
#[derive(Clone, Copy, Debug, PartialEq, Eq, Structural)]
pub enum LoginStep {
    Identifier,
    Password,
    SessionReuse,
    Complete,
}

pub open spec fn step_name(s: LoginStep) -> Seq<char> {
    match s {
        LoginStep::Identifier => "identifier"@,
        LoginStep::Password => "password"@,
        LoginStep::SessionReuse => "session_reuse"@,
        LoginStep::Complete => "complete"@,
    }
}

impl LoginStep {
    /// The name of the step.
    pub fn as_str(&self) -> (r: &'static str)
        ensures
            r@ == step_name(*self),
    {
        match self {
            LoginStep::Identifier => "identifier",
            LoginStep::Password => "password",
            LoginStep::SessionReuse => "session_reuse",
            LoginStep::Complete => "complete",
        }
    }

    /// The step a name stands for.
    pub fn from_str(s: &str) -> (r: Option<LoginStep>)
        ensures
            s@ == "identifier"@ ==> r == Some(LoginStep::Identifier),
            s@ != "identifier"@ && s@ == "password"@ ==> r == Some(LoginStep::Password),
            s@ != "identifier"@ && s@ != "password"@ && s@ == "session_reuse"@ ==> r == Some(
                LoginStep::SessionReuse,
            ),
            s@ != "identifier"@ && s@ != "password"@ && s@ != "session_reuse"@ && s@ == "complete"@ ==> r == Some(
                LoginStep::Complete,
            ),
            s@ != "identifier"@ && s@ != "password"@ && s@ != "session_reuse"@ && s@ != "complete"@ ==> r is None,
    {
        if str_eq(s, "identifier") {
            Some(LoginStep::Identifier)
        } else if str_eq(s, "password") {
            Some(LoginStep::Password)
        } else if str_eq(s, "session_reuse") {
            Some(LoginStep::SessionReuse)
        } else if str_eq(s, "complete") {
            Some(LoginStep::Complete)
        } else {
            None
        }
    }
}

/// Distinct steps have distinct names, so reading a step's name gives the
/// step back.
pub proof fn lemma_step_name_distinct(a: LoginStep, b: LoginStep)
    requires
        step_name(a) == step_name(b),
    ensures
        a == b,
{
    reveal_strlit("identifier");
    reveal_strlit("password");
    reveal_strlit("session_reuse");
    reveal_strlit("complete");
    assert("identifier"@[0] == 'i');
    assert("password"@[0] == 'p');
    assert("session_reuse"@[0] == 's');
    assert("complete"@[0] == 'c');
}

/// Whether a session authenticated at `authenticated_at_epoch` is young
/// enough for `max_age` seconds at `now_epoch` (a clock behind the session
/// counts as age zero).
pub open spec fn spec_satisfies_max_age(authenticated_at_epoch: u64, max_age: Option<u64>, now_epoch: u64) -> bool {
    match max_age {
        Some(m) => (if now_epoch >= authenticated_at_epoch {
            now_epoch - authenticated_at_epoch
        } else {
            0
        }) <= m,
        None => true,
    }
}

/// Whether a session is young enough for the request's `max_age`.
pub fn session_satisfies_max_age(authenticated_at_epoch: u64, max_age: Option<u64>, now_epoch: u64) -> (r: bool)
    ensures
        r == spec_satisfies_max_age(authenticated_at_epoch, max_age, now_epoch),
{
    match max_age {
        Some(max_age) => now_epoch.saturating_sub(authenticated_at_epoch) <= max_age,
        None => true,
    }
}

/// A session that satisfies a maximum age still satisfies any larger one,
/// and one that fails it fails any later check.
pub proof fn lemma_max_age_monotone(authenticated_at: u64, m1: u64, m2: u64, now1: u64, now2: u64)
    requires
        m1 <= m2,
        now2 <= now1,
    ensures
        spec_satisfies_max_age(authenticated_at, Some(m1), now1) ==> spec_satisfies_max_age(
            authenticated_at,
            Some(m2),
            now2,
        ),
{
}

/// The address a successful login returns to: the code, then the state
/// where there is one.
pub fn build_auth_redirect(redirect_uri: &str, state: &str, code: &str) -> (r: String)
    ensures
        r@ == redirect_uri@ + "?code="@ + code@ + if state@.len() == 0 {
            Seq::<char>::empty()
        } else {
            "&state="@ + state@
        },
{
    let state_param = if state.is_empty() {
        String::new()
    } else {
        concat2("&state=", state)
    };
    proof {
        if state@.len() == 0 {
            assert(state_param@ =~= Seq::<char>::empty());
        }
    }
    concat4(redirect_uri, "?code=", code, state_param.as_str())
}

pub open spec fn hex_upper(d: u8) -> char {
    if d < 10 {
        ((d as nat) + ('0' as nat)) as char
    } else {
        ((d as nat) - 10 + ('A' as nat)) as char
    }
}

/// Whether `form_urlencoded::byte_serialize` keeps a byte as it is.
pub open spec fn byte_kept(b: u8) -> bool {
    (0x41 <= b && b <= 0x5a) || (0x61 <= b && b <= 0x7a) || (0x30 <= b && b <= 0x39) || b == 0x2a || b == 0x2d
        || b == 0x2e || b == 0x5f
}

/// The form encoding of one byte: kept bytes as they are, a space as `+`,
/// any other byte as `%` and two upper-case hex digits.
pub open spec fn encode_byte(b: u8) -> Seq<char> {
    if byte_kept(b) {
        seq![b as char]
    } else if b == 0x20 {
        seq!['+']
    } else {
        seq!['%', hex_upper(b / 16), hex_upper(b % 16)]
    }
}

/// The `application/x-www-form-urlencoded` encoding of bytes.
pub open spec fn form_encode(bytes: Seq<u8>) -> Seq<char>
    decreases bytes.len(),
{
    if bytes.len() == 0 {
        Seq::empty()
    } else {
        form_encode(bytes.drop_last()) + encode_byte(bytes.last())
    }
}

fn hex_digit(d: u8) -> (c: char)
    requires
        d < 16,
    ensures
        c == hex_upper(d),
{
    match d {
        0 => '0',
        1 => '1',
        2 => '2',
        3 => '3',
        4 => '4',
        5 => '5',
        6 => '6',
        7 => '7',
        8 => '8',
        9 => '9',
        10 => 'A',
        11 => 'B',
        12 => 'C',
        13 => 'D',
        14 => 'E',
        _ => 'F',
    }
}

/// The form encoding of the UTF-8 bytes of `s`, as
/// `form_urlencoded::byte_serialize` gives it.
pub fn urlencoding_encode(s: &str) -> (r: String)
    ensures
        r@ == form_encode(encode_utf8(s@)),
{
    let bytes = s.as_bytes();
    let mut out = String::new();
    let mut i: usize = 0;
    assert(bytes@.subrange(0, 0) =~= Seq::<u8>::empty());
    while i < bytes.len()
        invariant
            i <= bytes@.len(),
            bytes@ == encode_utf8(s@),
            out@ == form_encode(bytes@.subrange(0, i as int)),
        decreases bytes.len() - i,
    {
        let b = bytes[i];
        proof {
            let pre = bytes@.subrange(0, i as int + 1);
            assert(pre.drop_last() =~= bytes@.subrange(0, i as int));
            assert(pre.last() == b);
        }
        let ghost before = out@;
        if (0x41 <= b && b <= 0x5a) || (0x61 <= b && b <= 0x7a) || (0x30 <= b && b <= 0x39) || b == 0x2a || b == 0x2d
            || b == 0x2e || b == 0x5f {
            push_char(&mut out, b as char);
            proof {
                assert(out@ =~= before + encode_byte(b));
            }
        } else if b == 0x20 {
            push_char(&mut out, '+');
            proof {
                assert(out@ =~= before + encode_byte(b));
            }
        } else {
            push_char(&mut out, '%');
            push_char(&mut out, hex_digit(b / 16));
            push_char(&mut out, hex_digit(b % 16));
            proof {
                assert(out@ =~= before + encode_byte(b));
            }
        }
        i = i + 1;
    }
    assert(bytes@.subrange(0, bytes@.len() as int) =~= bytes@);
    out
}

/// The address a failed login returns to: the error and its description,
/// form-encoded, then the state where there is one.
pub fn build_auth_error_redirect(redirect_uri: &str, state: &str, error: &str, description: &str) -> (r: String)
    ensures
        r@ == redirect_uri@ + "?error="@ + form_encode(encode_utf8(error@)) + "&error_description="@ + form_encode(
            encode_utf8(description@),
        ) + if state@.len() == 0 {
            Seq::<char>::empty()
        } else {
            "&state="@ + form_encode(encode_utf8(state@))
        },
{
    let e = urlencoding_encode(error);
    let d = urlencoding_encode(description);
    let head = concat5(redirect_uri, "?error=", e.as_str(), "&error_description=", d.as_str());
    if state.is_empty() {
        proof {
            assert(head@ =~= head@ + Seq::<char>::empty());
        }
        head
    } else {
        let st = urlencoding_encode(state);
        let r = concat3(head.as_str(), "&state=", st.as_str());
        proof {
            assert(r@ =~= head@ + ("&state="@ + st@));
        }
        r
    }
}

/// The `Set-Cookie` value that removes a session cookie.
pub fn expired_session_cookie(cookie_name: &str, secure: bool) -> (r: String)
    ensures
        r@ == cookie_name@ + "=; Path=/; HttpOnly; Max-Age=0; Expires=Thu, 01 Jan 1970 00:00:00 GMT; SameSite=Lax"@
            + if secure {
            "; Secure"@
        } else {
            Seq::<char>::empty()
        },
{
    let base = concat2(cookie_name, "=; Path=/; HttpOnly; Max-Age=0; Expires=Thu, 01 Jan 1970 00:00:00 GMT; SameSite=Lax");
    if secure {
        concat2(base.as_str(), "; Secure")
    } else {
        proof {
            assert(base@ =~= base@ + Seq::<char>::empty());
        }
        base
    }
}

/// The public origin: the configured override, else the origin of the
/// current request, else the configured origin.
pub fn effective_public_origin(
    public_origin_override: Option<&str>,
    request_origin: Option<&str>,
    public_origin: &str,
) -> (r: String)
    ensures
        r@ == match public_origin_override {
            Some(o) => o@,
            None => match request_origin {
                Some(q) => q@,
                None => public_origin@,
            },
        },
{
    match public_origin_override {
        Some(o) => str_to_string(o),
        None => match request_origin {
            Some(q) => str_to_string(q),
            None => str_to_string(public_origin),
        },
    }
}

/// The address identity providers return to: the origin without trailing
/// slashes, then `/v1/auth/sso/callback`.
pub fn sso_callback_uri(origin: &str) -> (r: String)
    ensures
        r@ == trim_trailing_slashes(origin@) + "/v1/auth/sso/callback"@,
{
    let v = chars_of(origin);
    let mut n = v.len();
    assert(v@.subrange(0, n as int) =~= v@);
    while n > 0 && v[n - 1] == '/'
        invariant
            n <= v@.len(),
            trim_trailing_slashes(origin@) == trim_trailing_slashes(v@.subrange(0, n as int)),
            v@ == origin@,
        decreases n,
    {
        proof {
            assert(v@.subrange(0, n as int).drop_last() =~= v@.subrange(0, n as int - 1));
        }
        n = n - 1;
    }
    let trimmed = string_from_range(v.as_slice(), 0, n);
    concat2(trimmed.as_str(), "/v1/auth/sso/callback")
}

/// The default bot-protection action.
pub fn default_action() -> (r: String)
    ensures
        r@ == "challenge"@,
{
    str_to_string("challenge")
}

/// The default bot-protection provider.
pub fn default_provider() -> (r: String)
    ensures
        r@ == "pow"@,
{
    str_to_string("pow")
}

pub open spec fn login_page_text(auth_request_id: Seq<char>, identifier: Seq<char>, error_html: Seq<char>) -> Seq<char> {
    "<!doctype html><html><head><meta charset=\"utf-8\"><title>Sign in</title></head><body><main><h1>Sign in</h1>"@
        + error_html
        + "<form method=\"post\" action=\"/conformance/login\"><input type=\"hidden\" name=\"auth_request_id\" value=\""@
        + auth_request_id
        + "\"><label>Email or username<input name=\"identifier\" value=\""@ + identifier
        + "\" autocomplete=\"username\"></label><label>Enter your password<input type=\"password\" name=\"password\" autocomplete=\"current-password\"></label><button type=\"submit\">Sign in</button></form></main></body></html>"@
}

/// The sign-in page of the conformance login, with the error shown where
/// there is one and the identifier filled in.
pub fn render_login_page(auth_request_id: &str, identifier: Option<&str>, error: Option<&str>) -> (r: String)
    ensures
        r@ == login_page_text(
            auth_request_id@,
            match identifier {
                Some(i) => i@,
                None => Seq::empty(),
            },
            match error {
                Some(m) => "<p style=\"color:#b91c1c\">"@ + m@ + "</p>"@,
                None => Seq::empty(),
            },
        ),
{
    let error_html = match error {
        Some(m) => concat3("<p style=\"color:#b91c1c\">", m, "</p>"),
        None => String::new(),
    };
    let ident = match identifier {
        Some(i) => str_to_string(i),
        None => String::new(),
    };
    let a = concat3(
        "<!doctype html><html><head><meta charset=\"utf-8\"><title>Sign in</title></head><body><main><h1>Sign in</h1>",
        error_html.as_str(),
        "<form method=\"post\" action=\"/conformance/login\"><input type=\"hidden\" name=\"auth_request_id\" value=\"",
    );
    let b = concat4(
        a.as_str(),
        auth_request_id,
        "\"><label>Email or username<input name=\"identifier\" value=\"",
        ident.as_str(),
    );
    let r = concat2(
        b.as_str(),
        "\" autocomplete=\"username\"></label><label>Enter your password<input type=\"password\" name=\"password\" autocomplete=\"current-password\"></label><button type=\"submit\">Sign in</button></form></main></body></html>",
    );
    proof {
        if error is None {
            assert(error_html@ =~= Seq::<char>::empty());
        }
        if identifier is None {
            assert(ident@ =~= Seq::<char>::empty());
        }
    }
    r
}

/// The page that offers to continue with an existing session.
pub fn render_session_reuse_page(auth_request_id: &str, identifier: &str, display_name: &str) -> (r: String)
    ensures
        r@ == "<!doctype html><html><head><meta charset=\"utf-8\"><title>Reuse session</title></head><body><main><h1>Use your existing session?</h1><p>"@
            + (if display_name@.len() == 0 {
            identifier@
        } else {
            display_name@ + " · "@ + identifier@
        })
            + "</p><form method=\"post\" action=\"/conformance/login\"><input type=\"hidden\" name=\"auth_request_id\" value=\""@
            + auth_request_id@
            + "\"><button type=\"submit\" name=\"action\" value=\"use_session\">Continue with this session</button><button type=\"submit\" name=\"action\" value=\"back\">Use a different account</button></form></main></body></html>"@,
{
    let account = if display_name.is_empty() {
        str_to_string(identifier)
    } else {
        concat3(display_name, " · ", identifier)
    };
    let a = concat3(
        "<!doctype html><html><head><meta charset=\"utf-8\"><title>Reuse session</title></head><body><main><h1>Use your existing session?</h1><p>",
        account.as_str(),
        "</p><form method=\"post\" action=\"/conformance/login\"><input type=\"hidden\" name=\"auth_request_id\" value=\"",
    );
    concat3(
        a.as_str(),
        auth_request_id,
        "\"><button type=\"submit\" name=\"action\" value=\"use_session\">Continue with this session</button><button type=\"submit\" name=\"action\" value=\"back\">Use a different account</button></form></main></body></html>",
    )
}

/// The error page of the conformance login.
pub fn render_error_page(message: &str) -> (r: String)
    ensures
        r@ == "<!doctype html><html><head><meta charset=\"utf-8\"><title>Login error</title></head><body><main><h1>Login error</h1><p>"@
            + message@ + "</p></main></body></html>"@,
{
    concat3(
        "<!doctype html><html><head><meta charset=\"utf-8\"><title>Login error</title></head><body><main><h1>Login error</h1><p>",
        message,
        "</p></main></body></html>",
    )
}

} // verus!
