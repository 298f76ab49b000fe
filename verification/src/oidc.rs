//! OpenID Connect protocol values: errors, discovery, tokens and claims,
//! and the whitespace-separated lists the protocol uses.

use vstd::prelude::*;

use crate::text::{chars_of, push_char, str_eq, str_to_string};

verus! {

/// The body of a protocol error.
#[derive(Debug)]
pub struct ErrorResponse {
    pub error: String,
    pub error_description: Option<String>,
}

/// A protocol error: the HTTP status and the error body.
#[derive(Debug)]
pub struct ProtocolError {
    pub status_code: u16,
    pub body: ErrorResponse,
}

/// A protocol error with status `status`, code `error` and description
/// `description`, where an empty description is left out.
pub open spec fn is_protocol_error(e: ProtocolError, status: u16, error: Seq<char>, description: Seq<char>) -> bool {
    &&& e.status_code == status
    &&& e.body.error@ == error
    &&& if description.len() == 0 {
        e.body.error_description is None
    } else {
        e.body.error_description matches Some(d) && d@ == description
    }
}

impl ProtocolError {
    /// A protocol error; an empty description is left out of the body.
    pub fn new(status_code: u16, error: &str, description: &str) -> (r: ProtocolError)
        ensures
            is_protocol_error(r, status_code, error@, description@),
    {
        ProtocolError {
            status_code,
            body: ErrorResponse {
                error: str_to_string(error),
                error_description: if description.is_empty() {
                    None
                } else {
                    Some(str_to_string(description))
                },
            },
        }
    }

    /// `400 invalid_request`.
    pub fn invalid_request(description: &str) -> (r: ProtocolError)
        ensures
            is_protocol_error(r, 400, "invalid_request"@, description@),
    {
        ProtocolError::new(400, "invalid_request", description)
    }

    /// `401 invalid_client`.
    pub fn invalid_client(description: &str) -> (r: ProtocolError)
        ensures
            is_protocol_error(r, 401, "invalid_client"@, description@),
    {
        ProtocolError::new(401, "invalid_client", description)
    }

    /// `400 invalid_grant`.
    pub fn invalid_grant(description: &str) -> (r: ProtocolError)
        ensures
            is_protocol_error(r, 400, "invalid_grant"@, description@),
    {
        ProtocolError::new(400, "invalid_grant", description)
    }

    /// `400 unsupported_grant_type`.
    pub fn unsupported_grant_type(description: &str) -> (r: ProtocolError)
        ensures
            is_protocol_error(r, 400, "unsupported_grant_type"@, description@),
    {
        ProtocolError::new(400, "unsupported_grant_type", description)
    }

    /// `400 unsupported_response_type`.
    pub fn unsupported_response_type(description: &str) -> (r: ProtocolError)
        ensures
            is_protocol_error(r, 400, "unsupported_response_type"@, description@),
    {
        ProtocolError::new(400, "unsupported_response_type", description)
    }

    /// `400 unauthorized_client`.
    pub fn unauthorized_client(description: &str) -> (r: ProtocolError)
        ensures
            is_protocol_error(r, 400, "unauthorized_client"@, description@),
    {
        ProtocolError::new(400, "unauthorized_client", description)
    }

    /// `500 server_error`.
    pub fn server_error(description: &str) -> (r: ProtocolError)
        ensures
            is_protocol_error(r, 500, "server_error"@, description@),
    {
        ProtocolError::new(500, "server_error", description)
    }

    /// `503 temporarily_unavailable`.
    pub fn temporarily_unavailable(description: &str) -> (r: ProtocolError)
        ensures
            is_protocol_error(r, 503, "temporarily_unavailable"@, description@),
    {
        ProtocolError::new(503, "temporarily_unavailable", description)
    }
}

/// The provider's discovery document.
#[derive(Debug)]
pub struct OpenIdConfiguration {
    pub issuer: String,
    pub authorization_endpoint: String,
    pub token_endpoint: String,
    pub userinfo_endpoint: String,
    pub jwks_uri: String,
    pub revocation_endpoint: String,
    pub end_session_endpoint: String,
    pub response_types_supported: Vec<String>,
    pub grant_types_supported: Vec<String>,
    pub subject_types_supported: Vec<String>,
    pub id_token_signing_alg_values_supported: Vec<String>,
    pub scopes_supported: Vec<String>,
    pub token_endpoint_auth_methods_supported: Vec<String>,
    pub code_challenge_methods_supported: Vec<String>,
    pub claims_supported: Vec<String>,
}

/// The public signing keys.
#[derive(Debug)]
pub struct JsonWebKeySet {
    pub keys: Vec<JsonWebKey>,
}

/// A public RSA signing key.
#[derive(Debug)]
pub struct JsonWebKey {
    pub kty: String,
    pub use_: String,
    pub kid: String,
    pub alg: String,
    pub n: String,
    pub e: String,
}

/// A registered client.
#[derive(Debug)]
pub struct ClientMetadata {
    pub client_id: String,
    pub client_secret: String,
    pub app_id: String,
    pub redirect_uris: Vec<String>,
    pub post_logout_redirect_uris: Vec<String>,
    pub grant_types: Vec<String>,
    pub response_types: Vec<String>,
    pub state: String,
}

/// An authorization request to store.
#[derive(Debug)]
pub struct NewAuthRequest {
    pub client_id: String,
    pub redirect_uri: String,
    pub response_type: String,
    pub scope: String,
    pub state: String,
    pub nonce: String,
    pub code_challenge: String,
    pub code_challenge_method: String,
    pub prompt: Vec<String>,
    pub login_hint: String,
    pub max_age: Option<u64>,
}

/// An authorization request whose code was redeemed.
#[derive(Debug)]
pub struct ConsumedAuthRequest {
    pub auth_request_id: String,
    pub user_id: String,
    pub session_id: String,
    pub client_id: String,
    pub redirect_uri: String,
    pub scope: String,
    pub nonce: String,
    pub code_challenge: String,
    pub auth_time: Option<u64>,
}

/// The claims of a user.
#[derive(Debug)]
pub struct UserClaims {
    pub subject: String,
    pub name: String,
    pub email: String,
    pub email_verified: bool,
}

/// The answer of the token endpoint.
#[derive(Debug)]
pub struct TokenResponse {
    pub access_token: String,
    pub token_type: String,
    pub expires_in: u64,
    pub id_token: Option<String>,
    pub refresh_token: Option<String>,
    pub scope: String,
}

/// The answer of the user info endpoint.
#[derive(Debug)]
pub struct UserInfoResponse {
    pub sub: String,
    pub name: String,
    pub email: String,
    pub email_verified: bool,
}

/// The claims of an ID token.
#[derive(Debug)]
pub struct IdTokenClaims {
    pub iss: String,
    pub sub: String,
    pub aud: String,
    pub exp: u64,
    pub iat: u64,
    pub jti: String,
    pub auth_time: Option<u64>,
    pub sid: Option<String>,
    pub nonce: String,
    pub name: String,
    pub email: String,
}

/// The claims of an access token.
#[derive(Debug)]
pub struct AccessTokenClaims {
    pub iss: String,
    pub sub: String,
    pub aud: String,
    pub exp: u64,
    pub iat: u64,
    pub jti: String,
    pub sid: Option<String>,
    pub scope: String,
    pub client_id: String,
}

/// The claims of a refresh token.
#[derive(Debug)]
pub struct RefreshTokenClaims {
    pub iss: String,
    pub sub: String,
    pub aud: String,
    pub exp: u64,
    pub iat: u64,
    pub jti: String,
    pub sid: Option<String>,
    pub scope: String,
    pub client_id: String,
}

/// Unicode white space, as `char::is_whitespace` has it.
pub open spec fn is_ws(c: char) -> bool {
    ||| ('\u{9}' <= c && c <= '\u{d}')
    ||| c == ' '
    ||| c == '\u{85}'
    ||| c == '\u{a0}'
    ||| c == '\u{1680}'
    ||| ('\u{2000}' <= c && c <= '\u{200a}')
    ||| c == '\u{2028}'
    ||| c == '\u{2029}'
    ||| c == '\u{202f}'
    ||| c == '\u{205f}'
    ||| c == '\u{3000}'
}

pub fn is_whitespace(c: char) -> (r: bool)
    ensures
        r == is_ws(c),
{
    ('\u{9}' <= c && c <= '\u{d}') || c == ' ' || c == '\u{85}' || c == '\u{a0}' || c == '\u{1680}' || (
    '\u{2000}' <= c && c <= '\u{200a}') || c == '\u{2028}' || c == '\u{2029}' || c == '\u{202f}' || c
        == '\u{205f}' || c == '\u{3000}'
}

/// The words of `s` read so far, and whether the last character read was
/// part of a word.
pub open spec fn split_state(s: Seq<char>) -> (Seq<Seq<char>>, bool)
    decreases s.len(),
{
    if s.len() == 0 {
        (Seq::empty(), false)
    } else {
        let (w, in_word) = split_state(s.drop_last());
        let c = s.last();
        if is_ws(c) {
            (w, false)
        } else if in_word {
            (w.update(w.len() - 1, w.last().push(c)), true)
        } else {
            (w.push(seq![c]), true)
        }
    }
}

/// The maximal runs of non-white-space characters of `s`, in order.
pub open spec fn split_ws(s: Seq<char>) -> Seq<Seq<char>> {
    split_state(s).0
}

proof fn lemma_split_state_nonempty(s: Seq<char>)
    ensures
        split_state(s).1 ==> split_state(s).0.len() > 0,
    decreases s.len(),
{
    if s.len() > 0 {
        lemma_split_state_nonempty(s.drop_last());
    }
}

/// The white-space-separated words of `s`.
pub fn split_whitespace(s: &str) -> (r: Vec<String>)
    ensures
        r@.len() == split_ws(s@).len(),
        forall|i: int| 0 <= i < r@.len() ==> (#[trigger] r@[i])@ == split_ws(s@)[i],
{
    let v = chars_of(s);
    let mut words: Vec<String> = Vec::new();
    let mut in_word = false;
    let mut i: usize = 0;
    assert(v@.subrange(0, 0) =~= Seq::<char>::empty());
    while i < v.len()
        invariant
            i <= v@.len(),
            v@ == s@,
            split_state(v@.subrange(0, i as int)).1 == in_word,
            words@.len() == split_state(v@.subrange(0, i as int)).0.len(),
            forall|j: int| 0 <= j < words@.len() ==> (#[trigger] words@[j])@ == split_state(v@.subrange(0, i as int)).0[j],
        decreases v.len() - i,
    {
        let c = v[i];
        proof {
            let pre = v@.subrange(0, i as int + 1);
            assert(pre.drop_last() =~= v@.subrange(0, i as int));
            assert(pre.last() == c);
            lemma_split_state_nonempty(v@.subrange(0, i as int));
        }
        let ghost before = words@;
        if is_whitespace(c) {
            in_word = false;
        } else if in_word {
            let last = words.len() - 1;
            let mut w = words.remove(last);
            push_char(&mut w, c);
            words.push(w);
            proof {
                assert forall|j: int| 0 <= j < words@.len() implies (#[trigger] words@[j])@ == split_state(
                    v@.subrange(0, i as int + 1),
                ).0[j] by {
                    if j < last {
                        assert(words@[j] == before[j]);
                    }
                }
            }
        } else {
            let mut w = String::new();
            push_char(&mut w, c);
            words.push(w);
            in_word = true;
            proof {
                assert(w@ =~= seq![c]);
                assert forall|j: int| 0 <= j < words@.len() implies (#[trigger] words@[j])@ == split_state(
                    v@.subrange(0, i as int + 1),
                ).0[j] by {
                    if j < before.len() {
                        assert(words@[j] == before[j]);
                    }
                }
            }
        }
        i = i + 1;
    }
    assert(v@.subrange(0, v@.len() as int) =~= v@);
    words
}

/// Whether `needle` is one of the white-space-separated words of `scope`.
pub open spec fn spec_scope_contains(scope: Seq<char>, needle: Seq<char>) -> bool {
    exists|i: int| 0 <= i < split_ws(scope).len() && split_ws(scope)[i] == needle
}

/// Whether `needle` is one of the white-space-separated words of `scope`.
pub fn scope_contains(scope: &str, needle: &str) -> (r: bool)
    ensures
        r == spec_scope_contains(scope@, needle@),
{
    let words = split_whitespace(scope);
    let mut i: usize = 0;
    while i < words.len()
        invariant
            i <= words@.len(),
            words@.len() == split_ws(scope@).len(),
            forall|j: int| 0 <= j < words@.len() ==> (#[trigger] words@[j])@ == split_ws(scope@)[j],
            forall|j: int| 0 <= j < i ==> split_ws(scope@)[j] != needle@,
        decreases words.len() - i,
    {
        if str_eq(words[i].as_str(), needle) {
            assert(split_ws(scope@)[i as int] == needle@);
            return true;
        }
        i = i + 1;
    }
    false
}

/// `None` for an empty text, else the text.
pub fn non_empty(value: String) -> (r: Option<String>)
    ensures
        match r {
            Some(s) => s@ == value@ && value@.len() > 0,
            None => value@.len() == 0,
        },
{
    if value.as_str().is_empty() {
        None
    } else {
        Some(value)
    }
}

} // verus!
