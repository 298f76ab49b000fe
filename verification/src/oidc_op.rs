//! The OpenID provider's decisions: its issuer and discovery document, client
//! authentication, the checks of each grant, PKCE, revocation and logout.

use vstd::prelude::*;

use base64::Engine;
use sha2::Digest;

use crate::oidc::{
    ClientMetadata, ConsumedAuthRequest, OpenIdConfiguration, ProtocolError, TokenResponse, is_protocol_error,
    spec_scope_contains, scope_contains,
};
use crate::oidc_authorize::{is_registered, registered};
use crate::text::{
    chars_of, concat2, concat5, contains_char, copy_string, find_char, has_char, index_of, is_prefix,
    str_eq, str_starts_with, str_to_string, string_from_range,
};
use vstd::utf8::{decode_utf8, valid_utf8};

verus! {

/// How long issued tokens live, in seconds.
#[derive(Debug)]
pub struct TokenLifetimes {
    pub access_token_secs: u64,
    pub id_token_secs: u64,
    pub refresh_token_secs: u64,
}

impl Default for TokenLifetimes {
    /// Twelve hours for access and ID tokens, thirty days for refresh tokens.
    fn default() -> (r: TokenLifetimes)
        ensures
            r.access_token_secs == 43200,
            r.id_token_secs == 43200,
            r.refresh_token_secs == 2592000,
    {
        TokenLifetimes { access_token_secs: 12 * 3600, id_token_secs: 12 * 3600, refresh_token_secs: 30 * 24 * 3600 }
    }
}

/// The configuration of the OpenID provider of an instance.
#[derive(Debug)]
pub struct Provider {
    pub instance_id: String,
    pub issuer: String,
    pub issuer_override: Option<String>,
    pub login_path: String,
    pub lifetimes: TokenLifetimes,
}

/// `s` without the `/` characters at its end.
pub open spec fn trim_trailing_slashes(s: Seq<char>) -> Seq<char>
    decreases s.len(),
{
    if s.len() > 0 && s.last() == '/' {
        trim_trailing_slashes(s.drop_last())
    } else {
        s
    }
}

pub fn trim_end_slashes(s: &str) -> (r: String)
    ensures
        r@ == trim_trailing_slashes(s@),
{
    let v = chars_of(s);
    let mut n = v.len();
    assert(v@.subrange(0, n as int) =~= v@);
    while n > 0 && v[n - 1] == '/'
        invariant
            n <= v@.len(),
            trim_trailing_slashes(s@) == trim_trailing_slashes(v@.subrange(0, n as int)),
            v@ == s@,
        decreases n,
    {
        proof {
            assert(v@.subrange(0, n as int).drop_last() =~= v@.subrange(0, n as int - 1));
        }
        n = n - 1;
    }
    string_from_range(v.as_slice(), 0, n)
}

pub open spec fn opt_seq(o: Option<String>) -> Option<Seq<char>> {
    match o {
        Some(s) => Some(s@),
        None => None,
    }
}

/// The issuer: the configured override, else the origin of the current
/// request, else the configured issuer.
pub open spec fn spec_issuer(p: Provider, request_origin: Option<Seq<char>>) -> Seq<char> {
    match p.issuer_override {
        Some(o) => o@,
        None => match request_origin {
            Some(r) => r,
            None => p.issuer@,
        },
    }
}

impl Provider {
    /// A provider with the default token lifetimes and no issuer override.
    pub fn new(instance_id: String, issuer: String, login_path: String) -> (r: Provider)
        ensures
            r.instance_id@ == instance_id@,
            r.issuer@ == issuer@,
            r.issuer_override is None,
            r.login_path@ == login_path@,
            r.lifetimes.access_token_secs == 43200,
            r.lifetimes.id_token_secs == 43200,
            r.lifetimes.refresh_token_secs == 2592000,
    {
        Provider { instance_id, issuer, issuer_override: None, login_path, lifetimes: TokenLifetimes::default() }
    }

    /// The same provider with other token lifetimes.
    pub fn with_lifetimes(self, lifetimes: TokenLifetimes) -> (r: Provider)
        ensures
            r.instance_id == self.instance_id,
            r.issuer == self.issuer,
            r.issuer_override == self.issuer_override,
            r.login_path == self.login_path,
            r.lifetimes == lifetimes,
    {
        Provider { lifetimes, ..self }
    }

    /// The same provider with an issuer that overrides the request origin;
    /// trailing slashes are cut off.
    pub fn with_issuer_override(self, issuer_override: Option<String>) -> (r: Provider)
        ensures
            r.instance_id == self.instance_id,
            r.issuer == self.issuer,
            r.login_path == self.login_path,
            r.lifetimes == self.lifetimes,
            opt_seq(r.issuer_override) == match issuer_override {
                Some(o) => Some(trim_trailing_slashes(o@)),
                None => None,
            },
    {
        let o = match issuer_override {
            Some(o) => Some(trim_end_slashes(o.as_str())),
            None => None,
        };
        Provider { issuer_override: o, ..self }
    }

    /// The issuer for a request from `request_origin`.
    pub fn issuer(&self, request_origin: Option<&str>) -> (r: String)
        ensures
            r@ == spec_issuer(*self, match request_origin {
                Some(o) => Some(o@),
                None => None,
            }),
    {
        match &self.issuer_override {
            Some(o) => copy_string(o),
            None => match request_origin {
                Some(r) => str_to_string(r),
                None => copy_string(&self.issuer),
            },
        }
    }

    /// The discovery document for a request from `request_origin`: the
    /// endpoints under the issuer and what the provider supports.
    pub fn discovery_document(&self, request_origin: Option<&str>) -> (r: OpenIdConfiguration)
        ensures
            ({
                let iss = spec_issuer(*self, match request_origin {
                    Some(o) => Some(o@),
                    None => None,
                });
                &&& r.issuer@ == iss
                &&& r.authorization_endpoint@ == iss + "/authorize"@
                &&& r.token_endpoint@ == iss + "/oauth/token"@
                &&& r.userinfo_endpoint@ == iss + "/userinfo"@
                &&& r.jwks_uri@ == iss + "/keys"@
                &&& r.revocation_endpoint@ == iss + "/revoke"@
                &&& r.end_session_endpoint@ == iss + "/end_session"@
                &&& r.response_types_supported@.map_values(|s: String| s@) == seq!["code"@]
                &&& r.grant_types_supported@.map_values(|s: String| s@) == seq![
                    "authorization_code"@,
                    "client_credentials"@,
                    "refresh_token"@,
                ]
                &&& r.subject_types_supported@.map_values(|s: String| s@) == seq!["public"@]
                &&& r.id_token_signing_alg_values_supported@.map_values(|s: String| s@) == seq!["RS256"@]
                &&& r.scopes_supported@.map_values(|s: String| s@) == seq![
                    "openid"@,
                    "profile"@,
                    "email"@,
                    "offline_access"@,
                ]
                &&& r.token_endpoint_auth_methods_supported@.map_values(|s: String| s@) == seq![
                    "client_secret_post"@,
                    "client_secret_basic"@,
                ]
                &&& r.code_challenge_methods_supported@.map_values(|s: String| s@) == seq!["S256"@]
                &&& r.claims_supported@.map_values(|s: String| s@) == seq![
                    "sub"@,
                    "iss"@,
                    "aud"@,
                    "exp"@,
                    "iat"@,
                    "auth_time"@,
                    "name"@,
                    "email"@,
                    "locale"@,
                ]
            }),
    {
        let issuer = self.issuer(request_origin);
        let response_types = vec![str_to_string("code")];
        let grant_types = vec![
            str_to_string("authorization_code"),
            str_to_string("client_credentials"),
            str_to_string("refresh_token"),
        ];
        let subject_types = vec![str_to_string("public")];
        let algs = vec![str_to_string("RS256")];
        let scopes = vec![
            str_to_string("openid"),
            str_to_string("profile"),
            str_to_string("email"),
            str_to_string("offline_access"),
        ];
        let auth_methods = vec![str_to_string("client_secret_post"), str_to_string("client_secret_basic")];
        let challenge_methods = vec![str_to_string("S256")];
        let claims = vec![
            str_to_string("sub"),
            str_to_string("iss"),
            str_to_string("aud"),
            str_to_string("exp"),
            str_to_string("iat"),
            str_to_string("auth_time"),
            str_to_string("name"),
            str_to_string("email"),
            str_to_string("locale"),
        ];
        proof {
            assert(response_types@.map_values(|s: String| s@) =~= seq!["code"@]);
            assert(grant_types@.map_values(|s: String| s@) =~= seq![
                "authorization_code"@,
                "client_credentials"@,
                "refresh_token"@,
            ]);
            assert(subject_types@.map_values(|s: String| s@) =~= seq!["public"@]);
            assert(algs@.map_values(|s: String| s@) =~= seq!["RS256"@]);
            assert(scopes@.map_values(|s: String| s@) =~= seq!["openid"@, "profile"@, "email"@, "offline_access"@]);
            assert(auth_methods@.map_values(|s: String| s@) =~= seq!["client_secret_post"@, "client_secret_basic"@]);
            assert(challenge_methods@.map_values(|s: String| s@) =~= seq!["S256"@]);
            assert(claims@.map_values(|s: String| s@) =~= seq![
                "sub"@,
                "iss"@,
                "aud"@,
                "exp"@,
                "iat"@,
                "auth_time"@,
                "name"@,
                "email"@,
                "locale"@,
            ]);
        }
        OpenIdConfiguration {
            authorization_endpoint: concat2(issuer.as_str(), "/authorize"),
            token_endpoint: concat2(issuer.as_str(), "/oauth/token"),
            userinfo_endpoint: concat2(issuer.as_str(), "/userinfo"),
            jwks_uri: concat2(issuer.as_str(), "/keys"),
            revocation_endpoint: concat2(issuer.as_str(), "/revoke"),
            end_session_endpoint: concat2(issuer.as_str(), "/end_session"),
            issuer,
            response_types_supported: response_types,
            grant_types_supported: grant_types,
            subject_types_supported: subject_types,
            id_token_signing_alg_values_supported: algs,
            scopes_supported: scopes,
            token_endpoint_auth_methods_supported: auth_methods,
            code_challenge_methods_supported: challenge_methods,
            claims_supported: claims,
        }
    }
}


/// How a client presented its credentials.
#[derive(Clone, Copy, Debug, PartialEq, Eq, Structural)]
pub enum ClientAuthMethod {
    ClientSecretBasic,
    ClientSecretPost,
}

/// The credentials a client presented.
#[derive(Debug)]
pub struct ClientAuthentication {
    pub client_id: String,
    pub client_secret: String,
    pub method: ClientAuthMethod,
}

/// A request to the token endpoint.
#[derive(Debug)]
pub struct TokenExchangeRequest {
    pub grant_type: String,
    pub code: String,
    pub redirect_uri: String,
    pub client_auth: Option<ClientAuthentication>,
    pub code_verifier: String,
    pub refresh_token: String,
}

/// A request to end a session.
#[derive(Debug)]
pub struct EndSessionRequest {
    pub client_id: String,
    pub id_token_hint: String,
    pub post_logout_redirect_uri: String,
    pub state: String,
}

/// The session to end and where to send the browser.
#[derive(Debug)]
pub struct EndSessionOutcome {
    pub session_id: Option<String>,
    pub redirect_uri: String,
}

/// An issued token as the token store keeps it.
#[derive(Debug)]
pub struct StoredToken {
    pub token_id: String,
    pub token_type: String,
    pub user_id: Option<String>,
    pub session_id: Option<String>,
    pub client_id: String,
    pub application_id: String,
    pub scope: String,
    pub refresh_family_id: Option<String>,
}

/// A token to store.
#[derive(Debug)]
pub struct NewStoredToken {
    pub token_id: String,
    pub token_type: String,
    pub raw_token: String,
    pub user_id: Option<String>,
    pub session_id: Option<String>,
    pub client_id: String,
    pub application_id: String,
    pub scope: String,
    pub refresh_family_id: Option<String>,
    pub auth_method: String,
    pub expires_in_secs: u64,
}

/// The bytes that standard, padded base64 text stands for, as
/// `base64::engine::general_purpose::STANDARD.decode` reads it; `None` where
/// it rejects the text.
pub uninterp spec fn base64_standard_decoded(text: Seq<char>) -> Option<Seq<u8>>;

/// `STANDARD.decode` of the base64 crate.
#[verifier::external_body]
fn base64_standard_decode(text: &str) -> (r: Option<Vec<u8>>)
    ensures
        match r {
            Some(b) => base64_standard_decoded(text@) == Some(b@),
            None => base64_standard_decoded(text@) is None,
        },
{
    base64::engine::general_purpose::STANDARD.decode(text).ok()
}

/// The URL-safe, unpadded base64 text of `data`, as
/// `base64::engine::general_purpose::URL_SAFE_NO_PAD.encode` writes it.
pub uninterp spec fn base64_url_nopad_of(data: Seq<u8>) -> Seq<char>;

/// `URL_SAFE_NO_PAD.encode` of the base64 crate.
#[verifier::external_body]
fn base64_url_nopad(data: &[u8]) -> (r: String)
    ensures
        r@ == base64_url_nopad_of(data@),
{
    base64::engine::general_purpose::URL_SAFE_NO_PAD.encode(data)
}

/// The SHA-256 digest of `data`.
pub uninterp spec fn sha256_of(data: Seq<u8>) -> Seq<u8>;

/// `Sha256::digest` of the sha2 crate: the 32-byte digest.
#[verifier::external_body]
pub(crate) fn sha256(data: &[u8]) -> (r: Vec<u8>)
    ensures
        r@ == sha256_of(data@),
        r@.len() == 32,
{
    sha2::Sha256::digest(data).to_vec()
}

/// `String::from_utf8`: the text where the bytes are valid UTF-8.
#[verifier::external_body]
fn utf8_string(bytes: Vec<u8>) -> (r: Option<String>)
    ensures
        match r {
            Some(s) => valid_utf8(bytes@) && s@ == decode_utf8(bytes@),
            None => !valid_utf8(bytes@),
        },
{
    String::from_utf8(bytes).ok()
}

/// The PKCE `S256` challenge of a verifier: the unpadded URL-safe base64 of
/// the SHA-256 digest of its UTF-8 bytes.
pub open spec fn spec_s256(verifier: Seq<char>) -> Seq<char> {
    base64_url_nopad_of(sha256_of(vstd::utf8::encode_utf8(verifier)))
}

/// The PKCE `S256` challenge of a verifier.
pub fn s256_challenge(verifier: &str) -> (r: String)
    ensures
        r@ == spec_s256(verifier@),
{
    let digest = sha256(verifier.as_bytes());
    base64_url_nopad(digest.as_slice())
}

/// Where a code grant carries a challenge, a verifier is required and must
/// match it.
pub fn verify_pkce(code_challenge: &str, code_verifier: &str) -> (r: Result<(), ProtocolError>)
    ensures
        code_challenge@.len() == 0 ==> r is Ok,
        code_challenge@.len() > 0 && code_verifier@.len() == 0 ==> (r matches Err(e) && is_protocol_error(
            e,
            400,
            "invalid_grant"@,
            "code_verifier required"@,
        )),
        code_challenge@.len() > 0 && code_verifier@.len() > 0 ==> if spec_s256(code_verifier@) == code_challenge@ {
            r is Ok
        } else {
            r matches Err(e) && is_protocol_error(e, 400, "invalid_grant"@, "PKCE verification failed"@)
        },
{
    if code_challenge.is_empty() {
        return Ok(());
    }
    if code_verifier.is_empty() {
        return Err(ProtocolError::invalid_grant("code_verifier required"));
    }
    let computed = s256_challenge(code_verifier);
    if !str_eq(computed.as_str(), code_challenge) {
        return Err(ProtocolError::invalid_grant("PKCE verification failed"));
    }
    Ok(())
}

/// The client id and secret of a `Basic` credential: split at the first
/// colon; without a colon all is the id and the secret is empty.
pub open spec fn split_credentials(text: Seq<char>) -> (Seq<char>, Seq<char>) {
    match index_of(text, ':') {
        Some(i) => (text.subrange(0, i), text.subrange(i + 1, text.len() as int)),
        None => (text, Seq::empty()),
    }
}

pub open spec fn basic_prefix() -> Seq<char> {
    "Basic "@
}

/// What client authentication a token request carries.
pub open spec fn spec_client_auth(
    header: Option<Seq<char>>,
    form_id: Seq<char>,
    form_secret: Seq<char>,
) -> Result<Option<(Seq<char>, Seq<char>, ClientAuthMethod)>, (u16, Seq<char>, Seq<char>)> {
    if header is Some && is_prefix(basic_prefix(), header.unwrap()) {
        let h = header.unwrap();
        let value = h.subrange(6, h.len() as int);
        match base64_standard_decoded(value) {
            None => Err((401, "invalid_client"@, "invalid basic authorization encoding"@)),
            Some(bytes) => if !valid_utf8(bytes) {
                Err((401, "invalid_client"@, "invalid basic authorization payload"@))
            } else {
                let (id, secret) = split_credentials(decode_utf8(bytes));
                if id.len() == 0 {
                    Err((401, "invalid_client"@, "client_id required"@))
                } else {
                    Ok(Some((id, secret, ClientAuthMethod::ClientSecretBasic)))
                }
            },
        }
    } else if form_id.len() == 0 && form_secret.len() == 0 {
        Ok(None)
    } else if form_id.len() == 0 {
        Err((401, "invalid_client"@, "client_id required"@))
    } else {
        Ok(Some((form_id, form_secret, ClientAuthMethod::ClientSecretPost)))
    }
}

/// Reads client authentication from a `Basic` authorization header, else
/// from the form's client id and secret.
pub fn resolve_client_auth(
    authorization_header: Option<&str>,
    form_client_id: &str,
    form_client_secret: &str,
) -> (r: Result<Option<ClientAuthentication>, ProtocolError>)
    ensures
        match spec_client_auth(
            match authorization_header {
                Some(h) => Some(h@),
                None => None,
            },
            form_client_id@,
            form_client_secret@,
        ) {
            Ok(None) => r matches Ok(None),
            Ok(Some((id, secret, method))) => r matches Ok(Some(a)) && a.client_id@ == id && a.client_secret@ == secret
                && a.method == method,
            Err((status, code, text)) => r matches Err(e) && is_protocol_error(e, status, code, text),
        },
{
    let prefix = "Basic ";
    proof {
        reveal_strlit("Basic ");
    }
    if let Some(header) = authorization_header {
        if str_starts_with(header, prefix) {
            let hv = chars_of(header);
            let value = string_from_range(hv.as_slice(), 6, hv.len());
            let bytes = match base64_standard_decode(value.as_str()) {
                Some(b) => b,
                None => {
                    return Err(ProtocolError::invalid_client("invalid basic authorization encoding"));
                },
            };
            let text = match utf8_string(bytes) {
                Some(t) => t,
                None => {
                    return Err(ProtocolError::invalid_client("invalid basic authorization payload"));
                },
            };
            let tv = chars_of(text.as_str());
            let (client_id, client_secret) = match find_char(tv.as_slice(), ':') {
                Some(i) => {
                    let n = tv.len();
                    (string_from_range(tv.as_slice(), 0, i), string_from_range(tv.as_slice(), i + 1, n))
                },
                None => (string_from_range(tv.as_slice(), 0, tv.len()), String::new()),
            };
            proof {
                assert(tv@.subrange(0, tv@.len() as int) =~= tv@);
            }
            if client_id.as_str().is_empty() {
                return Err(ProtocolError::invalid_client("client_id required"));
            }
            return Ok(Some(ClientAuthentication { client_id, client_secret, method: ClientAuthMethod::ClientSecretBasic }));
        }
    }
    if form_client_id.is_empty() && form_client_secret.is_empty() {
        return Ok(None);
    }
    if form_client_id.is_empty() {
        return Err(ProtocolError::invalid_client("client_id required"));
    }
    Ok(
        Some(
            ClientAuthentication {
                client_id: str_to_string(form_client_id),
                client_secret: str_to_string(form_client_secret),
                method: ClientAuthMethod::ClientSecretPost,
            },
        ),
    )
}

/// The grant a token request asks for.
#[derive(Clone, Copy, Debug, PartialEq, Eq, Structural)]
pub enum GrantKind {
    AuthorizationCode,
    ClientCredentials,
    RefreshToken,
}

/// Which grant `grant_type` names; any other is unsupported.
pub fn grant_kind(grant_type: &str) -> (r: Result<GrantKind, ProtocolError>)
    ensures
        grant_type@ == "authorization_code"@ ==> r == Ok::<GrantKind, ProtocolError>(GrantKind::AuthorizationCode),
        grant_type@ != "authorization_code"@ && grant_type@ == "client_credentials"@ ==> r == Ok::<
            GrantKind,
            ProtocolError,
        >(GrantKind::ClientCredentials),
        grant_type@ != "authorization_code"@ && grant_type@ != "client_credentials"@ && grant_type@
            == "refresh_token"@ ==> r == Ok::<GrantKind, ProtocolError>(GrantKind::RefreshToken),
        grant_type@ != "authorization_code"@ && grant_type@ != "client_credentials"@ && grant_type@
            != "refresh_token"@ ==> (r matches Err(e) && is_protocol_error(
            e,
            400,
            "unsupported_grant_type"@,
            "unsupported grant_type"@,
        )),
{
    if str_eq(grant_type, "authorization_code") {
        Ok(GrantKind::AuthorizationCode)
    } else if str_eq(grant_type, "client_credentials") {
        Ok(GrantKind::ClientCredentials)
    } else if str_eq(grant_type, "refresh_token") {
        Ok(GrantKind::RefreshToken)
    } else {
        Err(ProtocolError::unsupported_grant_type("unsupported grant_type"))
    }
}

/// A client without a secret authenticates by presenting none; for a client
/// with a secret the secret store decides (`None`).
pub fn local_client_authentication(client_secret: &str, presented_secret: &str) -> (r: Option<bool>)
    ensures
        client_secret@.len() == 0 ==> r == Some(presented_secret@.len() == 0),
        client_secret@.len() > 0 ==> r is None,
{
    if client_secret.is_empty() {
        Some(presented_secret.is_empty())
    } else {
        None
    }
}

/// Checks that an authenticated client may use `grant`; the code grant
/// checks authentication first, the other grants the grant type first.
pub fn check_client_grant(client: &ClientMetadata, authenticated: bool, grant: GrantKind) -> (r: Result<
    (),
    ProtocolError,
>)
    ensures
        ({
            let name = match grant {
                GrantKind::AuthorizationCode => "authorization_code"@,
                GrantKind::ClientCredentials => "client_credentials"@,
                GrantKind::RefreshToken => "refresh_token"@,
            };
            let text = match grant {
                GrantKind::AuthorizationCode => "client is not allowed to use authorization_code"@,
                GrantKind::ClientCredentials => "client is not allowed to use client_credentials"@,
                GrantKind::RefreshToken => "client is not allowed to use refresh_token"@,
            };
            let allowed = registered(client.grant_types@, name);
            if grant == GrantKind::AuthorizationCode {
                if !authenticated {
                    r matches Err(e) && is_protocol_error(e, 401, "invalid_client"@, "invalid client credentials"@)
                } else if !allowed {
                    r matches Err(e) && is_protocol_error(e, 400, "unauthorized_client"@, text)
                } else {
                    r is Ok
                }
            } else {
                if !allowed {
                    r matches Err(e) && is_protocol_error(e, 400, "unauthorized_client"@, text)
                } else if !authenticated {
                    r matches Err(e) && is_protocol_error(e, 401, "invalid_client"@, "invalid client credentials"@)
                } else {
                    r is Ok
                }
            }
        }),
{
    let (name, text) = match grant {
        GrantKind::AuthorizationCode => ("authorization_code", "client is not allowed to use authorization_code"),
        GrantKind::ClientCredentials => ("client_credentials", "client is not allowed to use client_credentials"),
        GrantKind::RefreshToken => ("refresh_token", "client is not allowed to use refresh_token"),
    };
    let allowed = is_registered(&client.grant_types, name);
    if grant == GrantKind::AuthorizationCode {
        if !authenticated {
            return Err(ProtocolError::invalid_client("invalid client credentials"));
        }
        if !allowed {
            return Err(ProtocolError::unauthorized_client(text));
        }
    } else {
        if !allowed {
            return Err(ProtocolError::unauthorized_client(text));
        }
        if !authenticated {
            return Err(ProtocolError::invalid_client("invalid client credentials"));
        }
    }
    Ok(())
}

/// Checks a redeemed authorization code: it exists, belongs to the client,
/// matches the redirect address given (if any), that address is still
/// registered, and PKCE holds.
pub fn check_consumed_code(
    client: &ClientMetadata,
    client_id: &str,
    granted: Option<ConsumedAuthRequest>,
    redirect_uri: &str,
    code_verifier: &str,
) -> (r: Result<ConsumedAuthRequest, ProtocolError>)
    ensures
        match granted {
            None => r matches Err(e) && is_protocol_error(e, 400, "invalid_grant"@, "authorization code not found"@),
            Some(g) => if g.client_id@ != client_id@ {
                r matches Err(e) && is_protocol_error(e, 400, "invalid_grant"@, "authorization code client mismatch"@)
            } else if redirect_uri@.len() > 0 && redirect_uri@ != g.redirect_uri@ {
                r matches Err(e) && is_protocol_error(e, 400, "invalid_grant"@, "redirect_uri mismatch"@)
            } else if !registered(client.redirect_uris@, g.redirect_uri@) {
                r matches Err(e) && is_protocol_error(e, 400, "invalid_grant"@, "redirect_uri is not registered"@)
            } else if g.code_challenge@.len() > 0 && code_verifier@.len() == 0 {
                r matches Err(e) && is_protocol_error(e, 400, "invalid_grant"@, "code_verifier required"@)
            } else if g.code_challenge@.len() > 0 && spec_s256(code_verifier@) != g.code_challenge@ {
                r matches Err(e) && is_protocol_error(e, 400, "invalid_grant"@, "PKCE verification failed"@)
            } else {
                r == Ok::<ConsumedAuthRequest, ProtocolError>(g)
            },
        },
{
    let g = match granted {
        Some(g) => g,
        None => {
            return Err(ProtocolError::invalid_grant("authorization code not found"));
        },
    };
    if !str_eq(g.client_id.as_str(), client_id) {
        return Err(ProtocolError::invalid_grant("authorization code client mismatch"));
    }
    if !redirect_uri.is_empty() && !str_eq(redirect_uri, g.redirect_uri.as_str()) {
        return Err(ProtocolError::invalid_grant("redirect_uri mismatch"));
    }
    if !is_registered(&client.redirect_uris, g.redirect_uri.as_str()) {
        return Err(ProtocolError::invalid_grant("redirect_uri is not registered"));
    }
    match verify_pkce(g.code_challenge.as_str(), code_verifier) {
        Ok(()) => {},
        Err(e) => {
            return Err(e);
        },
    }
    Ok(g)
}

/// A refresh token is issued with a code where the client may use refresh
/// tokens and the scope asks for offline access.
pub fn issues_refresh_token(client: &ClientMetadata, scope: &str) -> (r: bool)
    ensures
        r == (registered(client.grant_types@, "refresh_token"@) && spec_scope_contains(scope@, "offline_access"@)),
{
    is_registered(&client.grant_types, "refresh_token") && scope_contains(scope, "offline_access")
}

/// The answer of the token endpoint: a bearer token living as long as access
/// tokens live.
pub fn token_response(
    access_token: String,
    lifetimes: &TokenLifetimes,
    id_token: Option<String>,
    refresh_token: Option<String>,
    scope: String,
) -> (r: TokenResponse)
    ensures
        r.access_token == access_token,
        r.token_type@ == "Bearer"@,
        r.expires_in == lifetimes.access_token_secs,
        r.id_token == id_token,
        r.refresh_token == refresh_token,
        r.scope == scope,
{
    TokenResponse {
        access_token,
        token_type: str_to_string("Bearer"),
        expires_in: lifetimes.access_token_secs,
        id_token,
        refresh_token,
        scope,
    }
}

/// What revoking a token does.
#[derive(Debug)]
pub enum RevokeAction {
    Nothing,
    RevokeRefreshFamily { family_id: String },
    RevokeToken { token_id: String },
}

/// Checks a revocation request: the client authenticated, exists, proved its
/// credentials, and named a token.
pub fn check_revoke(
    client_auth_present: bool,
    client_found: bool,
    authenticated: bool,
    token: &str,
) -> (r: Result<(), ProtocolError>)
    ensures
        !client_auth_present ==> (r matches Err(e) && is_protocol_error(
            e,
            401,
            "invalid_client"@,
            "client authentication required"@,
        )),
        client_auth_present && !client_found ==> (r matches Err(e) && is_protocol_error(
            e,
            401,
            "invalid_client"@,
            "unknown client_id"@,
        )),
        client_auth_present && client_found && !authenticated ==> (r matches Err(e) && is_protocol_error(
            e,
            401,
            "invalid_client"@,
            "invalid client credentials"@,
        )),
        client_auth_present && client_found && authenticated && token@.len() == 0 ==> (r matches Err(e)
            && is_protocol_error(e, 400, "invalid_request"@, "token required"@)),
        client_auth_present && client_found && authenticated && token@.len() > 0 ==> r is Ok,
{
    if !client_auth_present {
        return Err(ProtocolError::invalid_client("client authentication required"));
    }
    if !client_found {
        return Err(ProtocolError::invalid_client("unknown client_id"));
    }
    if !authenticated {
        return Err(ProtocolError::invalid_client("invalid client credentials"));
    }
    if token.is_empty() {
        return Err(ProtocolError::invalid_request("token required"));
    }
    Ok(())
}

/// What to revoke for a stored token: nothing for an unknown token or
/// another client's; a refresh token's whole family (its own id where it has
/// none); an access token alone; nothing for other kinds.
pub fn revoke_action(stored: Option<&StoredToken>, client_id: &str) -> (r: RevokeAction)
    ensures
        match stored {
            None => r is Nothing,
            Some(t) => if t.client_id@ != client_id@ {
                r is Nothing
            } else if t.token_type@ == "oidc_refresh"@ {
                r matches RevokeAction::RevokeRefreshFamily { family_id } && family_id@ == match t.refresh_family_id {
                    Some(f) => f@,
                    None => t.token_id@,
                }
            } else if t.token_type@ == "oidc_access"@ {
                r matches RevokeAction::RevokeToken { token_id } && token_id@ == t.token_id@
            } else {
                r is Nothing
            },
        },
{
    let t = match stored {
        Some(t) => t,
        None => {
            return RevokeAction::Nothing;
        },
    };
    if !str_eq(t.client_id.as_str(), client_id) {
        return RevokeAction::Nothing;
    }
    if str_eq(t.token_type.as_str(), "oidc_refresh") {
        let family_id = match &t.refresh_family_id {
            Some(f) => copy_string(f),
            None => copy_string(&t.token_id),
        };
        return RevokeAction::RevokeRefreshFamily { family_id };
    }
    if str_eq(t.token_type.as_str(), "oidc_access") {
        return RevokeAction::RevokeToken { token_id: copy_string(&t.token_id) };
    }
    RevokeAction::Nothing
}

/// `base` with the query pair `key=value` appended by the url crate, or
/// `None` where the crate cannot parse `base`.
pub uninterp spec fn url_with_pair(base: Seq<char>, key: Seq<char>, value: Seq<char>) -> Option<Seq<char>>;

/// `Url::parse`, then `query_pairs_mut().append_pair`, of the url crate.
#[verifier::external_body]
fn url_append_pair(base: &str, key: &str, value: &str) -> (r: Option<String>)
    ensures
        match r {
            Some(s) => url_with_pair(base@, key@, value@) == Some(s@),
            None => url_with_pair(base@, key@, value@) is None,
        },
{
    match url::Url::parse(base) {
        Ok(mut u) => {
            u.query_pairs_mut().append_pair(key, value);
            Some(u.to_string())
        },
        Err(_) => None,
    }
}

/// `base` with `key=value` added to its query: nothing for an empty value;
/// through the url crate where it parses `base`; else appended as it is
/// after `?` or `&`.
pub open spec fn spec_append_query_param(base: Seq<char>, key: Seq<char>, value: Seq<char>) -> Seq<char> {
    if value.len() == 0 {
        base
    } else {
        match url_with_pair(base, key, value) {
            Some(u) => u,
            None => base + (if has_char(base, '?') {
                seq!['&']
            } else {
                seq!['?']
            }) + key + seq!['='] + value,
        }
    }
}

/// Adds `key=value` to the query of `base`.
pub fn append_query_param(base: &str, key: &str, value: &str) -> (r: String)
    ensures
        r@ == spec_append_query_param(base@, key@, value@),
{
    if value.is_empty() {
        return str_to_string(base);
    }
    if let Some(u) = url_append_pair(base, key, value) {
        return u;
    }
    let bv = chars_of(base);
    let sep = if contains_char(bv.as_slice(), '?') {
        "&"
    } else {
        "?"
    };
    proof {
        reveal_strlit("&");
        reveal_strlit("?");
        reveal_strlit("=");
        assert("&"@ =~= seq!['&']);
        assert("?"@ =~= seq!['?']);
        assert("="@ =~= seq!['=']);
    }
    concat5(base, sep, key, "=", value)
}

/// The client and session a logout is for: the client id given, replaced by
/// the audience and session of a verified ID token hint where there is one.
pub fn end_session_target(
    request_client_id: &str,
    hint: Option<(&str, Option<&str>)>,
    current_session_id: Option<&str>,
) -> (r: (Option<String>, Option<String>))
    ensures
        match hint {
            Some((aud, sid)) => opt_seq(r.0) == Some(aud@) && opt_seq(r.1) == match sid {
                Some(s) => Some(s@),
                None => None,
            },
            None => opt_seq(r.0) == (if request_client_id@.len() == 0 {
                None
            } else {
                Some(request_client_id@)
            }) && opt_seq(r.1) == match current_session_id {
                Some(s) => Some(s@),
                None => None,
            },
        },
{
    match hint {
        Some((aud, sid)) => (
            Some(str_to_string(aud)),
            match sid {
                Some(s) => Some(str_to_string(s)),
                None => None,
            },
        ),
        None => (
            if request_client_id.is_empty() {
                None
            } else {
                Some(str_to_string(request_client_id))
            },
            match current_session_id {
                Some(s) => Some(str_to_string(s)),
                None => None,
            },
        ),
    }
}

/// Where a logout sends the browser: the login page without a requested
/// address; else the requested address, which needs a known client that
/// registered it, with the state added.
pub fn end_session_redirect(
    request: &EndSessionRequest,
    client_id: Option<&str>,
    client: Option<&ClientMetadata>,
) -> (r: Result<String, ProtocolError>)
    ensures
        request.post_logout_redirect_uri@.len() == 0 ==> (r matches Ok(s) && s@ == "/login?logged_out=1"@),
        request.post_logout_redirect_uri@.len() > 0 ==> match client_id {
            None => r matches Err(e) && is_protocol_error(e, 400, "invalid_request"@, "client_id required"@),
            Some(_) => match client {
                None => r matches Err(e) && is_protocol_error(e, 401, "invalid_client"@, "unknown client_id"@),
                Some(c) => if !registered(c.post_logout_redirect_uris@, request.post_logout_redirect_uri@) {
                    r matches Err(e) && is_protocol_error(
                        e,
                        400,
                        "invalid_request"@,
                        "post_logout_redirect_uri is not registered"@,
                    )
                } else {
                    r matches Ok(s) && s@ == spec_append_query_param(
                        request.post_logout_redirect_uri@,
                        "state"@,
                        request.state@,
                    )
                },
            },
        },
{
    if request.post_logout_redirect_uri.as_str().is_empty() {
        return Ok(str_to_string("/login?logged_out=1"));
    }
    if client_id.is_none() {
        return Err(ProtocolError::invalid_request("client_id required"));
    }
    let c = match client {
        Some(c) => c,
        None => {
            return Err(ProtocolError::invalid_client("unknown client_id"));
        },
    };
    if !is_registered(&c.post_logout_redirect_uris, request.post_logout_redirect_uri.as_str()) {
        return Err(ProtocolError::invalid_request("post_logout_redirect_uri is not registered"));
    }
    Ok(append_query_param(request.post_logout_redirect_uri.as_str(), "state", request.state.as_str()))
}

} // verus!
