//! The tokens the provider issues: their claims, the records the token store
//! keeps of them, and the checks that redeeming and presenting them pass.

use vstd::prelude::*;

use crate::oidc::{
    is_protocol_error, scope_contains, spec_scope_contains, AccessTokenClaims, ClientMetadata, IdTokenClaims,
    ProtocolError, RefreshTokenClaims, UserClaims, UserInfoResponse,
};
use crate::oidc::ConsumedAuthRequest;
use crate::oidc_authorize::registered;
use crate::oidc_op::{
    ClientAuthentication, GrantKind, NewStoredToken, StoredToken, TokenLifetimes, check_client_grant, check_consumed_code,
    issues_refresh_token, spec_s256,
};
use crate::text::{copy_string, str_eq, str_to_string};

verus! {

pub open spec fn opt_view(o: Option<String>) -> Option<Seq<char>> {
    match o {
        Some(s) => Some(s@),
        None => None,
    }
}

pub open spec fn opt_str_view(o: Option<&str>) -> Option<Seq<char>> {
    match o {
        Some(s) => Some(s@),
        None => None,
    }
}

fn opt_copy(o: Option<&str>) -> (r: Option<String>)
    ensures
        opt_view(r) == opt_str_view(o),
{
    match o {
        Some(s) => Some(str_to_string(s)),
        None => None,
    }
}

fn opt_clone(o: &Option<String>) -> (r: Option<String>)
    ensures
        opt_view(r) == opt_view(*o),
{
    match o {
        Some(s) => Some(copy_string(s)),
        None => None,
    }
}

/// The session a token is bound to: none for an empty session id.
pub fn session_of(session_id: &str) -> (r: Option<String>)
    ensures
        opt_view(r) == if session_id@.len() == 0 {
            None
        } else {
            Some(session_id@)
        },
{
    if session_id.is_empty() {
        None
    } else {
        Some(str_to_string(session_id))
    }
}

/// The claims of an ID token for `user`, issued at `now` with id `jti`,
/// living `lifetime` seconds.
pub fn id_token_claims(
    issuer: &str,
    user: &UserClaims,
    client_id: &str,
    nonce: &str,
    auth_time: Option<u64>,
    sid: Option<&str>,
    now: u64,
    jti: String,
    lifetime: u64,
) -> (r: IdTokenClaims)
    requires
        now + lifetime <= u64::MAX,
    ensures
        r.iss@ == issuer@,
        r.sub@ == user.subject@,
        r.aud@ == client_id@,
        r.exp == now + lifetime,
        r.iat == now,
        r.jti == jti,
        r.auth_time == auth_time,
        opt_view(r.sid) == opt_str_view(sid),
        r.nonce@ == nonce@,
        r.name@ == user.name@,
        r.email@ == user.email@,
{
    IdTokenClaims {
        iss: str_to_string(issuer),
        sub: copy_string(&user.subject),
        aud: str_to_string(client_id),
        exp: now + lifetime,
        iat: now,
        jti,
        auth_time,
        sid: opt_copy(sid),
        nonce: str_to_string(nonce),
        name: copy_string(&user.name),
        email: copy_string(&user.email),
    }
}

/// The claims of an access token for `subject` and client `client_id`.
pub fn access_token_claims(
    issuer: &str,
    subject: &str,
    client_id: &str,
    scope: &str,
    sid: Option<&str>,
    now: u64,
    jti: String,
    lifetime: u64,
) -> (r: AccessTokenClaims)
    requires
        now + lifetime <= u64::MAX,
    ensures
        r.iss@ == issuer@,
        r.sub@ == subject@,
        r.aud@ == client_id@,
        r.exp == now + lifetime,
        r.iat == now,
        r.jti == jti,
        opt_view(r.sid) == opt_str_view(sid),
        r.scope@ == scope@,
        r.client_id@ == client_id@,
{
    AccessTokenClaims {
        iss: str_to_string(issuer),
        sub: str_to_string(subject),
        aud: str_to_string(client_id),
        exp: now + lifetime,
        iat: now,
        jti,
        sid: opt_copy(sid),
        scope: str_to_string(scope),
        client_id: str_to_string(client_id),
    }
}

/// The claims of a refresh token for `subject` and client `client_id`.
pub fn refresh_token_claims(
    issuer: &str,
    subject: &str,
    client_id: &str,
    scope: &str,
    sid: Option<&str>,
    now: u64,
    jti: String,
    lifetime: u64,
) -> (r: RefreshTokenClaims)
    requires
        now + lifetime <= u64::MAX,
    ensures
        r.iss@ == issuer@,
        r.sub@ == subject@,
        r.aud@ == client_id@,
        r.exp == now + lifetime,
        r.iat == now,
        r.jti == jti,
        opt_view(r.sid) == opt_str_view(sid),
        r.scope@ == scope@,
        r.client_id@ == client_id@,
{
    RefreshTokenClaims {
        iss: str_to_string(issuer),
        sub: str_to_string(subject),
        aud: str_to_string(client_id),
        exp: now + lifetime,
        iat: now,
        jti,
        sid: opt_copy(sid),
        scope: str_to_string(scope),
        client_id: str_to_string(client_id),
    }
}

/// The record of an issued token: an `oidc_access` token lives as long as
/// access tokens live, an `oidc_refresh` token as long as refresh tokens.
pub fn token_record(
    refresh: bool,
    token_id: &str,
    raw_token: &str,
    user_id: Option<&str>,
    session_id: &Option<String>,
    client_id: &str,
    application_id: &str,
    scope: &str,
    refresh_family_id: &Option<String>,
    auth_method: &str,
    lifetimes: &TokenLifetimes,
) -> (r: NewStoredToken)
    ensures
        r.token_id@ == token_id@,
        r.token_type@ == if refresh {
            "oidc_refresh"@
        } else {
            "oidc_access"@
        },
        r.raw_token@ == raw_token@,
        opt_view(r.user_id) == opt_str_view(user_id),
        opt_view(r.session_id) == opt_view(*session_id),
        r.client_id@ == client_id@,
        r.application_id@ == application_id@,
        r.scope@ == scope@,
        opt_view(r.refresh_family_id) == opt_view(*refresh_family_id),
        r.auth_method@ == auth_method@,
        r.expires_in_secs == if refresh {
            lifetimes.refresh_token_secs
        } else {
            lifetimes.access_token_secs
        },
{
    NewStoredToken {
        token_id: str_to_string(token_id),
        token_type: if refresh {
            str_to_string("oidc_refresh")
        } else {
            str_to_string("oidc_access")
        },
        raw_token: str_to_string(raw_token),
        user_id: opt_copy(user_id),
        session_id: opt_clone(session_id),
        client_id: str_to_string(client_id),
        application_id: str_to_string(application_id),
        scope: str_to_string(scope),
        refresh_family_id: opt_clone(refresh_family_id),
        auth_method: str_to_string(auth_method),
        expires_in_secs: if refresh {
            lifetimes.refresh_token_secs
        } else {
            lifetimes.access_token_secs
        },
    }
}

/// The family a stored refresh token belongs to: its recorded family, or
/// the token itself where none is recorded.
pub open spec fn spec_refresh_family(t: StoredToken) -> Seq<char> {
    match t.refresh_family_id {
        Some(f) => f@,
        None => t.token_id@,
    }
}

/// The family of a stored refresh token.
pub fn refresh_family(stored: &StoredToken) -> (r: String)
    ensures
        r@ == spec_refresh_family(*stored),
{
    match &stored.refresh_family_id {
        Some(f) => copy_string(f),
        None => copy_string(&stored.token_id),
    }
}

/// The client credentials a grant needs: the code grant asks for a client
/// id, the others for client authentication.
pub fn require_client_auth(auth: Option<&ClientAuthentication>, grant: GrantKind) -> (r: Result<
    &ClientAuthentication,
    ProtocolError,
>)
    ensures
        match auth {
            Some(a) => r == Ok::<&ClientAuthentication, ProtocolError>(a),
            None => r matches Err(e) && is_protocol_error(
                e,
                401,
                "invalid_client"@,
                if grant == GrantKind::AuthorizationCode {
                    "client_id required"@
                } else {
                    "client authentication required"@
                },
            ),
        },
{
    match auth {
        Some(a) => Ok(a),
        None => if grant == GrantKind::AuthorizationCode {
            Err(ProtocolError::invalid_client("client_id required"))
        } else {
            Err(ProtocolError::invalid_client("client authentication required"))
        },
    }
}

/// The client a token request names; an unknown client is refused.
pub fn require_client(client: Option<ClientMetadata>) -> (r: Result<ClientMetadata, ProtocolError>)
    ensures
        match client {
            Some(c) => r == Ok::<ClientMetadata, ProtocolError>(c),
            None => r matches Err(e) && is_protocol_error(e, 401, "invalid_client"@, "unknown client_id"@),
        },
{
    match client {
        Some(c) => Ok(c),
        None => Err(ProtocolError::invalid_client("unknown client_id")),
    }
}

/// The user a token is for; an unknown subject is refused.
pub fn require_subject(user: Option<UserClaims>) -> (r: Result<UserClaims, ProtocolError>)
    ensures
        match user {
            Some(u) => r == Ok::<UserClaims, ProtocolError>(u),
            None => r matches Err(e) && is_protocol_error(e, 400, "invalid_grant"@, "subject not found"@),
        },
{
    match user {
        Some(u) => Ok(u),
        None => Err(ProtocolError::invalid_grant("subject not found")),
    }
}

/// Which presented token is checked.
#[derive(Clone, Copy, Debug, PartialEq, Eq, Structural)]
pub enum PresentedToken {
    AccessToken,
    RefreshToken,
    IdTokenHint,
}

/// A token must be presented before it is decoded.
pub fn require_presented(token: &str, kind: PresentedToken) -> (r: Result<(), ProtocolError>)
    ensures
        token@.len() > 0 ==> r is Ok,
        token@.len() == 0 ==> (r matches Err(e) && is_protocol_error(
            e,
            400,
            "invalid_request"@,
            match kind {
                PresentedToken::AccessToken => "Bearer token required"@,
                PresentedToken::RefreshToken => "refresh_token required"@,
                PresentedToken::IdTokenHint => "id_token_hint required"@,
            },
        )),
{
    if !token.is_empty() {
        return Ok(());
    }
    match kind {
        PresentedToken::AccessToken => Err(ProtocolError::invalid_request("Bearer token required")),
        PresentedToken::RefreshToken => Err(ProtocolError::invalid_request("refresh_token required")),
        PresentedToken::IdTokenHint => Err(ProtocolError::invalid_request("id_token_hint required")),
    }
}

/// Where the token store is authoritative, a presented token must be an
/// active record of the expected kind and id.
pub fn check_stored_token(
    enforces_storage: bool,
    stored: Option<&StoredToken>,
    expected_type: &str,
    expected_token_id: &str,
) -> (r: Result<(), ProtocolError>)
    ensures
        !enforces_storage ==> r is Ok,
        enforces_storage ==> match stored {
            None => r matches Err(e) && is_protocol_error(e, 400, "invalid_grant"@, "invalid token"@),
            Some(t) => if t.token_type@ != expected_type@ || t.token_id@ != expected_token_id@ {
                r matches Err(e) && is_protocol_error(e, 400, "invalid_grant"@, "invalid token"@)
            } else {
                r is Ok
            },
        },
{
    if !enforces_storage {
        return Ok(());
    }
    match stored {
        None => Err(ProtocolError::invalid_grant("invalid token")),
        Some(t) => if !str_eq(t.token_type.as_str(), expected_type) || !str_eq(t.token_id.as_str(), expected_token_id) {
            Err(ProtocolError::invalid_grant("invalid token"))
        } else {
            Ok(())
        },
    }
}

/// Checks a redeemed refresh token: its record is active and it was issued
/// to the client that redeems it.
pub fn check_refresh_redemption(stored: Option<StoredToken>, token_client_id: &str, client_id: &str) -> (r: Result<
    StoredToken,
    ProtocolError,
>)
    ensures
        match stored {
            None => r matches Err(e) && is_protocol_error(e, 400, "invalid_grant"@, "refresh token not found"@),
            Some(t) => if token_client_id@ != client_id@ {
                r matches Err(e) && is_protocol_error(e, 400, "invalid_grant"@, "refresh token client mismatch"@)
            } else {
                r == Ok::<StoredToken, ProtocolError>(t)
            },
        },
{
    let t = match stored {
        Some(t) => t,
        None => {
            return Err(ProtocolError::invalid_grant("refresh token not found"));
        },
    };
    if !str_eq(token_client_id, client_id) {
        return Err(ProtocolError::invalid_grant("refresh token client mismatch"));
    }
    Ok(t)
}

/// A refresh is answered with a new refresh token where the scope keeps
/// offline access.
pub fn reissues_refresh_token(scope: &str) -> (r: bool)
    ensures
        r == spec_scope_contains(scope@, "offline_access"@),
{
    scope_contains(scope, "offline_access")
}

/// The first problem of a redeemed authorization code, as
/// `check_consumed_code` reports it.
pub open spec fn code_problem(
    client: ClientMetadata,
    client_id: Seq<char>,
    g: ConsumedAuthRequest,
    redirect_uri: Seq<char>,
    code_verifier: Seq<char>,
) -> Option<(u16, Seq<char>, Seq<char>)> {
    if g.client_id@ != client_id {
        Some((400, "invalid_grant"@, "authorization code client mismatch"@))
    } else if redirect_uri.len() > 0 && redirect_uri != g.redirect_uri@ {
        Some((400, "invalid_grant"@, "redirect_uri mismatch"@))
    } else if !registered(client.redirect_uris@, g.redirect_uri@) {
        Some((400, "invalid_grant"@, "redirect_uri is not registered"@))
    } else if g.code_challenge@.len() > 0 && code_verifier.len() == 0 {
        Some((400, "invalid_grant"@, "code_verifier required"@))
    } else if g.code_challenge@.len() > 0 && spec_s256(code_verifier) != g.code_challenge@ {
        Some((400, "invalid_grant"@, "PKCE verification failed"@))
    } else {
        None
    }
}

/// What a code exchange issues once the code is redeemed: an ID token and
/// an access token for the request the code was issued for (its user,
/// scope, nonce and `auth_time`), bound to `session_id`, and a refresh token
/// where `issue_refresh`; a new refresh token starts its own family.
#[derive(Debug)]
pub struct CodeExchangePlan {
    pub granted: ConsumedAuthRequest,
    pub session_id: Option<String>,
    pub issue_refresh: bool,
}

/// The decisions of the code grant, in order: the client must have
/// authenticated, may use the code grant, and the redeemed code must pass
/// `check_consumed_code`; then the tokens to issue.
pub fn plan_code_exchange(
    client: &ClientMetadata,
    client_id: &str,
    authenticated: bool,
    granted: Option<ConsumedAuthRequest>,
    redirect_uri: &str,
    code_verifier: &str,
) -> (r: Result<CodeExchangePlan, ProtocolError>)
    ensures
        !authenticated ==> (r matches Err(e) && is_protocol_error(e, 401, "invalid_client"@, "invalid client credentials"@)),
        authenticated && !registered(client.grant_types@, "authorization_code"@) ==> (r matches Err(e)
            && is_protocol_error(e, 400, "unauthorized_client"@, "client is not allowed to use authorization_code"@)),
        authenticated && registered(client.grant_types@, "authorization_code"@) ==> match granted {
            None => r matches Err(e) && is_protocol_error(e, 400, "invalid_grant"@, "authorization code not found"@),
            Some(g) => match code_problem(*client, client_id@, g, redirect_uri@, code_verifier@) {
                Some((status, code, text)) => r matches Err(e) && is_protocol_error(e, status, code, text),
                None => r matches Ok(p) && p.granted == g && opt_view(p.session_id) == (if g.session_id@.len() == 0 {
                    None
                } else {
                    Some(g.session_id@)
                }) && p.issue_refresh == (registered(client.grant_types@, "refresh_token"@) && spec_scope_contains(
                    g.scope@,
                    "offline_access"@,
                )),
            },
        },
{
    check_client_grant(client, authenticated, GrantKind::AuthorizationCode)?;
    let g = check_consumed_code(client, client_id, granted, redirect_uri, code_verifier)?;
    let session_id = session_of(g.session_id.as_str());
    let issue_refresh = issues_refresh_token(client, g.scope.as_str());
    Ok(CodeExchangePlan { granted: g, session_id, issue_refresh })
}

/// What a refresh exchange issues: an access token (and no ID token) with
/// the scope of the redeemed token, in its family and session; a new refresh
/// token where the scope keeps offline access; and the redeemed token
/// revoked.
#[derive(Debug)]
pub struct RefreshExchangePlan {
    pub family: String,
    pub session_id: Option<String>,
    pub scope: String,
    pub rotate: bool,
    pub issue_id_token: bool,
    pub revoke_token_id: String,
}

/// The decisions of the refresh grant, in order: the client may use refresh
/// tokens, has authenticated, and the redeemed token is active and was
/// issued to it; then what is issued.
pub fn plan_refresh_exchange(
    client: &ClientMetadata,
    authenticated: bool,
    stored: Option<StoredToken>,
    token_client_id: &str,
    token_scope: &str,
    client_id: &str,
) -> (r: Result<RefreshExchangePlan, ProtocolError>)
    ensures
        !registered(client.grant_types@, "refresh_token"@) ==> (r matches Err(e) && is_protocol_error(
            e,
            400,
            "unauthorized_client"@,
            "client is not allowed to use refresh_token"@,
        )),
        registered(client.grant_types@, "refresh_token"@) && !authenticated ==> (r matches Err(e) && is_protocol_error(
            e,
            401,
            "invalid_client"@,
            "invalid client credentials"@,
        )),
        registered(client.grant_types@, "refresh_token"@) && authenticated ==> match stored {
            None => r matches Err(e) && is_protocol_error(e, 400, "invalid_grant"@, "refresh token not found"@),
            Some(t) => if token_client_id@ != client_id@ {
                r matches Err(e) && is_protocol_error(e, 400, "invalid_grant"@, "refresh token client mismatch"@)
            } else {
                r matches Ok(p) && p.family@ == spec_refresh_family(t) && opt_view(p.session_id) == opt_view(
                    t.session_id,
                ) && p.scope@ == token_scope@ && p.rotate == spec_scope_contains(token_scope@, "offline_access"@)
                    && !p.issue_id_token && p.revoke_token_id@ == t.token_id@
            },
        },
{
    check_client_grant(client, authenticated, GrantKind::RefreshToken)?;
    let t = check_refresh_redemption(stored, token_client_id, client_id)?;
    let family = refresh_family(&t);
    Ok(RefreshExchangePlan {
        family,
        session_id: opt_clone(&t.session_id),
        scope: str_to_string(token_scope),
        rotate: reissues_refresh_token(token_scope),
        issue_id_token: false,
        revoke_token_id: copy_string(&t.token_id),
    })
}

/// The user info of a user.
pub fn userinfo_response(claims: UserClaims) -> (r: UserInfoResponse)
    ensures
        r.sub == claims.subject,
        r.name == claims.name,
        r.email == claims.email,
        r.email_verified == claims.email_verified,
{
    UserInfoResponse { sub: claims.subject, name: claims.name, email: claims.email, email_verified: claims.email_verified }
}

} // verus!
