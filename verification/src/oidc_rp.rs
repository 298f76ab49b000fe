//! Signing in through an upstream OpenID provider: the request that starts
//! it, the checks on the callback, and the identity read from the claims.

use vstd::prelude::*;

use crate::json::{get, get_str, member, spec_get, spec_get_str, JsonMember, JsonValue};
use crate::oidc::{JsonWebKey, JsonWebKeySet, OpenIdConfiguration};
use crate::oidc_authorize::pair_views;
use crate::oidc_op::{s256_challenge, spec_s256, trim_trailing_slashes, trim_end_slashes};
use crate::text::{concat2, copy_string, str_eq, str_to_string};

verus! {

/// An upstream provider as the relying party uses it.
#[derive(Debug)]
pub struct RpProviderSpec {
    pub provider_id: String,
    pub issuer: String,
    pub client_id: String,
    pub client_secret: String,
    pub scopes: Vec<String>,
    pub token_endpoint_auth_method: String,
}

/// What a started sign-in remembers until the provider calls back.
#[derive(Debug)]
pub struct RpAuthState {
    pub provider_id: String,
    pub state: String,
    pub nonce: String,
    pub pkce_verifier: String,
    pub flow_id: String,
    pub redirect_uri: String,
    pub expected_issuer: String,
    pub callback_uri: String,
}

/// A request to start signing in at a provider.
#[derive(Debug)]
pub struct RpStartRequest {
    pub provider: RpProviderSpec,
    pub flow_id: String,
    pub redirect_uri: String,
    pub callback_uri: String,
}

/// Where to send the browser, and what to remember.
#[derive(Debug)]
pub struct RpStartResult {
    pub authorization_url: String,
    pub state: RpAuthState,
}

/// The provider's call back, with the state remembered for it.
#[derive(Debug)]
pub struct RpCallbackRequest {
    pub provider: RpProviderSpec,
    pub stored_state: RpAuthState,
    pub returned_state: String,
    pub code: String,
}

/// The identity an upstream provider vouched for.
#[derive(Debug)]
pub struct VerifiedExternalIdentity {
    pub issuer: String,
    pub subject: String,
    pub email: String,
    pub email_verified: bool,
    pub claims: JsonValue,
    pub id_token: Option<String>,
    pub access_token: String,
}

/// What the relying party knows of an issuer: its discovery document and
/// its signing keys.
#[derive(Debug)]
pub struct CachedIssuerMetadata {
    pub config: OpenIdConfiguration,
    pub jwks: JsonWebKeySet,
}

/// The relying party, with the HTTP client and metadata cache it works with.
pub struct RpService<H, C> {
    pub http: H,
    pub cache: C,
}

impl<H, C> RpService<H, C> {
    /// A relying party over `http` and `cache`.
    pub fn new(http: H, cache: C) -> (r: RpService<H, C>)
        ensures
            r.http == http,
            r.cache == cache,
    {
        RpService { http, cache }
    }
}

/// The scopes asked for: the provider's, or `openid profile email` where it
/// names none.
pub open spec fn spec_rp_scopes(scopes: Seq<String>) -> Seq<Seq<char>> {
    if scopes.len() == 0 {
        seq!["openid"@, "profile"@, "email"@]
    } else {
        scopes.map_values(|s: String| s@)
    }
}

/// `words` joined by single spaces.
pub open spec fn join_spaces(words: Seq<Seq<char>>) -> Seq<char>
    decreases words.len(),
{
    if words.len() == 0 {
        Seq::empty()
    } else if words.len() == 1 {
        words[0]
    } else {
        join_spaces(words.drop_last()) + " "@ + words.last()
    }
}

/// The scopes, joined by spaces.
pub fn rp_scope_text(scopes: &Vec<String>) -> (r: String)
    ensures
        r@ == join_spaces(spec_rp_scopes(scopes@)),
{
    if scopes.len() == 0 {
        proof {
            reveal_with_fuel(join_spaces, 4);
            assert(seq!["openid"@, "profile"@, "email"@].drop_last() =~= seq!["openid"@, "profile"@]);
            assert(seq!["openid"@, "profile"@].drop_last() =~= seq!["openid"@]);
        }
        let a = concat2("openid", " ");
        let b = concat2(a.as_str(), "profile");
        let c = concat2(b.as_str(), " ");
        return concat2(c.as_str(), "email");
    }
    let ghost words = scopes@.map_values(|s: String| s@);
    let mut out = copy_string(&scopes[0]);
    let mut i: usize = 1;
    proof {
        assert(words.subrange(0, 1) =~= seq![words[0]]);
    }
    while i < scopes.len()
        invariant
            1 <= i <= scopes@.len(),
            words == scopes@.map_values(|s: String| s@),
            out@ == join_spaces(words.subrange(0, i as int)),
        decreases scopes.len() - i,
    {
        let ghost before = out@;
        let with_space = concat2(out.as_str(), " ");
        out = concat2(with_space.as_str(), scopes[i].as_str());
        proof {
            let w = words.subrange(0, i + 1);
            assert(w.drop_last() =~= words.subrange(0, i as int));
            assert(w.last() == scopes@[i as int]@);
        }
        i = i + 1;
    }
    assert(words.subrange(0, words.len() as int) =~= words);
    out
}

/// The query the authorization address gets, in order.
pub open spec fn authorization_pairs(
    client_id: Seq<char>,
    callback_uri: Seq<char>,
    scope: Seq<char>,
    state: Seq<char>,
    nonce: Seq<char>,
    challenge: Seq<char>,
) -> Seq<(Seq<char>, Seq<char>)> {
    seq![
        ("response_type"@, "code"@),
        ("client_id"@, client_id),
        ("redirect_uri"@, callback_uri),
        ("scope"@, scope),
        ("state"@, state),
        ("nonce"@, nonce),
        ("code_challenge"@, challenge),
        ("code_challenge_method"@, "S256"@),
    ]
}

/// `base` parsed by the url crate with `pairs` appended to its query, or
/// `None` where the crate cannot parse `base`.
pub uninterp spec fn url_with_pairs(base: Seq<char>, pairs: Seq<(Seq<char>, Seq<char>)>) -> Option<Seq<char>>;

/// `Url::parse`, then `query_pairs_mut().extend_pairs`, of the url crate.
#[verifier::external_body]
fn url_extend_pairs(base: &str, pairs: &Vec<(String, String)>) -> (r: Option<String>)
    ensures
        match r {
            Some(s) => url_with_pairs(base@, pair_views(pairs@)) == Some(s@),
            None => url_with_pairs(base@, pair_views(pairs@)) is None,
        },
{
    match url::Url::parse(base) {
        Ok(mut u) => {
            u.query_pairs_mut().extend_pairs(pairs.iter());
            Some(u.to_string())
        },
        Err(_) => None,
    }
}

fn pair(k: &str, v: &str) -> (r: (String, String))
    ensures
        r.0@ == k@,
        r.1@ == v@,
{
    (str_to_string(k), str_to_string(v))
}

/// Starts signing in at a provider whose metadata is known, with the state,
/// nonce and PKCE verifier drawn for this attempt: the provider's
/// authorization address with the code request in its query, and the state
/// to remember. Fails where the address does not parse.
pub fn start(
    request: &RpStartRequest,
    metadata: &CachedIssuerMetadata,
    state: String,
    nonce: String,
    pkce_verifier: String,
) -> (r: Result<RpStartResult, String>)
    ensures
        ({
            let pairs = authorization_pairs(
                request.provider.client_id@,
                request.callback_uri@,
                join_spaces(spec_rp_scopes(request.provider.scopes@)),
                state@,
                nonce@,
                spec_s256(pkce_verifier@),
            );
            match url_with_pairs(metadata.config.authorization_endpoint@, pairs) {
                None => r matches Err(m) && m@ == "parse authorization endpoint"@,
                Some(u) => r matches Ok(res) && {
                    &&& res.authorization_url@ == u
                    &&& res.state.provider_id@ == request.provider.provider_id@
                    &&& res.state.state@ == state@
                    &&& res.state.nonce@ == nonce@
                    &&& res.state.pkce_verifier@ == pkce_verifier@
                    &&& res.state.flow_id@ == request.flow_id@
                    &&& res.state.redirect_uri@ == request.redirect_uri@
                    &&& res.state.expected_issuer@ == request.provider.issuer@
                    &&& res.state.callback_uri@ == request.callback_uri@
                },
            }
        }),
{
    let challenge = s256_challenge(pkce_verifier.as_str());
    let scope = rp_scope_text(&request.provider.scopes);
    let mut pairs: Vec<(String, String)> = Vec::new();
    pairs.push(pair("response_type", "code"));
    pairs.push(pair("client_id", request.provider.client_id.as_str()));
    pairs.push(pair("redirect_uri", request.callback_uri.as_str()));
    pairs.push(pair("scope", scope.as_str()));
    pairs.push(pair("state", state.as_str()));
    pairs.push(pair("nonce", nonce.as_str()));
    pairs.push(pair("code_challenge", challenge.as_str()));
    pairs.push(pair("code_challenge_method", "S256"));
    proof {
        assert(pair_views(pairs@) =~= authorization_pairs(
            request.provider.client_id@,
            request.callback_uri@,
            join_spaces(spec_rp_scopes(request.provider.scopes@)),
            state@,
            nonce@,
            spec_s256(pkce_verifier@),
        ));
    }
    let url = match url_extend_pairs(metadata.config.authorization_endpoint.as_str(), &pairs) {
        Some(u) => u,
        None => {
            return Err(str_to_string("parse authorization endpoint"));
        },
    };
    Ok(
        RpStartResult {
            authorization_url: url,
            state: RpAuthState {
                provider_id: copy_string(&request.provider.provider_id),
                state,
                nonce,
                pkce_verifier,
                flow_id: copy_string(&request.flow_id),
                redirect_uri: copy_string(&request.redirect_uri),
                expected_issuer: copy_string(&request.provider.issuer),
                callback_uri: copy_string(&request.callback_uri),
            },
        },
    )
}

/// Where an issuer publishes its metadata.
pub fn metadata_url(issuer: &str) -> (r: String)
    ensures
        r@ == trim_trailing_slashes(issuer@) + "/.well-known/openid-configuration"@,
{
    let base = trim_end_slashes(issuer);
    concat2(base.as_str(), "/.well-known/openid-configuration")
}

/// The first problem of a call back: no code, a state other than the one
/// remembered, or a provider whose issuer changed.
pub open spec fn spec_callback_problem(request: RpCallbackRequest) -> Option<Seq<char>> {
    if request.code@.len() == 0 {
        Some("missing authorization code"@)
    } else if request.returned_state@ != request.stored_state.state@ {
        Some("invalid or expired state"@)
    } else if request.provider.issuer@ != request.stored_state.expected_issuer@ {
        Some("issuer mismatch"@)
    } else {
        None
    }
}

/// Checks a call back before the code is redeemed.
pub fn check_callback(request: &RpCallbackRequest) -> (r: Result<(), String>)
    ensures
        match spec_callback_problem(*request) {
            None => r is Ok,
            Some(m) => r matches Err(e) && e@ == m,
        },
{
    if request.code.as_str().is_empty() {
        return Err(str_to_string("missing authorization code"));
    }
    if !str_eq(request.returned_state.as_str(), request.stored_state.state.as_str()) {
        return Err(str_to_string("invalid or expired state"));
    }
    if !str_eq(request.provider.issuer.as_str(), request.stored_state.expected_issuer.as_str()) {
        return Err(str_to_string("issuer mismatch"));
    }
    Ok(())
}

/// The form that redeems a code at the token endpoint, and the basic
/// credentials where the provider authenticates clients that way (else the
/// secret, if any, goes into the form).
pub open spec fn spec_token_form(
    provider: RpProviderSpec,
    state: RpAuthState,
    code: Seq<char>,
) -> (Seq<(Seq<char>, Seq<char>)>, Option<(Seq<char>, Seq<char>)>) {
    let base = seq![
        ("grant_type"@, "authorization_code"@),
        ("code"@, code),
        ("client_id"@, provider.client_id@),
        ("redirect_uri"@, state.callback_uri@),
        ("code_verifier"@, state.pkce_verifier@),
    ];
    if provider.token_endpoint_auth_method@ == "client_secret_basic"@ {
        (base, Some((provider.client_id@, provider.client_secret@)))
    } else if provider.client_secret@.len() > 0 {
        (base.push(("client_secret"@, provider.client_secret@)), None)
    } else {
        (base, None)
    }
}

/// The token request that redeems `code`.
pub fn token_request_form(provider: &RpProviderSpec, state: &RpAuthState, code: &str) -> (r: (
    Vec<(String, String)>,
    Option<(String, String)>,
))
    ensures
        ({
            let (form, basic) = spec_token_form(*provider, *state, code@);
            &&& pair_views(r.0@) == form
            &&& match r.1 {
                Some((u, p)) => basic == Some((u@, p@)),
                None => basic is None,
            }
        }),
{
    let mut params: Vec<(String, String)> = Vec::new();
    params.push(pair("grant_type", "authorization_code"));
    params.push(pair("code", code));
    params.push(pair("client_id", provider.client_id.as_str()));
    params.push(pair("redirect_uri", state.callback_uri.as_str()));
    params.push(pair("code_verifier", state.pkce_verifier.as_str()));
    let ghost base = pair_views(params@);
    if str_eq(provider.token_endpoint_auth_method.as_str(), "client_secret_basic") {
        let basic = (copy_string(&provider.client_id), copy_string(&provider.client_secret));
        proof {
            assert(pair_views(params@) =~= spec_token_form(*provider, *state, code@).0);
        }
        (params, Some(basic))
    } else {
        if !provider.client_secret.as_str().is_empty() {
            params.push(pair("client_secret", provider.client_secret.as_str()));
        }
        proof {
            assert(pair_views(params@) =~= spec_token_form(*provider, *state, code@).0);
        }
        (params, None)
    }
}

/// Where the claims of a sign-in come from.
#[derive(Clone, Copy, Debug, PartialEq, Eq, Structural)]
pub enum ClaimsSource {
    IdToken,
    Userinfo,
    Unavailable,
}

/// The ID token where the provider returned one, else its userinfo
/// endpoint where it has one.
pub fn claims_source(has_id_token: bool, userinfo_endpoint: &str) -> (r: ClaimsSource)
    ensures
        r == if has_id_token {
            ClaimsSource::IdToken
        } else if userinfo_endpoint@.len() > 0 {
            ClaimsSource::Userinfo
        } else {
            ClaimsSource::Unavailable
        },
{
    if has_id_token {
        ClaimsSource::IdToken
    } else if !userinfo_endpoint.is_empty() {
        ClaimsSource::Userinfo
    } else {
        ClaimsSource::Unavailable
    }
}

/// The text of the string member `key`, or empty.
pub open spec fn claim_text(claims: JsonValue, key: Seq<char>) -> Seq<char> {
    match spec_get_str(claims, key) {
        Some(s) => s,
        None => Seq::empty(),
    }
}

/// The boolean member `key`, if it is one.
pub open spec fn claim_bool(claims: JsonValue, key: Seq<char>) -> Option<bool> {
    match spec_get(claims, key) {
        Some(JsonValue::Bool(b)) => Some(b),
        _ => None,
    }
}

fn text_of(claims: &JsonValue, key: &str) -> (r: String)
    ensures
        r@ == claim_text(*claims, key@),
{
    match get_str(claims, key) {
        Some(s) => copy_string(s),
        None => String::new(),
    }
}

fn bool_of(claims: &JsonValue, key: &str) -> (r: Option<bool>)
    ensures
        r == claim_bool(*claims, key@),
{
    match get(claims, key) {
        Some(JsonValue::Bool(b)) => Some(*b),
        _ => None,
    }
}

/// Claims need the userinfo endpoint where they lack an email or say
/// nothing of its verification.
pub fn should_enrich_from_userinfo(claims: &JsonValue) -> (r: bool)
    ensures
        r == (claim_text(*claims, "email"@).len() == 0 || claim_bool(*claims, "email_verified"@) is None),
{
    let email = text_of(claims, "email");
    email.as_str().is_empty() || bool_of(claims, "email_verified").is_none()
}

/// Whether the ID token's nonce is the one sent: a missing nonce is empty,
/// and nothing was sent where the expected nonce is empty.
pub fn check_nonce(claims: &JsonValue, expected_nonce: &str) -> (r: Result<(), String>)
    ensures
        (expected_nonce@.len() > 0 && claim_text(*claims, "nonce"@) != expected_nonce@) ==> (r matches Err(m)
            && m@ == "nonce mismatch"@),
        !(expected_nonce@.len() > 0 && claim_text(*claims, "nonce"@) != expected_nonce@) ==> r is Ok,
{
    let nonce = text_of(claims, "nonce");
    if !expected_nonce.is_empty() && !str_eq(nonce.as_str(), expected_nonce) {
        Err(str_to_string("nonce mismatch"))
    } else {
        Ok(())
    }
}

pub open spec fn has_key(fields: Seq<JsonMember>, key: Seq<char>) -> bool {
    member(fields, key) is Some
}

/// The members of `fallback`, in order, whose names `primary` lacks.
pub open spec fn missing_members(primary: Seq<JsonMember>, fallback: Seq<JsonMember>) -> Seq<JsonMember>
    decreases fallback.len(),
{
    if fallback.len() == 0 {
        Seq::empty()
    } else {
        let rest = missing_members(primary, fallback.drop_last());
        if has_key(primary, fallback.last().key@) {
            rest
        } else {
            rest.push(fallback.last())
        }
    }
}

fn has_member(fields: &Vec<JsonMember>, key: &str) -> (r: bool)
    ensures
        r == has_key(fields@, key@),
{
    let mut i: usize = 0;
    assert(fields@.subrange(0, fields@.len() as int) =~= fields@);
    while i < fields.len()
        invariant
            i <= fields@.len(),
            member(fields@, key@) == member(fields@.subrange(i as int, fields@.len() as int), key@),
        decreases fields.len() - i,
    {
        proof {
            let rest = fields@.subrange(i as int, fields@.len() as int);
            assert(rest[0] == fields@[i as int]);
            assert(rest.drop_first() =~= fields@.subrange(i + 1, fields@.len() as int));
        }
        if str_eq(fields[i].key.as_str(), key) {
            return true;
        }
        i = i + 1;
    }
    proof {
        assert(fields@.subrange(i as int, fields@.len() as int).len() == 0);
    }
    false
}

/// Claims with the userinfo claims they lack added: where both are objects,
/// the primary members, then the fallback members whose names the primary
/// lacks; else the primary claims.
pub open spec fn is_merge_of(r: JsonValue, primary: JsonValue, fallback: JsonValue) -> bool {
    match (primary, fallback) {
        (JsonValue::Object(p), JsonValue::Object(f)) => r matches JsonValue::Object(m) && m@ == p@ + missing_members(
            p@,
            f@,
        ),
        _ => r == primary,
    }
}

/// Adds the fallback claims the primary claims lack.
pub fn merge_claims(primary: JsonValue, fallback: JsonValue) -> (r: JsonValue)
    ensures
        is_merge_of(r, primary, fallback),
{
    match primary {
        JsonValue::Object(mut p) => match fallback {
            JsonValue::Object(f) => {
                let ghost p0 = p@;
                let ghost f0 = f@;
                let mut rest = f;
                let mut extra: Vec<JsonMember> = Vec::new();
                let ghost mut k: int = 0;
                while rest.len() > 0
                    invariant
                        p@ == p0,
                        0 <= k <= f0.len(),
                        rest@ == f0.subrange(k, f0.len() as int),
                        extra@ == missing_members(p0, f0.subrange(0, k)),
                    decreases rest.len(),
                {
                    let m = rest.remove(0);
                    let keep = !has_member(&p, m.key.as_str());
                    proof {
                        assert(m == f0[k]);
                        assert(f0.subrange(0, k + 1).drop_last() =~= f0.subrange(0, k));
                        assert(f0.subrange(0, k + 1).last() == f0[k]);
                    }
                    if keep {
                        extra.push(m);
                    }
                    proof {
                        k = k + 1;
                        assert(rest@ =~= f0.subrange(k, f0.len() as int));
                    }
                }
                proof {
                    assert(f0.subrange(0, k) =~= f0);
                }
                p.append(&mut extra);
                JsonValue::Object(p)
            },
            _ => JsonValue::Object(p),
        },
        other => other,
    }
}

/// Merged claims answer each name as the primary claims do where they hold
/// it, else as the fallback claims do.
pub proof fn lemma_merged_member(p: Seq<JsonMember>, f: Seq<JsonMember>, key: Seq<char>)
    ensures
        member(p + missing_members(p, f), key) == if has_key(p, key) {
            member(p, key)
        } else {
            member(f, key)
        },
    decreases p.len(), f.len(),
{
    if p.len() > 0 {
        assert((p + missing_members(p, f)).drop_first() =~= p.drop_first() + missing_members(p, f));
        if p[0].key@ != key {
            lemma_member_append(p.drop_first(), missing_members(p, f), key);
            lemma_member_append(p, missing_members(p, f), key);
        }
    }
    lemma_member_append(p, missing_members(p, f), key);
    if !has_key(p, key) {
        lemma_missing_member(p, f, key);
    }
}

proof fn lemma_member_append(a: Seq<JsonMember>, b: Seq<JsonMember>, key: Seq<char>)
    ensures
        member(a + b, key) == if member(a, key) is Some {
            member(a, key)
        } else {
            member(b, key)
        },
    decreases a.len(),
{
    if a.len() > 0 {
        assert((a + b).drop_first() =~= a.drop_first() + b);
        lemma_member_append(a.drop_first(), b, key);
    } else {
        assert(a + b =~= b);
    }
}

proof fn lemma_member_push(a: Seq<JsonMember>, x: JsonMember, key: Seq<char>)
    ensures
        member(a.push(x), key) == if member(a, key) is Some {
            member(a, key)
        } else if x.key@ == key {
            Some(x.value)
        } else {
            None
        },
{
    assert(a.push(x) =~= a + seq![x]);
    lemma_member_append(a, seq![x], key);
    let single = seq![x];
    assert(single[0] == x);
    assert(single.drop_first() =~= Seq::<JsonMember>::empty());
    assert(member(single.drop_first(), key) is None);
}

proof fn lemma_missing_member(p: Seq<JsonMember>, f: Seq<JsonMember>, key: Seq<char>)
    requires
        !has_key(p, key),
    ensures
        member(missing_members(p, f), key) == member(f, key),
    decreases f.len(),
{
    if f.len() > 0 {
        lemma_missing_member(p, f.drop_last(), key);
        assert(f =~= f.drop_last().push(f.last()));
        lemma_member_push(f.drop_last(), f.last(), key);
        if !has_key(p, f.last().key@) {
            lemma_member_push(missing_members(p, f.drop_last()), f.last(), key);
        } else {
            assert(f.last().key@ != key);
        }
    }
}

/// The subject of claims: `sub`, else `id` where there is no `sub`; empty
/// unless that member is a string.
pub open spec fn spec_subject(claims: JsonValue) -> Seq<char> {
    let v = match spec_get(claims, "sub"@) {
        Some(v) => Some(v),
        None => spec_get(claims, "id"@),
    };
    match v {
        Some(JsonValue::Str(s)) => s@,
        _ => Seq::empty(),
    }
}

/// The identity that claims vouch for: it needs a subject; the email is
/// empty and unverified where the claims say nothing of it.
pub fn external_identity(issuer: &str, claims: JsonValue, id_token: Option<String>, access_token: String) -> (r:
    Result<VerifiedExternalIdentity, String>)
    ensures
        spec_subject(claims).len() == 0 ==> (r matches Err(m) && m@ == "provider response did not include sub"@),
        spec_subject(claims).len() > 0 ==> (r matches Ok(id) && {
            &&& id.issuer@ == issuer@
            &&& id.subject@ == spec_subject(claims)
            &&& id.email@ == claim_text(claims, "email"@)
            &&& id.email_verified == (claim_bool(claims, "email_verified"@) == Some(true))
            &&& id.claims == claims
            &&& id.id_token == id_token
            &&& id.access_token == access_token
        }),
{
    let v = match get(&claims, "sub") {
        Some(v) => Some(v),
        None => get(&claims, "id"),
    };
    let subject = match v {
        Some(JsonValue::Str(s)) => copy_string(s),
        _ => String::new(),
    };
    if subject.as_str().is_empty() {
        return Err(str_to_string("provider response did not include sub"));
    }
    let email = text_of(&claims, "email");
    let email_verified = match bool_of(&claims, "email_verified") {
        Some(b) => b,
        None => false,
    };
    Ok(
        VerifiedExternalIdentity {
            issuer: str_to_string(issuer),
            subject,
            email,
            email_verified,
            claims,
            id_token,
            access_token,
        },
    )
}

/// The key that signed a token: the one with the token's key id, else the
/// first key; the first key where the token names none.
pub open spec fn spec_signing_key_index(keys: Seq<JsonWebKey>, kid: Option<Seq<char>>) -> Option<int> {
    if keys.len() == 0 {
        None
    } else {
        match kid {
            Some(k) => match first_kid(keys, k) {
                Some(i) => Some(i),
                None => Some(0),
            },
            None => Some(0),
        }
    }
}

/// The position of the first key with id `kid`.
pub open spec fn first_kid(keys: Seq<JsonWebKey>, kid: Seq<char>) -> Option<int>
    decreases keys.len(),
{
    if keys.len() == 0 {
        None
    } else if keys[0].kid@ == kid {
        Some(0)
    } else {
        match first_kid(keys.drop_first(), kid) {
            Some(i) => Some(i + 1),
            None => None,
        }
    }
}

/// Picks the key that verifies a token with key id `kid` (if any).
pub fn select_signing_key<'a>(jwks: &'a JsonWebKeySet, kid: Option<&str>) -> (r: Option<&'a JsonWebKey>)
    ensures
        match spec_signing_key_index(jwks.keys@, match kid {
            Some(k) => Some(k@),
            None => None,
        }) {
            Some(i) => r == Some(&jwks.keys@[i]),
            None => r is None,
        },
{
    if jwks.keys.len() == 0 {
        return None;
    }
    match kid {
        None => Some(&jwks.keys[0]),
        Some(k) => {
            let mut i: usize = 0;
            let ghost keys = jwks.keys@;
            assert(keys.subrange(0, keys.len() as int) =~= keys);
            while i < jwks.keys.len()
                invariant
                    i <= keys.len(),
                    keys == jwks.keys@,
                    keys.len() > 0,
                    kid == Some(k),
                    first_kid(keys, k@) == match first_kid(keys.subrange(i as int, keys.len() as int), k@) {
                        Some(j) => Some(j + i),
                        None => None,
                    },
                decreases jwks.keys.len() - i,
            {
                proof {
                    let rest = keys.subrange(i as int, keys.len() as int);
                    assert(rest[0] == keys[i as int]);
                    assert(rest.drop_first() =~= keys.subrange(i + 1, keys.len() as int));
                }
                if str_eq(jwks.keys[i].kid.as_str(), k) {
                    proof {
                        let rest = keys.subrange(i as int, keys.len() as int);
                        assert(first_kid(rest, k@) == Some(0int));
                        assert(first_kid(keys, k@) == Some(i as int));
                    }
                    return Some(&jwks.keys[i]);
                }
                i = i + 1;
            }
            proof {
                assert(keys.subrange(i as int, keys.len() as int).len() == 0);
            }
            Some(&jwks.keys[0])
        },
    }
}

} // verus!
