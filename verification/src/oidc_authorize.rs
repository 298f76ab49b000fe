//! The authorization endpoint: collecting request parameters, turning them
//! into an authorization request, and the checks that request must pass.

use vstd::prelude::*;

use crate::num::{parse_u64, spec_parse_u64};
use crate::oidc::{ClientMetadata, NewAuthRequest, ProtocolError, is_protocol_error, split_whitespace, split_ws};
use crate::text::{concat3, copy_string, str_eq, str_to_string};

verus! {

/// The parameters of an authorization request, as given.
#[derive(Debug)]
pub struct AuthorizeParams {
    pub client_id: Option<String>,
    pub redirect_uri: Option<String>,
    pub response_type: Option<String>,
    pub scope: Option<String>,
    pub state: Option<String>,
    pub nonce: Option<String>,
    pub code_challenge: Option<String>,
    pub code_challenge_method: Option<String>,
    pub prompt: Option<String>,
    pub login_hint: Option<String>,
    pub request: Option<String>,
    pub max_age: Option<String>,
}

pub struct ParamsV {
    pub client_id: Option<Seq<char>>,
    pub redirect_uri: Option<Seq<char>>,
    pub response_type: Option<Seq<char>>,
    pub scope: Option<Seq<char>>,
    pub state: Option<Seq<char>>,
    pub nonce: Option<Seq<char>>,
    pub code_challenge: Option<Seq<char>>,
    pub code_challenge_method: Option<Seq<char>>,
    pub prompt: Option<Seq<char>>,
    pub login_hint: Option<Seq<char>>,
    pub request: Option<Seq<char>>,
    pub max_age: Option<Seq<char>>,
}

pub open spec fn ov(o: Option<String>) -> Option<Seq<char>> {
    match o {
        Some(s) => Some(s@),
        None => None,
    }
}

impl View for AuthorizeParams {
    type V = ParamsV;

    open spec fn view(&self) -> ParamsV {
        ParamsV {
            client_id: ov(self.client_id),
            redirect_uri: ov(self.redirect_uri),
            response_type: ov(self.response_type),
            scope: ov(self.scope),
            state: ov(self.state),
            nonce: ov(self.nonce),
            code_challenge: ov(self.code_challenge),
            code_challenge_method: ov(self.code_challenge_method),
            prompt: ov(self.prompt),
            login_hint: ov(self.login_hint),
            request: ov(self.request),
            max_age: ov(self.max_age),
        }
    }
}

impl Default for AuthorizeParams {
    fn default() -> (r: AuthorizeParams)
        ensures
            r@ == empty_params(),
    {
        AuthorizeParams {
            client_id: None,
            redirect_uri: None,
            response_type: None,
            scope: None,
            state: None,
            nonce: None,
            code_challenge: None,
            code_challenge_method: None,
            prompt: None,
            login_hint: None,
            request: None,
            max_age: None,
        }
    }
}

pub open spec fn empty_params() -> ParamsV {
    ParamsV {
        client_id: None,
        redirect_uri: None,
        response_type: None,
        scope: None,
        state: None,
        nonce: None,
        code_challenge: None,
        code_challenge_method: None,
        prompt: None,
        login_hint: None,
        request: None,
        max_age: None,
    }
}

/// Sets the parameter named `key` to `value`; unknown names change nothing.
pub open spec fn spec_apply_param(p: ParamsV, key: Seq<char>, value: Seq<char>) -> ParamsV {
    if key == "client_id"@ {
        ParamsV { client_id: Some(value), ..p }
    } else if key == "redirect_uri"@ {
        ParamsV { redirect_uri: Some(value), ..p }
    } else if key == "response_type"@ {
        ParamsV { response_type: Some(value), ..p }
    } else if key == "scope"@ {
        ParamsV { scope: Some(value), ..p }
    } else if key == "state"@ {
        ParamsV { state: Some(value), ..p }
    } else if key == "nonce"@ {
        ParamsV { nonce: Some(value), ..p }
    } else if key == "code_challenge"@ {
        ParamsV { code_challenge: Some(value), ..p }
    } else if key == "code_challenge_method"@ {
        ParamsV { code_challenge_method: Some(value), ..p }
    } else if key == "prompt"@ {
        ParamsV { prompt: Some(value), ..p }
    } else if key == "login_hint"@ {
        ParamsV { login_hint: Some(value), ..p }
    } else if key == "request"@ {
        ParamsV { request: Some(value), ..p }
    } else if key == "max_age"@ {
        ParamsV { max_age: Some(value), ..p }
    } else {
        p
    }
}

/// Sets the parameter named `key` to `value`; unknown names are ignored.
pub fn apply_param(params: &mut AuthorizeParams, key: &str, value: String)
    ensures
        final(params)@ == spec_apply_param(old(params)@, key@, value@),
{
    if str_eq(key, "client_id") {
        params.client_id = Some(value);
    } else if str_eq(key, "redirect_uri") {
        params.redirect_uri = Some(value);
    } else if str_eq(key, "response_type") {
        params.response_type = Some(value);
    } else if str_eq(key, "scope") {
        params.scope = Some(value);
    } else if str_eq(key, "state") {
        params.state = Some(value);
    } else if str_eq(key, "nonce") {
        params.nonce = Some(value);
    } else if str_eq(key, "code_challenge") {
        params.code_challenge = Some(value);
    } else if str_eq(key, "code_challenge_method") {
        params.code_challenge_method = Some(value);
    } else if str_eq(key, "prompt") {
        params.prompt = Some(value);
    } else if str_eq(key, "login_hint") {
        params.login_hint = Some(value);
    } else if str_eq(key, "request") {
        params.request = Some(value);
    } else if str_eq(key, "max_age") {
        params.max_age = Some(value);
    }
}

pub open spec fn pick(source: Option<Seq<char>>, target: Option<Seq<char>>) -> Option<Seq<char>> {
    if source is Some {
        source
    } else {
        target
    }
}

/// Every parameter the source gives replaces the target's.
pub open spec fn spec_merge(t: ParamsV, s: ParamsV) -> ParamsV {
    ParamsV {
        client_id: pick(s.client_id, t.client_id),
        redirect_uri: pick(s.redirect_uri, t.redirect_uri),
        response_type: pick(s.response_type, t.response_type),
        scope: pick(s.scope, t.scope),
        state: pick(s.state, t.state),
        nonce: pick(s.nonce, t.nonce),
        code_challenge: pick(s.code_challenge, t.code_challenge),
        code_challenge_method: pick(s.code_challenge_method, t.code_challenge_method),
        prompt: pick(s.prompt, t.prompt),
        login_hint: pick(s.login_hint, t.login_hint),
        request: pick(s.request, t.request),
        max_age: pick(s.max_age, t.max_age),
    }
}

/// Overrides the target's parameters with those the source gives.
pub fn merge_authorize_params(target: &mut AuthorizeParams, source: AuthorizeParams)
    ensures
        final(target)@ == spec_merge(old(target)@, source@),
{
    if source.client_id.is_some() {
        target.client_id = source.client_id;
    }
    if source.redirect_uri.is_some() {
        target.redirect_uri = source.redirect_uri;
    }
    if source.response_type.is_some() {
        target.response_type = source.response_type;
    }
    if source.scope.is_some() {
        target.scope = source.scope;
    }
    if source.state.is_some() {
        target.state = source.state;
    }
    if source.nonce.is_some() {
        target.nonce = source.nonce;
    }
    if source.code_challenge.is_some() {
        target.code_challenge = source.code_challenge;
    }
    if source.code_challenge_method.is_some() {
        target.code_challenge_method = source.code_challenge_method;
    }
    if source.prompt.is_some() {
        target.prompt = source.prompt;
    }
    if source.login_hint.is_some() {
        target.login_hint = source.login_hint;
    }
    if source.request.is_some() {
        target.request = source.request;
    }
    if source.max_age.is_some() {
        target.max_age = source.max_age;
    }
}

/// Merging never drops a parameter, and merging the same source again
/// changes nothing.
pub proof fn lemma_merge_idempotent(t: ParamsV, s: ParamsV)
    ensures
        spec_merge(spec_merge(t, s), s) == spec_merge(t, s),
        spec_merge(t, empty_params()) == t,
{
}

/// The name-value pairs of `application/x-www-form-urlencoded` text, decoded
/// as `form_urlencoded::parse` decodes them.
pub uninterp spec fn form_urlencoded_pairs(input: Seq<char>) -> Seq<(Seq<char>, Seq<char>)>;

pub open spec fn pair_views(v: Seq<(String, String)>) -> Seq<(Seq<char>, Seq<char>)> {
    v.map_values(|p: (String, String)| (p.0@, p.1@))
}

/// The decoded pairs of form-encoded text; `form_urlencoded::parse`.
#[verifier::external_body]
fn form_pairs(input: &str) -> (r: Vec<(String, String)>)
    ensures
        pair_views(r@) == form_urlencoded_pairs(input@),
{
    url::form_urlencoded::parse(input.as_bytes()).map(|(k, v)| (k.into_owned(), v.into_owned())).collect()
}

/// The parameters after applying the first `k` pairs in order.
pub open spec fn apply_pairs(p: ParamsV, pairs: Seq<(Seq<char>, Seq<char>)>) -> ParamsV
    decreases pairs.len(),
{
    if pairs.len() == 0 {
        p
    } else {
        spec_apply_param(apply_pairs(p, pairs.drop_last()), pairs.last().0, pairs.last().1)
    }
}

/// The parameters of form-encoded text; a later pair overrides an earlier one.
pub fn parse_authorize_params(input: &str) -> (r: AuthorizeParams)
    ensures
        r@ == apply_pairs(empty_params(), form_urlencoded_pairs(input@)),
{
    let pairs = form_pairs(input);
    let mut params = AuthorizeParams::default();
    let mut i: usize = 0;
    let ghost pv = pair_views(pairs@);
    assert(pv.subrange(0, 0) =~= Seq::<(Seq<char>, Seq<char>)>::empty());
    while i < pairs.len()
        invariant
            i <= pairs@.len(),
            pv == pair_views(pairs@),
            params@ == apply_pairs(empty_params(), pv.subrange(0, i as int)),
        decreases pairs.len() - i,
    {
        let (k, v) = (&pairs[i].0, copy_string(&pairs[i].1));
        proof {
            let pre = pv.subrange(0, i as int + 1);
            assert(pre.drop_last() =~= pv.subrange(0, i as int));
            assert(pre.last() == (pairs@[i as int].0@, pairs@[i as int].1@));
        }
        apply_param(&mut params, k.as_str(), v);
        i = i + 1;
    }
    assert(pv.subrange(0, pv.len() as int) =~= pv);
    params
}

/// The names of the recognised authorization parameters.
pub open spec fn known_param(key: Seq<char>) -> bool {
    ||| key == "client_id"@
    ||| key == "redirect_uri"@
    ||| key == "response_type"@
    ||| key == "scope"@
    ||| key == "state"@
    ||| key == "nonce"@
    ||| key == "code_challenge"@
    ||| key == "code_challenge_method"@
    ||| key == "prompt"@
    ||| key == "login_hint"@
    ||| key == "request"@
    ||| key == "max_age"@
}

/// The field of `p` that the parameter named `key` fills.
pub open spec fn param_value(p: ParamsV, key: Seq<char>) -> Option<Seq<char>> {
    if key == "client_id"@ {
        p.client_id
    } else if key == "redirect_uri"@ {
        p.redirect_uri
    } else if key == "response_type"@ {
        p.response_type
    } else if key == "scope"@ {
        p.scope
    } else if key == "state"@ {
        p.state
    } else if key == "nonce"@ {
        p.nonce
    } else if key == "code_challenge"@ {
        p.code_challenge
    } else if key == "code_challenge_method"@ {
        p.code_challenge_method
    } else if key == "prompt"@ {
        p.prompt
    } else if key == "login_hint"@ {
        p.login_hint
    } else if key == "request"@ {
        p.request
    } else if key == "max_age"@ {
        p.max_age
    } else {
        None
    }
}

/// The value of the last pair named `key`, if any pair is.
pub open spec fn last_value(pairs: Seq<(Seq<char>, Seq<char>)>, key: Seq<char>) -> Option<Seq<char>>
    decreases pairs.len(),
{
    if pairs.len() == 0 {
        None
    } else if pairs.last().0 == key {
        Some(pairs.last().1)
    } else {
        last_value(pairs.drop_last(), key)
    }
}

/// Applying a recognised parameter sets exactly its own field to the value
/// given and leaves every other parameter as it was; an unrecognised name
/// changes nothing.
pub proof fn lemma_apply_param_sets(p: ParamsV, key: Seq<char>, value: Seq<char>)
    ensures
        known_param(key) ==> param_value(spec_apply_param(p, key, value), key) == Some(value),
        forall|other: Seq<char>|
            known_param(other) && other != key ==> #[trigger] param_value(
                spec_apply_param(p, key, value),
                other,
            ) == param_value(p, other),
        !known_param(key) ==> spec_apply_param(p, key, value) == p,
{
    reveal_strlit("client_id");
    reveal_strlit("redirect_uri");
    reveal_strlit("response_type");
    reveal_strlit("scope");
    reveal_strlit("state");
    reveal_strlit("nonce");
    reveal_strlit("code_challenge");
    reveal_strlit("code_challenge_method");
    reveal_strlit("prompt");
    reveal_strlit("login_hint");
    reveal_strlit("request");
    reveal_strlit("max_age");
}

/// Each recognised parameter of a parsed request holds the value of the last
/// pair with its name, and is absent where no pair has that name.
pub proof fn lemma_parse_keeps_last(pairs: Seq<(Seq<char>, Seq<char>)>, key: Seq<char>)
    requires
        known_param(key),
    ensures
        param_value(apply_pairs(empty_params(), pairs), key) == last_value(pairs, key),
    decreases pairs.len(),
{
    if pairs.len() == 0 {
        reveal_strlit("client_id");
        reveal_strlit("redirect_uri");
        reveal_strlit("response_type");
        reveal_strlit("scope");
        reveal_strlit("state");
        reveal_strlit("nonce");
        reveal_strlit("code_challenge");
        reveal_strlit("code_challenge_method");
        reveal_strlit("prompt");
        reveal_strlit("login_hint");
        reveal_strlit("request");
        reveal_strlit("max_age");
    } else {
        lemma_parse_keeps_last(pairs.drop_last(), key);
        let before = apply_pairs(empty_params(), pairs.drop_last());
        lemma_apply_param_sets(before, pairs.last().0, pairs.last().1);
        if pairs.last().0 != key {
            if !known_param(pairs.last().0) {
                assert(spec_apply_param(before, pairs.last().0, pairs.last().1) == before);
            } else {
                assert(param_value(spec_apply_param(before, pairs.last().0, pairs.last().1), key)
                    == param_value(before, key));
            }
        }
    }
}

/// A request to the authorization endpoint, with defaults filled in.
#[derive(Debug)]
pub struct AuthorizeRequest {
    pub client_id: String,
    pub redirect_uri: String,
    pub response_type: String,
    pub scope: String,
    pub state: String,
    pub nonce: String,
    pub code_challenge: String,
    pub code_challenge_method: String,
    pub prompt: Vec<String>,
    pub login_hint: String,
    pub max_age: Option<u64>,
}

/// Where the authorization endpoint sends the browser.
#[derive(Debug)]
pub struct AuthorizeRedirect {
    pub location: String,
}

pub open spec fn or_empty(o: Option<Seq<char>>) -> Seq<char> {
    match o {
        Some(s) => s,
        None => Seq::empty(),
    }
}

fn take_or_empty(o: Option<String>) -> (r: String)
    ensures
        r@ == or_empty(ov(o)),
{
    match o {
        Some(s) => s,
        None => String::new(),
    }
}

/// The request the parameters stand for: missing texts are empty (the scope
/// defaults to `openid`, the response type has no default), the prompt is
/// split at white space, and `max_age` is kept where it is a decimal `u64`.
pub fn build_authorize_request(params: AuthorizeParams) -> (r: AuthorizeRequest)
    ensures
        r.client_id@ == or_empty(params@.client_id),
        r.redirect_uri@ == or_empty(params@.redirect_uri),
        r.response_type@ == or_empty(params@.response_type),
        r.scope@ == match params@.scope {
            Some(s) => s,
            None => "openid"@,
        },
        r.state@ == or_empty(params@.state),
        r.nonce@ == or_empty(params@.nonce),
        r.code_challenge@ == or_empty(params@.code_challenge),
        r.code_challenge_method@ == or_empty(params@.code_challenge_method),
        r.prompt@.len() == split_ws(or_empty(params@.prompt)).len(),
        forall|i: int| 0 <= i < r.prompt@.len() ==> (#[trigger] r.prompt@[i])@ == split_ws(or_empty(params@.prompt))[i],
        r.login_hint@ == or_empty(params@.login_hint),
        r.max_age == match params@.max_age {
            Some(m) => match spec_parse_u64(m) {
                Some(v) => Some(v as u64),
                None => None,
            },
            None => None::<u64>,
        },
{
    let prompt_string = take_or_empty(params.prompt);
    let prompt = split_whitespace(prompt_string.as_str());
    let max_age = match &params.max_age {
        Some(m) => parse_u64(m.as_str()),
        None => None,
    };
    AuthorizeRequest {
        client_id: take_or_empty(params.client_id),
        redirect_uri: take_or_empty(params.redirect_uri),
        response_type: take_or_empty(params.response_type),
        scope: match params.scope {
            Some(s) => s,
            None => str_to_string("openid"),
        },
        state: take_or_empty(params.state),
        nonce: take_or_empty(params.nonce),
        code_challenge: take_or_empty(params.code_challenge),
        code_challenge_method: take_or_empty(params.code_challenge_method),
        prompt,
        login_hint: take_or_empty(params.login_hint),
        max_age,
    }
}

/// The first problem of an authorization request: no client, no redirect
/// address, a response type other than `code`, a challenge method other than
/// `S256`.
pub open spec fn spec_authorize_problem(r: AuthorizeRequest) -> Option<(u16, Seq<char>, Seq<char>)> {
    if r.client_id@.len() == 0 {
        Some((400, "invalid_request"@, "client_id required"@))
    } else if r.redirect_uri@.len() == 0 {
        Some((400, "invalid_request"@, "redirect_uri required"@))
    } else if r.response_type@ != "code"@ {
        Some((400, "unsupported_response_type"@, "only response_type=code is supported"@))
    } else if r.code_challenge_method@.len() != 0 && r.code_challenge_method@ != "S256"@ {
        Some((400, "invalid_request"@, "only code_challenge_method=S256 is supported"@))
    } else {
        None
    }
}

/// Checks an authorization request before its client is looked up.
pub fn check_authorize_request(request: &AuthorizeRequest) -> (r: Result<(), ProtocolError>)
    ensures
        match spec_authorize_problem(*request) {
            None => r is Ok,
            Some((status, code, text)) => r matches Err(e) && is_protocol_error(e, status, code, text),
        },
{
    if request.client_id.as_str().is_empty() {
        return Err(ProtocolError::invalid_request("client_id required"));
    }
    if request.redirect_uri.as_str().is_empty() {
        return Err(ProtocolError::invalid_request("redirect_uri required"));
    }
    if !str_eq(request.response_type.as_str(), "code") {
        return Err(ProtocolError::unsupported_response_type("only response_type=code is supported"));
    }
    if !request.code_challenge_method.as_str().is_empty() && !str_eq(request.code_challenge_method.as_str(), "S256") {
        return Err(ProtocolError::invalid_request("only code_challenge_method=S256 is supported"));
    }
    Ok(())
}

pub open spec fn registered(uris: Seq<String>, uri: Seq<char>) -> bool {
    exists|i: int| 0 <= i < uris.len() && uris[i]@ == uri
}

/// Whether `uri` is one of `uris`.
pub fn is_registered(uris: &Vec<String>, uri: &str) -> (r: bool)
    ensures
        r == registered(uris@, uri@),
{
    let mut i: usize = 0;
    while i < uris.len()
        invariant
            i <= uris@.len(),
            forall|j: int| 0 <= j < i ==> uris@[j]@ != uri@,
        decreases uris.len() - i,
    {
        if str_eq(uris[i].as_str(), uri) {
            return true;
        }
        i = i + 1;
    }
    false
}

/// Checks the client of an authorization request: it exists, is active and
/// registered the redirect address.
pub fn check_authorize_client(client: Option<&ClientMetadata>, redirect_uri: &str) -> (r: Result<(), ProtocolError>)
    ensures
        match client {
            None => r matches Err(e) && is_protocol_error(e, 401, "invalid_client"@, "unknown client_id"@),
            Some(c) => if c.state@ != "active"@ {
                r matches Err(e) && is_protocol_error(e, 401, "invalid_client"@, "unknown client_id"@)
            } else if !registered(c.redirect_uris@, redirect_uri@) {
                r matches Err(e) && is_protocol_error(e, 400, "invalid_request"@, "redirect_uri is not registered"@)
            } else {
                r is Ok
            },
        },
{
    let c = match client {
        Some(c) => c,
        None => {
            return Err(ProtocolError::invalid_client("unknown client_id"));
        },
    };
    if !str_eq(c.state.as_str(), "active") {
        return Err(ProtocolError::invalid_client("unknown client_id"));
    }
    if !is_registered(&c.redirect_uris, redirect_uri) {
        return Err(ProtocolError::invalid_request("redirect_uri is not registered"));
    }
    Ok(())
}

fn copy_strings(v: &Vec<String>) -> (r: Vec<String>)
    ensures
        r@.len() == v@.len(),
        forall|i: int| 0 <= i < r@.len() ==> (#[trigger] r@[i])@ == v@[i]@,
{
    let mut out: Vec<String> = Vec::new();
    let mut i: usize = 0;
    while i < v.len()
        invariant
            i <= v@.len(),
            out@.len() == i,
            forall|j: int| 0 <= j < i ==> (#[trigger] out@[j])@ == v@[j]@,
        decreases v.len() - i,
    {
        out.push(copy_string(&v[i]));
        i = i + 1;
    }
    out
}

/// The authorization request to store: the request as it came, with an empty
/// scope read as `openid`.
pub fn new_auth_request(request: &AuthorizeRequest) -> (r: NewAuthRequest)
    ensures
        r.client_id@ == request.client_id@,
        r.redirect_uri@ == request.redirect_uri@,
        r.response_type@ == request.response_type@,
        r.scope@ == if request.scope@.len() == 0 {
            "openid"@
        } else {
            request.scope@
        },
        r.state@ == request.state@,
        r.nonce@ == request.nonce@,
        r.code_challenge@ == request.code_challenge@,
        r.code_challenge_method@ == request.code_challenge_method@,
        r.prompt@.len() == request.prompt@.len(),
        forall|i: int| 0 <= i < r.prompt@.len() ==> (#[trigger] r.prompt@[i])@ == request.prompt@[i]@,
        r.login_hint@ == request.login_hint@,
        r.max_age == request.max_age,
{
    NewAuthRequest {
        client_id: copy_string(&request.client_id),
        redirect_uri: copy_string(&request.redirect_uri),
        response_type: copy_string(&request.response_type),
        scope: if request.scope.as_str().is_empty() {
            str_to_string("openid")
        } else {
            copy_string(&request.scope)
        },
        state: copy_string(&request.state),
        nonce: copy_string(&request.nonce),
        code_challenge: copy_string(&request.code_challenge),
        code_challenge_method: copy_string(&request.code_challenge_method),
        prompt: copy_strings(&request.prompt),
        login_hint: copy_string(&request.login_hint),
        max_age: request.max_age,
    }
}

/// The login page address for a stored authorization request.
pub fn authorize_redirect(login_path: &str, auth_request_id: &str) -> (r: AuthorizeRedirect)
    ensures
        r.location@ == login_path@ + "?auth_request_id="@ + auth_request_id@,
{
    AuthorizeRedirect { location: concat3(login_path, "?auth_request_id=", auth_request_id) }
}

/// The whole of an authorization request once its client has been looked
/// up: the request checks first, then the client checks, and otherwise the
/// authorization request to store.
pub fn plan_authorize(request: &AuthorizeRequest, client: Option<&ClientMetadata>) -> (r: Result<
    NewAuthRequest,
    ProtocolError,
>)
    ensures
        match spec_authorize_problem(*request) {
            Some((status, code, text)) => r matches Err(e) && is_protocol_error(e, status, code, text),
            None => match client {
                None => r matches Err(e) && is_protocol_error(e, 401, "invalid_client"@, "unknown client_id"@),
                Some(c) => if c.state@ != "active"@ {
                    r matches Err(e) && is_protocol_error(e, 401, "invalid_client"@, "unknown client_id"@)
                } else if !registered(c.redirect_uris@, request.redirect_uri@) {
                    r matches Err(e) && is_protocol_error(
                        e,
                        400,
                        "invalid_request"@,
                        "redirect_uri is not registered"@,
                    )
                } else {
                    r matches Ok(n) && n.client_id@ == request.client_id@ && n.redirect_uri@ == request.redirect_uri@
                        && n.response_type@ == request.response_type@ && n.scope@ == (if request.scope@.len() == 0 {
                        "openid"@
                    } else {
                        request.scope@
                    }) && n.state@ == request.state@ && n.nonce@ == request.nonce@ && n.code_challenge@
                        == request.code_challenge@ && n.code_challenge_method@ == request.code_challenge_method@
                        && n.prompt@.len() == request.prompt@.len() && (forall|i: int|
                        0 <= i < n.prompt@.len() ==> (#[trigger] n.prompt@[i])@ == request.prompt@[i]@)
                        && n.login_hint@ == request.login_hint@ && n.max_age == request.max_age
                },
            },
        },
{
    check_authorize_request(request)?;
    check_authorize_client(client, request.redirect_uri.as_str())?;
    Ok(new_auth_request(request))
}

/// Whether an authorization error may be sent back to the client's
/// redirect address: both are given, and the client is active and
/// registered the address.
pub fn allows_authorization_error_redirect(
    client_id: &str,
    redirect_uri: &str,
    client: Option<&ClientMetadata>,
) -> (r: bool)
    ensures
        r == (client_id@.len() > 0 && redirect_uri@.len() > 0 && match client {
            Some(c) => c.state@ == "active"@ && registered(c.redirect_uris@, redirect_uri@),
            None => false,
        }),
{
    if client_id.is_empty() || redirect_uri.is_empty() {
        return false;
    }
    match client {
        Some(c) => str_eq(c.state.as_str(), "active") && is_registered(&c.redirect_uris, redirect_uri),
        None => false,
    }
}

/// The query pairs an authorization error is sent back with: only for
/// `invalid_request` and `unsupported_response_type`; the error, its
/// description where there is one, and the state where it is not empty.
pub fn authorization_error_pairs(error: &ProtocolError, state: &str) -> (r: Option<Vec<(String, String)>>)
    ensures
        (error.body.error@ == "invalid_request"@ || error.body.error@ == "unsupported_response_type"@) <==> r is Some,
        r matches Some(p) ==> pair_views(p@) == seq![("error"@, error.body.error@)] + match error.body.error_description {
            Some(d) => seq![("error_description"@, d@)],
            None => Seq::<(Seq<char>, Seq<char>)>::empty(),
        } + if state@.len() == 0 {
            Seq::<(Seq<char>, Seq<char>)>::empty()
        } else {
            seq![("state"@, state@)]
        },
{
    if !(str_eq(error.body.error.as_str(), "invalid_request") || str_eq(
        error.body.error.as_str(),
        "unsupported_response_type",
    )) {
        return None;
    }
    let mut pairs: Vec<(String, String)> = Vec::new();
    pairs.push((str_to_string("error"), copy_string(&error.body.error)));
    let ghost p1 = pair_views(pairs@);
    if let Some(d) = &error.body.error_description {
        pairs.push((str_to_string("error_description"), copy_string(d)));
    }
    let ghost p2 = pair_views(pairs@);
    if !state.is_empty() {
        pairs.push((str_to_string("state"), str_to_string(state)));
    }
    proof {
        assert(p1 =~= seq![("error"@, error.body.error@)]);
        assert(p2 =~= p1 + match error.body.error_description {
            Some(d) => seq![("error_description"@, d@)],
            None => Seq::<(Seq<char>, Seq<char>)>::empty(),
        });
        assert(pair_views(pairs@) =~= p2 + if state@.len() == 0 {
            Seq::<(Seq<char>, Seq<char>)>::empty()
        } else {
            seq![("state"@, state@)]
        });
    }
    Some(pairs)
}

} // verus!
