//! Unsigned request objects of authorization requests: the compact form is
//! split at its dots, the header and payload are base64url-decoded, only an
//! unsigned object (`alg` `none`, no signature) is accepted, and its claims
//! become authorization parameters.

use vstd::prelude::*;

use base64::Engine;

use crate::num::{spec_decimal, u64_to_decimal};
use crate::oidc::{ProtocolError, is_protocol_error};
use crate::oidc_authorize::{AuthorizeParams, ParamsV, ov};
use crate::text::{chars_of, find_char, index_of, str_eq, string_from_range};

verus! {

/// The bytes that URL-safe, unpadded base64 text stands for, as
/// `base64::engine::general_purpose::URL_SAFE_NO_PAD.decode` reads it;
/// `None` where it rejects the text.
pub uninterp spec fn base64_url_nopad_decoded(text: Seq<char>) -> Option<Seq<u8>>;

/// `URL_SAFE_NO_PAD.decode` of the base64 crate.
#[verifier::external_body]
fn base64_url_nopad_decode(text: &str) -> (r: Option<Vec<u8>>)
    ensures
        match r {
            Some(b) => base64_url_nopad_decoded(text@) == Some(b@),
            None => base64_url_nopad_decoded(text@) is None,
        },
{
    base64::engine::general_purpose::URL_SAFE_NO_PAD.decode(text).ok()
}

pub open spec fn invalid_object_text() -> Seq<char> {
    "invalid request object"@
}

pub open spec fn unsigned_only_text() -> Seq<char> {
    "only unsigned request objects are supported"@
}

/// The segments of `token` cut at its first two dots: header, payload and
/// signature (empty where there is no second dot); `None` where the token
/// has no dot at all.
pub open spec fn spec_segments(token: Seq<char>) -> Option<(Seq<char>, Seq<char>, Seq<char>)> {
    match index_of(token, '.') {
        None => None,
        Some(i) => {
            let rest = token.subrange(i + 1, token.len() as int);
            match index_of(rest, '.') {
                None => Some((token.subrange(0, i), rest, Seq::empty())),
                Some(j) => Some((token.subrange(0, i), rest.subrange(0, j), rest.subrange(j + 1, rest.len() as int))),
            }
        },
    }
}

/// A request object cut into its parts, with the header decoded.
#[derive(Debug)]
pub struct RequestObjectParts {
    pub header: Vec<u8>,
    pub payload: String,
    pub signature: String,
}

/// Cuts `token` into header, payload and signature and decodes the header.
/// A token without a dot, or whose header is not URL-safe unpadded base64,
/// is an invalid request object.
pub fn split_request_object(token: &str) -> (r: Result<RequestObjectParts, ProtocolError>)
    ensures
        match spec_segments(token@) {
            None => r matches Err(e) && is_protocol_error(e, 400, "invalid_request"@, invalid_object_text()),
            Some(seg) => match base64_url_nopad_decoded(seg.0) {
                None => r matches Err(e) && is_protocol_error(e, 400, "invalid_request"@, invalid_object_text()),
                Some(h) => r matches Ok(p) && p.header@ == h && p.payload@ == seg.1 && p.signature@ == seg.2,
            },
        },
{
    proof {
        reveal_strlit("invalid request object");
    }
    let v = chars_of(token);
    let vs = v.as_slice();
    let i = match find_char(vs, '.') {
        Some(i) => i,
        None => {
            return Err(ProtocolError::invalid_request("invalid request object"));
        },
    };
    let n = v.len();
    assert(i < n);
    let header_text = string_from_range(vs, 0, i);
    let rest = string_from_range(vs, i + 1, n);
    let rv = chars_of(rest.as_str());
    let rs = rv.as_slice();
    let m = rv.len();
    let (payload, signature) = match find_char(rs, '.') {
        Some(j) => (string_from_range(rs, 0, j), string_from_range(rs, j + 1, m)),
        None => {
            let empty = String::new();
            proof {
                assert(empty@ =~= Seq::<char>::empty());
            }
            (string_from_range(rs, 0, m), empty)
        },
    };
    proof {
        assert(rv@.subrange(0, rv@.len() as int) =~= rv@);
    }
    match base64_url_nopad_decode(header_text.as_str()) {
        Some(header) => Ok(RequestObjectParts { header, payload, signature }),
        None => Err(ProtocolError::invalid_request("invalid request object")),
    }
}

/// Accepts only an unsigned request object: header algorithm `none` and an
/// empty signature.
pub fn check_request_object_header(alg: &str, signature: &str) -> (r: Result<(), ProtocolError>)
    ensures
        r is Ok <==> (alg@ == "none"@ && signature@.len() == 0),
        r matches Err(e) ==> is_protocol_error(e, 400, "invalid_request"@, unsigned_only_text()),
{
    proof {
        reveal_strlit("only unsigned request objects are supported");
    }
    if !str_eq(alg, "none") || signature.unicode_len() > 0 {
        return Err(ProtocolError::invalid_request("only unsigned request objects are supported"));
    }
    Ok(())
}

/// Decodes the payload of a request object; text that is not URL-safe
/// unpadded base64 is an invalid request object.
pub fn decode_request_object_payload(payload: &str) -> (r: Result<Vec<u8>, ProtocolError>)
    ensures
        match base64_url_nopad_decoded(payload@) {
            None => r matches Err(e) && is_protocol_error(e, 400, "invalid_request"@, invalid_object_text()),
            Some(b) => r matches Ok(v) && v@ == b,
        },
{
    proof {
        reveal_strlit("invalid request object");
    }
    match base64_url_nopad_decode(payload) {
        Some(b) => Ok(b),
        None => Err(ProtocolError::invalid_request("invalid request object")),
    }
}

/// The claims a request object may carry.
#[derive(Debug)]
pub struct RequestObjectClaims {
    pub client_id: Option<String>,
    pub redirect_uri: Option<String>,
    pub response_type: Option<String>,
    pub scope: Option<String>,
    pub state: Option<String>,
    pub nonce: Option<String>,
    pub code_challenge: Option<String>,
    pub code_challenge_method: Option<String>,
    pub prompt: Option<String>,
    pub login_hint: Option<String>,
    pub max_age: Option<u64>,
}

pub open spec fn max_age_text(m: Option<u64>) -> Option<Seq<char>> {
    match m {
        Some(v) => Some(spec_decimal(v as nat)),
        None => None,
    }
}

/// The authorization parameters of a request object's claims: each claim
/// as it stands, `max_age` in decimal, and no nested request.
pub fn authorize_params_from_claims(claims: RequestObjectClaims) -> (r: AuthorizeParams)
    ensures
        r@ == (ParamsV {
            client_id: ov(claims.client_id),
            redirect_uri: ov(claims.redirect_uri),
            response_type: ov(claims.response_type),
            scope: ov(claims.scope),
            state: ov(claims.state),
            nonce: ov(claims.nonce),
            code_challenge: ov(claims.code_challenge),
            code_challenge_method: ov(claims.code_challenge_method),
            prompt: ov(claims.prompt),
            login_hint: ov(claims.login_hint),
            request: None,
            max_age: max_age_text(claims.max_age),
        }),
{
    let max_age = match claims.max_age {
        Some(v) => Some(u64_to_decimal(v)),
        None => None,
    };
    AuthorizeParams {
        client_id: claims.client_id,
        redirect_uri: claims.redirect_uri,
        response_type: claims.response_type,
        scope: claims.scope,
        state: claims.state,
        nonce: claims.nonce,
        code_challenge: claims.code_challenge,
        code_challenge_method: claims.code_challenge_method,
        prompt: claims.prompt,
        login_hint: claims.login_hint,
        request: None,
        max_age,
    }
}

} // verus!
