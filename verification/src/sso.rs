//! Signing in through an external identity provider: which providers may be
//! used, how the call back is checked, and which local account an external
//! identity signs in as.

use vstd::prelude::*;

use crate::json::{get_str, spec_get_str, JsonValue};
use crate::login::{form_encode, urlencoding_encode};
use crate::oidc_rp::{RpProviderSpec, VerifiedExternalIdentity};
use crate::text::{ascii_lower, chars_of, concat4, copy_string, lower_char, str_eq, str_to_string};
use vstd::utf8::encode_utf8;

verus! {

/// How an external identity may be matched to an existing account.
#[derive(Clone, Copy, Debug, PartialEq, Eq, Structural)]
pub enum ProviderMatchBy {
    VerifiedEmail,
    Identifier,
    Nothing,
}

/// How a provider reaches its upstream: issuer, client and scopes.
#[derive(Debug)]
pub struct ProviderConnection {
    pub issuer: String,
    pub client_id: String,
    pub client_secret: String,
    pub scopes: Vec<String>,
    pub token_endpoint_auth_method: String,
}

/// Checks that a provider may start a sign-in here: it is enabled and
/// speaks OpenID Connect.
pub fn check_provider(enabled: bool, protocol: &str) -> (r: Result<(), String>)
    ensures
        !enabled ==> (r matches Err(m) && m@ == "provider disabled"@),
        enabled && protocol@ != "oidc"@ ==> (r matches Err(m) && m@
            == "provider protocol is not supported by this endpoint"@),
        enabled && protocol@ == "oidc"@ ==> r is Ok,
{
    if !enabled {
        return Err(str_to_string("provider disabled"));
    }
    if !str_eq(protocol, "oidc") {
        return Err(str_to_string("provider protocol is not supported by this endpoint"));
    }
    Ok(())
}

fn copy_strings(v: &Vec<String>) -> (r: Vec<String>)
    ensures
        r@.len() == v@.len(),
        forall|i: int| 0 <= i < r@.len() ==> (#[trigger] r@[i])@ == v@[i]@,
{
    let mut out: Vec<String> = Vec::new();
    let mut i: usize = 0;
    while i < v.len()
        invariant
            i <= v@.len(),
            out@.len() == i,
            forall|j: int| 0 <= j < i ==> (#[trigger] out@[j])@ == v@[j]@,
        decreases v.len() - i,
    {
        out.push(copy_string(&v[i]));
        i = i + 1;
    }
    out
}

/// The relying-party view of a provider; it needs an issuer and a client.
pub fn provider_to_rp_spec(provider_id: &str, connection: &ProviderConnection) -> (r: Result<RpProviderSpec, String>)
    ensures
        (connection.issuer@.len() == 0 || connection.client_id@.len() == 0) ==> (r matches Err(m) && m@
            == "provider missing issuer or client_id"@),
        (connection.issuer@.len() > 0 && connection.client_id@.len() > 0) ==> (r matches Ok(s) && {
            &&& s.provider_id@ == provider_id@
            &&& s.issuer@ == connection.issuer@
            &&& s.client_id@ == connection.client_id@
            &&& s.client_secret@ == connection.client_secret@
            &&& s.scopes@.len() == connection.scopes@.len()
            &&& forall|i: int| 0 <= i < s.scopes@.len() ==> (#[trigger] s.scopes@[i])@ == connection.scopes@[i]@
            &&& s.token_endpoint_auth_method@ == connection.token_endpoint_auth_method@
        }),
{
    if connection.issuer.as_str().is_empty() || connection.client_id.as_str().is_empty() {
        return Err(str_to_string("provider missing issuer or client_id"));
    }
    Ok(
        RpProviderSpec {
            provider_id: str_to_string(provider_id),
            issuer: copy_string(&connection.issuer),
            client_id: copy_string(&connection.client_id),
            client_secret: copy_string(&connection.client_secret),
            scopes: copy_strings(&connection.scopes),
            token_endpoint_auth_method: copy_string(&connection.token_endpoint_auth_method),
        },
    )
}

/// Checks the provider's call back: an upstream error ends the sign-in with
/// its description; a state and a code are required.
pub fn check_callback_params(code: &str, state: &str, error: &str, error_description: &str) -> (r: Result<
    (),
    String,
>)
    ensures
        error@.len() > 0 ==> (r matches Err(m) && m@ == error_description@),
        error@.len() == 0 && (state@.len() == 0 || code@.len() == 0) ==> (r matches Err(m) && m@
            == "missing state or code"@),
        error@.len() == 0 && state@.len() > 0 && code@.len() > 0 ==> r is Ok,
{
    if !error.is_empty() {
        return Err(str_to_string(error_description));
    }
    if state.is_empty() || code.is_empty() {
        return Err(str_to_string("missing state or code"));
    }
    Ok(())
}

/// Whether `pat` occurs in `s`.
pub open spec fn occurs_in(pat: Seq<char>, s: Seq<char>) -> bool {
    exists|i: int| 0 <= i && i + pat.len() <= s.len() && #[trigger] s.subrange(i, i + pat.len()) == pat
}

/// The error code a failed upstream exchange is reported with: `sso_nonce`
/// where its description mentions a nonce in any case, else `sso_token`.
pub fn rp_error_code(description: &str) -> (r: &'static str)
    ensures
        r@ == if occurs_in("nonce"@, description@.map_values(|c: char| ascii_lower(c))) {
            "sso_nonce"@
        } else {
            "sso_token"@
        },
{
    let v = chars_of(description);
    let mut low: Vec<char> = Vec::new();
    let mut i: usize = 0;
    while i < v.len()
        invariant
            i <= v@.len(),
            v@ == description@,
            low@ == v@.subrange(0, i as int).map_values(|c: char| ascii_lower(c)),
        decreases v.len() - i,
    {
        let l = lower_char(v[i]);
        low.push(l);
        i = i + 1;
        proof {
            assert(low@ =~= v@.subrange(0, i as int).map_values(|c: char| ascii_lower(c)));
        }
    }
    proof {
        assert(v@.subrange(0, v@.len() as int) =~= v@);
        reveal_strlit("nonce");
    }
    let ghost pat = seq!['n', 'o', 'n', 'c', 'e'];
    assert(pat =~= "nonce"@);
    let ghost lowered = description@.map_values(|c: char| ascii_lower(c));
    assert(low@ =~= lowered);
    let mut j: usize = 0;
    while low.len() >= 5 && j <= low.len() - 5
        invariant
            pat == "nonce"@,
            pat == seq!['n', 'o', 'n', 'c', 'e'],
            low@ == lowered,
            lowered == description@.map_values(|c: char| ascii_lower(c)),
            forall|k: int| 0 <= k < j ==> #[trigger] low@.subrange(k, k + 5) != pat,
        decreases low.len() - j,
    {
        if low[j] == 'n' && low[j + 1] == 'o' && low[j + 2] == 'n' && low[j + 3] == 'c' && low[j + 4] == 'e' {
            proof {
                assert(low@.subrange(j as int, j + 5) =~= pat);
                assert(occurs_in("nonce"@, lowered));
            }
            return "sso_nonce";
        }
        proof {
            assert(low@.subrange(j as int, j + 5)[0] == low@[j as int]);
            assert(low@.subrange(j as int, j + 5)[1] == low@[j + 1]);
            assert(low@.subrange(j as int, j + 5)[2] == low@[j + 2]);
            assert(low@.subrange(j as int, j + 5)[3] == low@[j + 3]);
            assert(low@.subrange(j as int, j + 5)[4] == low@[j + 4]);
        }
        j = j + 1;
    }
    proof {
        assert forall|k: int| 0 <= k && k + 5 <= low@.len() implies #[trigger] low@.subrange(k, k + 5) != pat by {
            assert(k < j);
        }
        assert(!occurs_in("nonce"@, lowered));
    }
    "sso_token"
}

/// Where a failed external sign-in sends the browser: the login page with
/// the error code and description, form-encoded.
pub fn login_error_redirect(code: &str, description: &str) -> (r: String)
    ensures
        r@ == "/login?error="@ + form_encode(encode_utf8(code@)) + "&error_description="@ + form_encode(
            encode_utf8(description@),
        ),
{
    let c = urlencoding_encode(code);
    let d = urlencoding_encode(description);
    concat4("/login?error=", c.as_str(), "&error_description=", d.as_str())
}

/// A non-empty string of a mapped profile.
pub open spec fn spec_profile_string(profile: JsonValue, key: Seq<char>) -> Option<Seq<char>> {
    match spec_get_str(profile, key) {
        Some(s) => if s.len() > 0 {
            Some(s)
        } else {
            None
        },
        None => None,
    }
}

/// The non-empty string `key` of a mapped profile.
pub fn profile_string(profile: &JsonValue, key: &str) -> (r: Option<String>)
    ensures
        match r {
            Some(s) => spec_profile_string(*profile, key@) == Some(s@),
            None => spec_profile_string(*profile, key@) is None,
        },
{
    match get_str(profile, key) {
        Some(s) => if s.as_str().is_empty() {
            None
        } else {
            Some(copy_string(s))
        },
        None => None,
    }
}

pub open spec fn or_else(a: Option<Seq<char>>, b: Option<Seq<char>>) -> Option<Seq<char>> {
    match a {
        Some(x) => Some(x),
        None => b,
    }
}

/// The identifier an external identity is matched to an existing account
/// by: its email where the provider vouches for it, or the profile's email,
/// else its username, else the identity's email.
pub open spec fn spec_match_identifier(
    match_by: ProviderMatchBy,
    email: Seq<char>,
    email_verified: bool,
    profile: JsonValue,
) -> Option<Seq<char>> {
    match match_by {
        ProviderMatchBy::VerifiedEmail => if email_verified && email.len() > 0 {
            Some(email)
        } else {
            None
        },
        ProviderMatchBy::Identifier => or_else(
            spec_profile_string(profile, "email"@),
            or_else(
                spec_profile_string(profile, "username"@),
                if email.len() == 0 {
                    None
                } else {
                    Some(email)
                },
            ),
        ),
        ProviderMatchBy::Nothing => None,
    }
}

/// The identifier to look an existing account up by, if the provider
/// matches accounts at all.
pub fn match_identifier(match_by: ProviderMatchBy, identity: &VerifiedExternalIdentity, profile: &JsonValue) -> (r:
    Option<String>)
    ensures
        match r {
            Some(s) => spec_match_identifier(match_by, identity.email@, identity.email_verified, *profile) == Some(s@),
            None => spec_match_identifier(match_by, identity.email@, identity.email_verified, *profile) is None,
        },
{
    match match_by {
        ProviderMatchBy::VerifiedEmail => if identity.email_verified && !identity.email.as_str().is_empty() {
            Some(copy_string(&identity.email))
        } else {
            None
        },
        ProviderMatchBy::Identifier => match profile_string(profile, "email") {
            Some(e) => Some(e),
            None => match profile_string(profile, "username") {
                Some(u) => Some(u),
                None => if identity.email.as_str().is_empty() {
                    None
                } else {
                    Some(copy_string(&identity.email))
                },
            },
        },
        ProviderMatchBy::Nothing => None,
    }
}

/// The identifier of an account created for an external identity: the
/// profile's email, else its username, else the identity's email, else its
/// subject.
pub open spec fn spec_new_identifier(email: Seq<char>, subject: Seq<char>, profile: JsonValue) -> Seq<char> {
    match or_else(spec_profile_string(profile, "email"@), spec_profile_string(profile, "username"@)) {
        Some(s) => s,
        None => if email.len() == 0 {
            subject
        } else {
            email
        },
    }
}

/// The identifier and display name of an account created for an external
/// identity; the display name falls back to the identifier.
pub fn new_account_names(identity: &VerifiedExternalIdentity, profile: &JsonValue) -> (r: (String, String))
    ensures
        r.0@ == spec_new_identifier(identity.email@, identity.subject@, *profile),
        r.1@ == match spec_profile_string(*profile, "display_name"@) {
            Some(d) => d,
            None => r.0@,
        },
{
    let identifier = match profile_string(profile, "email") {
        Some(e) => e,
        None => match profile_string(profile, "username") {
            Some(u) => u,
            None => if identity.email.as_str().is_empty() {
                copy_string(&identity.subject)
            } else {
                copy_string(&identity.email)
            },
        },
    };
    let display = match profile_string(profile, "display_name") {
        Some(d) => d,
        None => copy_string(&identifier),
    };
    (identifier, display)
}

/// What signing in with an external identity does.
#[derive(Debug)]
pub enum IdentityAction {
    /// The identity is linked already: sign in as its account.
    UseLinked { user_id: String },
    /// Link the identity to the matching account and sign in as it.
    LinkExisting { user_id: String },
    /// Create an account for the identity and link it.
    CreateAccount,
}

/// Decides which account an external identity signs in as, given the
/// account it is linked to and the account it matches (as looked up in that
/// order); a link-only provider creates no account.
pub fn resolve_identity(linked_user: Option<String>, matched_user: Option<String>, link_only: bool) -> (r: Result<
    IdentityAction,
    String,
>)
    ensures
        match linked_user {
            Some(u) => r matches Ok(IdentityAction::UseLinked { user_id }) && user_id == u,
            None => match matched_user {
                Some(u) => r matches Ok(IdentityAction::LinkExisting { user_id }) && user_id == u,
                None => if link_only {
                    r matches Err(m) && m@ == "no linked account found and provider is link_only"@
                } else {
                    r matches Ok(IdentityAction::CreateAccount)
                },
            },
        },
{
    match linked_user {
        Some(user_id) => Ok(IdentityAction::UseLinked { user_id }),
        None => match matched_user {
            Some(user_id) => Ok(IdentityAction::LinkExisting { user_id }),
            None => if link_only {
                Err(str_to_string("no linked account found and provider is link_only"))
            } else {
                Ok(IdentityAction::CreateAccount)
            },
        },
    }
}

/// Where the schema of accounts created through a provider comes from.
#[derive(Debug)]
pub enum SchemaLookup {
    ById { schema_id: String },
    ByType { schema_type: String },
    Bundled,
}

/// The configured schema id, else the configured schema type, else the
/// bundled schema.
pub fn schema_lookup(schema_id: &str, schema_type: &str) -> (r: SchemaLookup)
    ensures
        schema_id@.len() > 0 ==> (r matches SchemaLookup::ById { schema_id: s } && s@ == schema_id@),
        schema_id@.len() == 0 && schema_type@.len() > 0 ==> (r matches SchemaLookup::ByType { schema_type: t }
            && t@ == schema_type@),
        schema_id@.len() == 0 && schema_type@.len() == 0 ==> r is Bundled,
{
    if !schema_id.is_empty() {
        SchemaLookup::ById { schema_id: str_to_string(schema_id) }
    } else if !schema_type.is_empty() {
        SchemaLookup::ByType { schema_type: str_to_string(schema_type) }
    } else {
        SchemaLookup::Bundled
    }
}

/// The bundled schema a provider falls back to: its schema type, or
/// `human_user`.
pub fn bundled_schema_name(schema_type: &str) -> (r: String)
    ensures
        r@ == if schema_type@.len() == 0 {
            "human_user"@
        } else {
            schema_type@
        },
{
    if schema_type.is_empty() {
        str_to_string("human_user")
    } else {
        str_to_string(schema_type)
    }
}

} // verus!
