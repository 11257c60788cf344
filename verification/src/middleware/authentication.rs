//! Authentication of incoming requests: HTTP Basic credentials, an API key in a
//! header, or a JSON Web Token in the Authorization header.
use base64::Engine;
use vstd::prelude::*;

use crate::error::{app_error, AppError};
use crate::headers::{value_text, value_to_text, HeaderList};
use crate::middleware::check::{CheckResult, Denial};
use crate::text::{chars_equal, chars_of, has_prefix, has_substring, str_contains, string_of};

verus! {

/// The HMAC algorithm of a JSON Web Token.
#[derive(Debug, Clone, Copy, PartialEq, Eq)]
pub enum JwtAlgorithm {
    HS256,
    HS384,
    HS512,
}

/// JSON Web Token authentication: the token in `Authorization: Bearer <token>`
/// must verify with the secret and, when given, carry the issuer and audience.
#[derive(Debug, Clone, PartialEq, Eq)]
pub struct JwtAuth {
    pub secret: String,
    pub algorithm: JwtAlgorithm,
    pub issuer: Option<String>,
    pub audience: Option<String>,
}

/// HTTP Basic authentication against `user:password` credentials.
#[derive(Debug, Clone, PartialEq, Eq)]
pub struct BasicAuth {
    pub credentials: String,
}

/// Authentication by the exact value of one header.
#[derive(Debug, Clone, PartialEq, Eq)]
pub struct ApiKeyAuth {
    pub key: String,
    pub value: String,
}

/// The authentication scheme of a route.
#[derive(Debug, Clone, PartialEq, Eq)]
pub enum Authentication {
    Basic(BasicAuth),
    ApiKey(ApiKeyAuth),
    Jwt(JwtAuth),
}

impl Default for JwtAlgorithm {
    fn default() -> (r: Self)
        ensures
            r == JwtAlgorithm::HS256,
    {
        JwtAlgorithm::HS256
    }
}

impl Default for JwtAuth {
    fn default() -> (r: Self)
        ensures
            r.secret@ == Seq::<char>::empty(),
            r.algorithm == JwtAlgorithm::HS256,
            r.issuer is None,
            r.audience is None,
    {
        JwtAuth { secret: String::new(), algorithm: JwtAlgorithm::HS256, issuer: None, audience: None }
    }
}

impl Default for BasicAuth {
    fn default() -> (r: Self)
        ensures
            r.credentials@ == Seq::<char>::empty(),
    {
        BasicAuth { credentials: String::new() }
    }
}

impl Default for ApiKeyAuth {
    fn default() -> (r: Self)
        ensures
            r.key@ == Seq::<char>::empty(),
            r.value@ == Seq::<char>::empty(),
    {
        ApiKeyAuth { key: String::new(), value: String::new() }
    }
}

/// The standard base64 encoding, without padding, of the UTF-8 bytes of a text.
pub uninterp spec fn base64_no_pad(text: Seq<char>) -> Seq<char>;

/// `base64::engine::general_purpose::STANDARD_NO_PAD.encode` of the text's
/// UTF-8 bytes; the encoding is named.
#[verifier::external_body]
fn encode_base64_no_pad(text: &str) -> (r: String)
    ensures
        r@ == base64_no_pad(text@),
{
    base64::engine::general_purpose::STANDARD_NO_PAD.encode(text)
}

/// The text holds at least two dots: the separators of a token's header,
/// payload and signature.
pub open spec fn has_two_dots(token: Seq<char>) -> bool {
    exists|i: int, j: int| 0 <= i < j < token.len() && token[i] == '.' && token[j] == '.'
}

/// What a token check hands to `jsonwebtoken`: the token, the shared secret,
/// the algorithm, and the issuer and audience to require, when there are any.
#[derive(Debug, Clone)]
pub struct JwtRequest {
    pub token: String,
    pub secret: String,
    pub algorithm: JwtAlgorithm,
    pub issuer: Option<String>,
    pub audience: Option<String>,
}

/// `jsonwebtoken::decode::<serde_json::Value>` of the request's token, with
/// `DecodingKey::from_secret` of the secret's bytes and `Validation::new` of the
/// algorithm, its accepted issuers and audiences set to the one given (as
/// `set_issuer` and `set_audience` set them) or left unset: whether the token
/// is accepted. `decode` splits the token at its last two dots and refuses it
/// when they are missing, so an accepted token holds two dots. Whether the
/// signature and claims pass is not stated: the expiry check reads the current
/// time (and `jsonwebtoken` panics when the system clock reads before 1970).
#[verifier::external_body]
fn jwt_decodes(req: &JwtRequest) -> (r: bool)
    ensures
        r ==> has_two_dots(req.token@),
{
    let algorithm = match req.algorithm {
        JwtAlgorithm::HS256 => jsonwebtoken::Algorithm::HS256,
        JwtAlgorithm::HS384 => jsonwebtoken::Algorithm::HS384,
        JwtAlgorithm::HS512 => jsonwebtoken::Algorithm::HS512,
    };
    let mut validation = jsonwebtoken::Validation::new(algorithm);
    validation.iss = req.issuer.clone().map(|i| std::collections::HashSet::from([i]));
    validation.aud = req.audience.clone().map(|a| std::collections::HashSet::from([a]));
    let key = jsonwebtoken::DecodingKey::from_secret(req.secret.as_bytes());
    jsonwebtoken::decode::<serde_json::Value>(&req.token, &key, &validation).is_ok()
}

/// The request holds the token and, unchanged, the secret, algorithm, issuer
/// and audience of the configuration.
pub open spec fn is_jwt_request(req: JwtRequest, auth: JwtAuth, token: Seq<char>) -> bool {
    &&& req.token@ == token
    &&& req.secret@ == auth.secret@
    &&& req.algorithm == auth.algorithm
    &&& req.issuer == auth.issuer
    &&& req.audience == auth.audience
}

/// The message of a header value that is not visible ASCII.
pub open spec fn to_str_error() -> Seq<char> {
    "failed to convert header to a str"@
}

/// An Authorization value that splits on spaces into exactly `Basic` and
/// `encoded`: it is `Basic ` followed by `encoded`, and `encoded` holds no space.
pub open spec fn basic_value_matches(value: Seq<char>, encoded: Seq<char>) -> bool {
    has_prefix(value, "Basic "@) && value.skip(6) == encoded && !has_substring(encoded, " "@)
}

/// The token of an `Authorization: Bearer <token>` header, if there is one.
pub open spec fn bearer_token_of(headers: HeaderList) -> Option<Seq<char>> {
    match headers.spec_get("Authorization"@) {
        None => None,
        Some(v) => match value_text(v) {
            None => None,
            Some(t) => if has_prefix(t, "Bearer "@) {
                Some(t.skip(7))
            } else {
                None
            },
        },
    }
}

impl BasicAuth {
    /// Whether the request carries these credentials, or the error of an unreadable header.
    pub open spec fn spec_check(self, headers: HeaderList) -> Result<bool, Seq<char>> {
        match headers.spec_get("Authorization"@) {
            None => Ok(false),
            Some(v) => match value_text(v) {
                None => Err(to_str_error()),
                Some(t) => Ok(basic_value_matches(t, base64_no_pad(self.credentials@))),
            },
        }
    }

    /// Whether `Authorization` is `Basic` and the base64 (unpadded) of the credentials.
    pub fn check_authentication(&mut self, headers: &HeaderList) -> (r: Result<bool, AppError>)
        ensures
            *final(self) == *old(self),
            match old(self).spec_check(*headers) {
                Ok(b) => r matches Ok(x) && x == b,
                Err(m) => r matches Err(e) && e.0@ == m,
            },
    {
        if headers.is_empty() || !headers.contains_key("Authorization") {
            return Ok(false);
        }
        let raw = match headers.get("Authorization") {
            Some(v) => v,
            None => {
                return Err(app_error("Can not find Authorization"));
            },
        };
        let value = match value_to_text(raw.as_slice()) {
            Some(t) => t,
            None => {
                return Err(app_error("failed to convert header to a str"));
            },
        };
        let encoded = encode_base64_no_pad(self.credentials.as_str());
        let vc = chars_of(value.as_str());
        let prefix = chars_of("Basic ");
        proof {
            reveal_strlit("Basic ");
        }
        if !crate::text::chars_start_with(vc.as_slice(), prefix.as_slice()) {
            return Ok(false);
        }
        let mut rest: Vec<char> = Vec::new();
        let mut j: usize = 6;
        while j < vc.len()
            invariant
                6 <= j <= vc@.len(),
                rest@ == vc@.subrange(6, j as int),
            decreases vc@.len() - j,
        {
            rest.push(vc[j]);
            assert(vc@.subrange(6, j + 1) =~= vc@.subrange(6, j as int).push(vc@[j as int]));
            j = j + 1;
        }
        assert(rest@ =~= vc@.skip(6));
        let rest_text = string_of(rest.as_slice());
        if str_contains(rest_text.as_str(), " ") {
            return Ok(false);
        }
        let ec = chars_of(encoded.as_str());
        Ok(chars_equal(rest.as_slice(), ec.as_slice()))
    }
}

impl ApiKeyAuth {
    /// Whether the request carries the key's header with exactly this value, or
    /// the error of an unreadable header.
    pub open spec fn spec_check(self, headers: HeaderList) -> Result<bool, Seq<char>> {
        match headers.spec_get(self.key@) {
            None => Ok(false),
            Some(v) => match value_text(v) {
                None => Err(to_str_error()),
                Some(t) => Ok(t == self.value@),
            },
        }
    }

    /// Whether the header named by `key` holds exactly `value` (case-sensitive).
    pub fn check_authentication(&mut self, headers: &HeaderList) -> (r: Result<bool, AppError>)
        ensures
            *final(self) == *old(self),
            match old(self).spec_check(*headers) {
                Ok(b) => r matches Ok(x) && x == b,
                Err(m) => r matches Err(e) && e.0@ == m,
            },
    {
        if headers.is_empty() || !headers.contains_key(self.key.as_str()) {
            return Ok(false);
        }
        let raw = match headers.get(self.key.as_str()) {
            Some(v) => v,
            None => {
                return Err(app_error("Can not find key"));
            },
        };
        match value_to_text(raw.as_slice()) {
            None => Err(app_error("failed to convert header to a str")),
            Some(t) => {
                let a = chars_of(t.as_str());
                let b = chars_of(self.value.as_str());
                Ok(chars_equal(a.as_slice(), b.as_slice()))
            },
        }
    }
}

impl JwtAuth {
    /// The token of an `Authorization: Bearer <token>` header, if there is one.
    pub fn bearer_token(headers: &HeaderList) -> (r: Option<String>)
        ensures
            match r {
                Some(t) => bearer_token_of(*headers) == Some(t@),
                None => bearer_token_of(*headers) is None,
            },
    {
        let raw = match headers.get("Authorization") {
            Some(v) => v,
            None => {
                return None;
            },
        };
        let value = match value_to_text(raw.as_slice()) {
            Some(t) => t,
            None => {
                return None;
            },
        };
        let vc = chars_of(value.as_str());
        let prefix = chars_of("Bearer ");
        if !crate::text::chars_start_with(vc.as_slice(), prefix.as_slice()) {
            return None;
        }
        proof {
            reveal_strlit("Bearer ");
        }
        let mut rest: Vec<char> = Vec::new();
        let mut j: usize = 7;
        while j < vc.len()
            invariant
                7 <= j <= vc@.len(),
                rest@ == vc@.subrange(7, j as int),
            decreases vc@.len() - j,
        {
            rest.push(vc[j]);
            assert(vc@.subrange(7, j + 1) =~= vc@.subrange(7, j as int).push(vc@[j as int]));
            j = j + 1;
        }
        assert(rest@ =~= vc@.skip(7));
        Some(string_of(rest.as_slice()))
    }

    /// What the token check of a request hands to `jsonwebtoken`: nothing
    /// without a bearer token; else the token with this configuration.
    pub fn jwt_request(&self, headers: &HeaderList) -> (r: Option<JwtRequest>)
        ensures
            match bearer_token_of(*headers) {
                None => r is None,
                Some(t) => r matches Some(q) && is_jwt_request(q, *self, t),
            },
    {
        match JwtAuth::bearer_token(headers) {
            None => None,
            Some(token) => {
                let issuer = match &self.issuer {
                    Some(i) => Some(i.clone()),
                    None => None,
                };
                let audience = match &self.audience {
                    Some(a) => Some(a.clone()),
                    None => None,
                };
                Some(
                    JwtRequest {
                        token,
                        secret: self.secret.clone(),
                        algorithm: self.algorithm,
                        issuer,
                        audience,
                    },
                )
            },
        }
    }

    /// Whether the bearer token verifies. Without a bearer token the request is
    /// not authenticated; with one, `jsonwebtoken` checks the request that
    /// `jwt_request` builds, and its verdict is returned. This check never fails
    /// with an error.
    pub fn check_authentication(&mut self, headers: &HeaderList) -> (r: Result<bool, AppError>)
        ensures
            *final(self) == *old(self),
            r is Ok,
            bearer_token_of(*headers) is None ==> r == Ok::<bool, AppError>(false),
            r == Ok::<bool, AppError>(true) ==> (bearer_token_of(*headers) matches Some(t)
                && has_two_dots(t)),
    {
        match self.jwt_request(headers) {
            None => Ok(false),
            Some(req) => Ok(jwt_decodes(&req)),
        }
    }
}

impl Authentication {
    /// Checks the request by the configured scheme.
    pub fn check_authentication(&mut self, headers: &HeaderList) -> (r: Result<bool, AppError>)
        ensures
            *final(self) == *old(self),
            match *old(self) {
                Authentication::Basic(a) => match a.spec_check(*headers) {
                    Ok(b) => r matches Ok(x) && x == b,
                    Err(m) => r matches Err(e) && e.0@ == m,
                },
                Authentication::ApiKey(a) => match a.spec_check(*headers) {
                    Ok(b) => r matches Ok(x) && x == b,
                    Err(m) => r matches Err(e) && e.0@ == m,
                },
                Authentication::Jwt(_) => r is Ok && (bearer_token_of(*headers) is None ==> r
                    == Ok::<bool, AppError>(false)) && (r == Ok::<bool, AppError>(true) ==> (
                bearer_token_of(*headers) matches Some(t) && has_two_dots(t))),
            },
    {
        match self {
            Authentication::Basic(auth) => auth.check_authentication(headers),
            Authentication::ApiKey(auth) => auth.check_authentication(headers),
            Authentication::Jwt(auth) => auth.check_authentication(headers),
        }
    }

    /// The verdict on a request: refused with status 401 and "Authentication
    /// failed" when it does not authenticate; let through when there are no headers.
    pub fn check_request(&mut self, headers_option: Option<&HeaderList>) -> (r: Result<
        CheckResult,
        AppError,
    >)
        ensures
            *final(self) == *old(self),
            headers_option is None ==> r matches Ok(CheckResult::Allowed),
            r matches Ok(CheckResult::Denied(d)) ==> d.status == 401 && d.headers@.len() == 0
                && d.body@ == "Authentication failed"@,
            headers_option matches Some(h) ==> match *old(self) {
                Authentication::Basic(a) => match a.spec_check(*h) {
                    Ok(b) => if b {
                        r matches Ok(CheckResult::Allowed)
                    } else {
                        r matches Ok(CheckResult::Denied(_))
                    },
                    Err(m) => r matches Err(e) && e.0@ == m,
                },
                Authentication::ApiKey(a) => match a.spec_check(*h) {
                    Ok(b) => if b {
                        r matches Ok(CheckResult::Allowed)
                    } else {
                        r matches Ok(CheckResult::Denied(_))
                    },
                    Err(m) => r matches Err(e) && e.0@ == m,
                },
                Authentication::Jwt(_) => r is Ok && (bearer_token_of(*h) is None ==> r matches Ok(
                    CheckResult::Denied(_),
                )) && (r matches Ok(CheckResult::Allowed) ==> (bearer_token_of(*h) matches Some(t)
                    && has_two_dots(t))),
            },
    {
        match headers_option {
            None => Ok(CheckResult::Allowed),
            Some(header_map) => {
                match self.check_authentication(header_map) {
                    Err(e) => Err(e),
                    Ok(true) => Ok(CheckResult::Allowed),
                    Ok(false) => Ok(
                        CheckResult::Denied(
                            Denial {
                                status: 401,
                                headers: HeaderList::new(),
                                body: "Authentication failed".to_owned(),
                            },
                        ),
                    ),
                }
            },
        }
    }
}

} // verus!
