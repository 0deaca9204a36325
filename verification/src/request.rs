//! The request builder: resolves a step's declared method, endpoint, auth
//! kind and payload into a concrete request — method parsed
//! case-insensitively, auth turned into a header, every variable substituted
//! into the payload, and a JSON content type always set.

use vstd::prelude::*;
use crate::json::{JsonValue, subst_model};
use crate::step::Step;
use crate::store::VarStore;
use crate::text::{spec_starts_with, starts_with, str_eq};

verus! {

/// The HTTP methods a step may declare.
#[derive(Clone, Copy, PartialEq, Eq, Structural, Debug)]
pub enum Method {
    Get,
    Post,
    Put,
    Delete,
    Patch,
}

/// Why a step's request cannot be built.
#[derive(Clone, Copy, PartialEq, Eq, Structural, Debug)]
pub enum BuildError {
    UnsupportedMethod,
    UnknownAuthKind,
}

/// A step resolved into something dispatchable: method, full URL, headers in
/// order, and the payload with variables substituted.
pub struct ResolvedRequest {
    pub method: Method,
    pub url: String,
    pub headers: Vec<(String, String)>,
    pub payload: Option<JsonValue>,
}

/// Whether `s` is `upper` up to ASCII letter case (`upper` is written in
/// upper case).
pub open spec fn matches_ci(s: Seq<char>, upper: Seq<char>) -> bool {
    s.len() == upper.len() && forall|i: int|
        0 <= i < s.len() ==> (s[i] == upper[i] || (97 <= #[trigger] s[i] as u32 <= 122 && s[i]
            as u32 - 32 == upper[i] as u32))
}

/// The method a declared text names, case-insensitively; any other text is
/// unsupported.
pub open spec fn parse_method(s: Seq<char>) -> Option<Method> {
    if matches_ci(s, "GET"@) {
        Some(Method::Get)
    } else if matches_ci(s, "POST"@) {
        Some(Method::Post)
    } else if matches_ci(s, "PUT"@) {
        Some(Method::Put)
    } else if matches_ci(s, "DELETE"@) {
        Some(Method::Delete)
    } else if matches_ci(s, "PATCH"@) {
        Some(Method::Patch)
    } else {
        None
    }
}

/// Whether `s` equals the upper-case keyword `upper` up to ASCII letter case.
fn eq_ignore_ascii_case(s: &str, upper: &str) -> (r: bool)
    ensures
        r == matches_ci(s@, upper@),
{
    let ls = s.unicode_len();
    let lu = upper.unicode_len();
    if ls != lu {
        return false;
    }
    let mut i: usize = 0;
    while i < ls
        invariant
            i <= ls,
            ls == s@.len() && ls == upper@.len(),
            forall|k: int|
                0 <= k < i ==> (s@[k] == upper@[k] || (97 <= #[trigger] s@[k] as u32 <= 122
                    && s@[k] as u32 - 32 == upper@[k] as u32)),
        decreases ls - i,
    {
        let c = s.get_char(i);
        let u = upper.get_char(i);
        let cv = c as u32;
        let uv = u as u32;
        let ok = if 97 <= cv && cv <= 122 {
            c == u || cv - 32 == uv
        } else {
            c == u
        };
        if !ok {
            return false;
        }
        i = i + 1;
    }
    true
}

/// The method a declared text names, if any.
pub fn method_from_str(s: &str) -> (r: Option<Method>)
    ensures
        r == parse_method(s@),
{
    if eq_ignore_ascii_case(s, "GET") {
        Some(Method::Get)
    } else if eq_ignore_ascii_case(s, "POST") {
        Some(Method::Post)
    } else if eq_ignore_ascii_case(s, "PUT") {
        Some(Method::Put)
    } else if eq_ignore_ascii_case(s, "DELETE") {
        Some(Method::Delete)
    } else if eq_ignore_ascii_case(s, "PATCH") {
        Some(Method::Patch)
    } else {
        None
    }
}

/// The value substitution reads for the reserved `jwt_token` variable: its
/// bound value, or empty when it is unbound (an empty bearer token is sent
/// as-is by design).
pub open spec fn jwt_of(vars: Map<Seq<char>, Seq<char>>) -> Seq<char> {
    if vars.contains_key("jwt_token"@) {
        vars["jwt_token"@]
    } else {
        Seq::empty()
    }
}

/// The authorization header a declared auth kind yields: `None` for an
/// unknown kind, `Some(None)` for no header, `Some(Some(h))` for one header.
pub open spec fn auth_header(auth: Seq<char>, admin_key: Seq<char>, jwt: Seq<char>) -> Option<
    Option<(Seq<char>, Seq<char>)>,
> {
    if auth == "none"@ {
        Some(None)
    } else if auth == "admin"@ {
        Some(Some(("api-key"@, admin_key)))
    } else if auth == "jwt"@ {
        Some(Some(("Authorization"@, "Bearer "@ + jwt)))
    } else if spec_starts_with(auth, "Bearer "@) {
        Some(Some(("Authorization"@, auth)))
    } else if spec_starts_with(auth, "api-key:"@) {
        Some(Some(("api-key"@, auth.skip("api-key:"@.len() as int))))
    } else {
        None
    }
}

/// The header list of a built request: the JSON content type first, then the
/// auth header when the auth kind yields one.
pub open spec fn request_headers(h: Option<(Seq<char>, Seq<char>)>) -> Seq<(Seq<char>, Seq<char>)> {
    match h {
        None => seq![("Content-Type"@, "application/json"@)],
        Some(hd) => seq![("Content-Type"@, "application/json"@), hd],
    }
}

/// The name-value views of a header list.
pub open spec fn header_views(hs: Seq<(String, String)>) -> Seq<(Seq<char>, Seq<char>)> {
    Seq::new(hs.len(), |i: int| (hs[i].0@, hs[i].1@))
}

/// Resolves `step` against the store and the process-wide settings into a
/// dispatchable request, or says exactly why it cannot be.
pub fn build_request(step: &Step, vars: &VarStore, base_url: &str, admin_key: &str) -> (r: Result<
    ResolvedRequest,
    BuildError,
>)
    ensures
        match r {
            Ok(req) => {
                &&& parse_method(step.method@) == Some(req.method)
                &&& req.url@ == base_url@ + step.endpoint@
                &&& match auth_header(step.auth@, admin_key@, jwt_of(vars@)) {
                    Some(h) => header_views(req.headers@) == request_headers(h),
                    None => false,
                }
                &&& match step.payload {
                    Some(p) => req.payload matches Some(q) && q@ == subst_model(p@, vars@),
                    None => req.payload is None,
                }
            },
            Err(BuildError::UnsupportedMethod) => parse_method(step.method@) is None,
            Err(BuildError::UnknownAuthKind) => parse_method(step.method@) is Some && auth_header(
                step.auth@,
                admin_key@,
                jwt_of(vars@),
            ) is None,
        },
{
    let method = match method_from_str(step.method.as_str()) {
        Some(m) => m,
        None => {
            return Err(BuildError::UnsupportedMethod);
        }
    };
    let mut url = base_url.to_owned();
    url.append(step.endpoint.as_str());
    let mut headers: Vec<(String, String)> = Vec::new();
    headers.push((String::from_str("Content-Type"), String::from_str("application/json")));
    let auth = step.auth.as_str();
    if str_eq(auth, "none") {
        // no auth header
    } else if str_eq(auth, "admin") {
        headers.push((String::from_str("api-key"), admin_key.to_owned()));
    } else if str_eq(auth, "jwt") {
        let jwt = match vars.get("jwt_token") {
            Some(v) => v.clone(),
            None => String::new(),
        };
        let mut bearer = String::from_str("Bearer ");
        bearer.append(jwt.as_str());
        proof {
            assert(bearer@ == "Bearer "@ + jwt_of(vars@));
        }
        headers.push((String::from_str("Authorization"), bearer));
    } else if starts_with(auth, "Bearer ") {
        headers.push((String::from_str("Authorization"), auth.to_owned()));
    } else if starts_with(auth, "api-key:") {
        let plen = "api-key:".unicode_len();
        let alen = auth.unicode_len();
        let suffix = auth.substring_char(plen, alen);
        proof {
            assert(suffix@ =~= step.auth@.skip("api-key:"@.len() as int));
        }
        headers.push((String::from_str("api-key"), suffix.to_owned()));
    } else {
        return Err(BuildError::UnknownAuthKind);
    }
    let payload = match &step.payload {
        Some(p) => Some(p.substitute(vars)),
        None => None,
    };
    let req = ResolvedRequest { method, url, headers, payload };
    proof {
        match auth_header(step.auth@, admin_key@, jwt_of(vars@)) {
            Some(h) => {
                assert(header_views(req.headers@) =~= request_headers(h));
            }
            None => {}
        }
    }
    Ok(req)
}

} // verus!
