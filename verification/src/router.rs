//! The routing and response-mapping rules of the HTTP surface. A request's
//! method and path decide a `Plan`: answer at once (liveness, unknown route,
//! malformed auth segment) or call the backend's bid or bundle operation,
//! threading through the optional auth token read from the path. The
//! backend's result is then mapped to a response: every domain outcome is a
//! protocol success (status 200, enveloped wire encoding), every backend
//! failure a fixed opaque server error whose text never echoes the backend's.

use vstd::prelude::*;
use vstd::string::StringExecFns;
use vstd::string::StrSliceExecFns;

use crate::codec::{
    encode_bid_envelope, encode_bundle_envelope, spec_encode_bid, spec_encode_bundle,
    spec_envelope,
};
use crate::encoding::{chars_of_str, parse_hex_fixed_any, parse_lit, sp_hex_any, sp_lit};
use crate::responses::{ApiResponse, BidResponse, BundleResponse};
use crate::values::AuthToken;

verus! {

/// The request methods the surface distinguishes; everything that is not a
/// route of the table below falls through to the unknown-route answer.
#[derive(Clone, Copy, Debug, PartialEq, Eq, Structural)]
pub enum Method {
    Get,
    Post,
    Delete,
    Put,
    Other,
}

/// A response of the surface: a status code and a textual body.
#[derive(Clone, Debug, PartialEq, Eq)]
pub struct HttpResponse {
    pub status: u16,
    pub body: String,
}

/// What the dispatcher decides for one request before any backend work:
/// answer at once, or invoke one backend operation exactly once.
#[derive(Clone, Debug, PartialEq, Eq)]
pub enum Plan {
    /// Answer with this response; the backend is not consulted.
    Respond(HttpResponse),
    /// Decode the body as a bid request and call the backend's bid operation.
    CallBid,
    /// Decode the body as a signed bundle and call the backend's bundle
    /// operation, with the auth token if the path carried one.
    CallBundle(Option<AuthToken>),
}

/// The model of a `Plan`.
pub ghost enum PlanVal {
    Respond { status: int, body: Seq<char> },
    CallBid,
    CallBundle { auth: Option<Seq<u8>> },
}

impl View for Plan {
    type V = PlanVal;

    open spec fn view(&self) -> PlanVal {
        match self {
            Plan::Respond(resp) => PlanVal::Respond {
                status: resp.status as int,
                body: resp.body@,
            },
            Plan::CallBid => PlanVal::CallBid,
            Plan::CallBundle(auth) => PlanVal::CallBundle {
                auth: match auth {
                    Some(t) => Some(t@),
                    None => None,
                },
            },
        }
    }
}

/// The token a path segment carries: exactly 64 hex digits of either case,
/// with an optional `0x` prefix, read as 32 big-endian bytes. Anything else
/// is a malformed segment, not a token.
pub open spec fn spec_parse_auth(seg: Seq<char>) -> Option<Seq<u8>> {
    let off: int = if seg.len() == 66 && seg[0] == '0' && seg[1] == 'x' {
        2
    } else {
        0
    };
    match sp_hex_any(seg, off, 32) {
        Some((bs, j)) => if j == seg.len() {
            Some(bs)
        } else {
            None
        },
        None => None,
    }
}

/// Whether the text holds a path separator, i.e. spans several segments.
pub open spec fn has_slash(s: Seq<char>) -> bool {
    exists|k: int| 0 <= k < s.len() && s[k] == '/'
}

/// The routing table. The liveness route answers unconditionally and never
/// reaches the backend; the bundle route exists with and without a trailing
/// auth segment (one segment only: a rest that spans several segments
/// matches no route); a present but malformed segment is a client error;
/// every unmatched method or path is the fixed unknown-route answer.
pub open spec fn spec_plan(m: Method, p: Seq<char>) -> PlanVal {
    if m == Method::Get && p == "/healthcheck"@ {
        PlanVal::Respond { status: 200, body: Seq::empty() }
    } else if m == Method::Post && p == "/bid"@ {
        PlanVal::CallBid
    } else if m == Method::Post && p == "/accept"@ {
        PlanVal::CallBundle { auth: None }
    } else if m == Method::Post && p.len() > 8 && p.subrange(0, 8) == "/accept/"@ && !has_slash(
        p.skip(8),
    ) {
        match spec_parse_auth(p.skip(8)) {
            Some(tok) => PlanVal::CallBundle { auth: Some(tok) },
            None => PlanVal::Respond { status: 400, body: "invalid auth token"@ },
        }
    } else {
        PlanVal::Respond { status: 404, body: "unknown route"@ }
    }
}

/// Whether the text holds a path separator, as `has_slash` says.
pub fn contains_slash(s: &str) -> (r: bool)
    ensures
        r == has_slash(s@),
{
    let cs = chars_of_str(s);
    let n = cs.len();
    let mut i: usize = 0;
    while i < n
        invariant
            i <= n,
            n == cs@.len(),
            cs@ == s@,
            forall|k: int| 0 <= k < i ==> cs@[k] != '/',
        decreases n - i,
    {
        if cs[i] == '/' {
            assert(s@[i as int] == '/');
            return true;
        }
        i = i + 1;
    }
    false
}

/// Reads the auth token from a path segment, as `spec_parse_auth` says.
pub fn parse_auth_token(seg: &str) -> (r: Option<AuthToken>)
    ensures
        (match r {
            Some(t) => spec_parse_auth(seg@) == Some(t@) && t.wf(),
            None => spec_parse_auth(seg@) is None,
        }),
{
    let cs = chars_of_str(seg);
    let n = cs.len();
    let off: usize = if n == 66 && cs[0] == '0' && cs[1] == 'x' {
        2
    } else {
        0
    };
    match parse_hex_fixed_any(&cs, off, 32) {
        Some((bs, j)) => if j == n {
            Some(AuthToken::from_be_bytes(bs))
        } else {
            None
        },
        None => None,
    }
}

/// The unconditional liveness answer: status 200, empty body.
pub fn healthcheck_response() -> (r: HttpResponse)
    ensures
        r.status == 200,
        r.body@ == Seq::<char>::empty(),
{
    let body = String::new();
    HttpResponse { status: 200, body }
}

/// The fixed answer for any unmatched method or path.
pub fn not_found_response() -> (r: HttpResponse)
    ensures
        r.status == 404,
        r.body@ == "unknown route"@,
{
    HttpResponse { status: 404, body: String::from_str("unknown route") }
}

/// The client-error answer for a present but malformed auth segment.
pub fn bad_auth_response() -> (r: HttpResponse)
    ensures
        r.status == 400,
        r.body@ == "invalid auth token"@,
{
    HttpResponse { status: 400, body: String::from_str("invalid auth token") }
}

/// The client-error answer for a request body that does not decode; such a
/// request never reaches the backend.
pub fn bad_request_response() -> (r: HttpResponse)
    ensures
        r.status == 400,
        r.body@ == "bad request"@,
{
    HttpResponse { status: 400, body: String::from_str("bad request") }
}

/// Decides the plan for one request, as `spec_plan` says.
pub fn plan_request(method: Method, path: &str) -> (r: Plan)
    ensures
        r@ == spec_plan(method, path@),
{
    let cs = chars_of_str(path);
    let n = cs.len();
    let health = parse_lit(&cs, 0, "/healthcheck");
    let is_health = match health {
        Some(j) => j == n,
        None => false,
    };
    proof {
        reveal_strlit("/healthcheck");
        if is_health {
            assert(cs@.subrange(0, "/healthcheck"@.len() as int) == "/healthcheck"@);
            assert(path@ =~= "/healthcheck"@);
        } else if path@ == "/healthcheck"@ {
            assert(cs@.subrange(0, cs@.len() as int) =~= cs@);
            assert(false);
        }
    }
    if method == Method::Get && is_health {
        return Plan::Respond(healthcheck_response());
    }
    let bid = parse_lit(&cs, 0, "/bid");
    let is_bid = match bid {
        Some(j) => j == n,
        None => false,
    };
    proof {
        reveal_strlit("/bid");
        if is_bid {
            assert(cs@.subrange(0, "/bid"@.len() as int) == "/bid"@);
            assert(path@ =~= "/bid"@);
        } else if path@ == "/bid"@ {
            assert(cs@.subrange(0, cs@.len() as int) =~= cs@);
            assert(false);
        }
    }
    if method == Method::Post && is_bid {
        return Plan::CallBid;
    }
    let accept = parse_lit(&cs, 0, "/accept");
    let is_accept = match accept {
        Some(j) => j == n,
        None => false,
    };
    proof {
        reveal_strlit("/accept");
        if is_accept {
            assert(cs@.subrange(0, "/accept"@.len() as int) == "/accept"@);
            assert(path@ =~= "/accept"@);
        } else if path@ == "/accept"@ {
            assert(cs@.subrange(0, cs@.len() as int) =~= cs@);
            assert(false);
        }
    }
    if method == Method::Post && is_accept {
        return Plan::CallBundle(None);
    }
    let accept_seg = parse_lit(&cs, 0, "/accept/");
    let is_accept_prefix = match accept_seg {
        Some(j) => n > j,
        None => false,
    };
    proof {
        reveal_strlit("/accept/");
        if is_accept_prefix {
            assert(cs@.subrange(0, "/accept/"@.len() as int) == "/accept/"@);
        } else if path@.len() > 8 && path@.subrange(0, 8) == "/accept/"@ {
            assert(false);
        }
    }
    if method == Method::Post && is_accept_prefix {
        let seg = path.substring_char(8, n);
        proof {
            assert(seg@ =~= path@.skip(8));
        }
        if contains_slash(seg) {
            return Plan::Respond(not_found_response());
        }
        match parse_auth_token(seg) {
            Some(tok) => {
                return Plan::CallBundle(Some(tok));
            },
            None => {
                return Plan::Respond(bad_auth_response());
            },
        }
    }
    Plan::Respond(not_found_response())
}

/// Maps the backend's answer to the bid operation onto the HTTP response:
/// every domain outcome is enveloped and answered with status 200; a backend
/// failure is answered with status 500 and the fixed opaque body, and the
/// failure's own text appears nowhere in the response.
pub fn bid_result_response(res: Result<BidResponse, String>) -> (r: HttpResponse)
    ensures
        (match res {
            Ok(v) => r.status == 200 && r.body@ == spec_envelope(spec_encode_bid(v@)),
            Err(e) => r.status == 500 && r.body@ == "internal error"@,
        }),
{
    match res {
        Ok(v) => {
            let body = encode_bid_envelope(&ApiResponse::new(v));
            HttpResponse { status: 200, body }
        },
        Err(_) => HttpResponse { status: 500, body: String::from_str("internal error") },
    }
}

/// Maps the backend's answer to the bundle operation onto the HTTP response,
/// under the same discipline as the bid mapping.
pub fn bundle_result_response(res: Result<BundleResponse, String>) -> (r: HttpResponse)
    ensures
        (match res {
            Ok(v) => r.status == 200 && r.body@ == spec_envelope(spec_encode_bundle(v@)),
            Err(e) => r.status == 500 && r.body@ == "internal error"@,
        }),
{
    match res {
        Ok(v) => {
            let body = encode_bundle_envelope(&ApiResponse::new(v));
            HttpResponse { status: 200, body }
        },
        Err(_) => HttpResponse { status: 500, body: String::from_str("internal error") },
    }
}

} // verus!
