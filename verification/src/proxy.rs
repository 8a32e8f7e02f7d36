//! The data plane's per-request decision: from a `Host` header and the
//! shared state to a forwarding target, a static-file directive, or an
//! error status. The connection itself is the caller's.

use vstd::prelude::*;

use crate::config::RouteTarget;
use crate::config::RouteTargetV;
use crate::digits::spec_dec;
use crate::state::{AppState, spec_lookup_route, spec_lookup_service};

verus! {

/// First index of `c` in `s`, if any.
pub open spec fn spec_find_char(s: Seq<char>, c: char) -> Option<int>
    decreases s.len(),
{
    if s.len() == 0 {
        None
    } else if s[0] == c {
        Some(0)
    } else {
        match spec_find_char(s.drop_first(), c) {
            Some(i) => Some(i + 1),
            None => None,
        }
    }
}

pub proof fn lemma_find_char_props(s: Seq<char>, c: char)
    ensures
        match spec_find_char(s, c) {
            Some(i) => 0 <= i < s.len() && s[i] == c && forall|j: int| 0 <= j < i ==> s[j] != c,
            None => forall|j: int| 0 <= j < s.len() ==> s[j] != c,
        },
    decreases s.len(),
{
    if s.len() > 0 && s[0] != c {
        lemma_find_char_props(s.drop_first(), c);
        match spec_find_char(s.drop_first(), c) {
            Some(i) => {
                assert(s.drop_first()[i] == s[i + 1]);
                assert(forall|j: int| 1 <= j < i + 1 ==> s[j] == s.drop_first()[j - 1]);
            },
            None => {
                assert(forall|j: int| 1 <= j < s.len() ==> s[j] == s.drop_first()[j - 1]);
            },
        }
    }
}

proof fn lemma_find_char_first(s: Seq<char>, c: char, i: int)
    requires
        0 <= i < s.len(),
        s[i] == c,
        forall|j: int| 0 <= j < i ==> s[j] != c,
    ensures
        spec_find_char(s, c) == Some(i),
{
    lemma_find_char_props(s, c);
    match spec_find_char(s, c) {
        Some(k) => {
            if k < i {
                assert(s[k] != c);
            }
            if k > i {
                assert(s[i] != c);
            }
        },
        None => {
            assert(s[i] != c);
        },
    }
}

/// A `Host` header value with any `:port` suffix removed: everything
/// before the first `:`, or the whole value when it has none.
pub open spec fn spec_strip_port(host: Seq<char>) -> Seq<char> {
    match spec_find_char(host, ':') {
        Some(i) => host.subrange(0, i),
        None => host,
    }
}

/// Strip the `:port` suffix from a `Host` header value.
pub fn strip_port(host: &str) -> (r: String)
    ensures
        r@ == spec_strip_port(host@),
{
    let len = host.unicode_len();
    let mut i: usize = 0;
    while i < len
        invariant
            len == host@.len(),
            0 <= i <= len,
            forall|j: int| 0 <= j < i ==> host@[j] != ':',
        decreases len - i,
    {
        if host.get_char(i) == ':' {
            proof {
                lemma_find_char_first(host@, ':', i as int);
            }
            return host.substring_char(0, i).to_owned();
        }
        i = i + 1;
    }
    proof {
        lemma_find_char_props(host@, ':');
        if spec_find_char(host@, ':') is Some {
            let w = spec_find_char(host@, ':').unwrap();
            assert(host@[w] != ':');
        }
    }
    host.to_owned()
}

/// `host:port`, the address an upstream connection dials.
pub fn authority(host: &str, port: u16) -> (r: String)
    ensures
        r@ == host@ + ":"@ + spec_dec(port as nat),
{
    let mut s = host.to_owned();
    s.append(":");
    let p = crate::digits::u64_to_string(port as u64);
    s.append(p.as_str());
    s
}

/// What the proxy does with one request, decided from a fresh snapshot of
/// the shared state.
#[derive(Debug)]
pub enum ProxyPlan {
    /// Open a connection to `target` and forward the request unchanged.
    Forward { target: String },
    /// Serve a file under `root`, with the effective index list and the
    /// fallback list.
    ServeStatic { root: String, index: Vec<String>, try_files: Vec<String> },
    /// No route matches the request's domain: answer 404.
    NotFound,
    /// The route names a service that does not exist: answer 502.
    BadGateway,
}

/// Decide one request. The domain is the `Host` value without its port;
/// routing tries the exact domain and then the wildcard; a service route
/// forwards to the service's current `host:port`; a static route hands
/// back the route's directive with the default index (`index.html`)
/// substituted for an empty index list.
pub fn plan_request(state: &AppState, host: &str) -> (r: ProxyPlan)
    ensures
        ({
            let domain = spec_strip_port(host@);
            match spec_lookup_route(state@.routes_map, domain) {
                None => r is NotFound,
                Some(RouteTargetV::Service { service }) => match spec_lookup_service(
                    state@.services_map,
                    service,
                ) {
                    None => r is BadGateway,
                    Some(s) => r matches ProxyPlan::Forward { target } && target@ == s.host + ":"@
                        + spec_dec(s.port as nat),
                },
                Some(RouteTargetV::Static { root, index, try_files }) => r matches
                    ProxyPlan::ServeStatic {
                    root: r_root,
                    index: r_index,
                    try_files: r_try,
                } && r_root@ == root && r_try.deep_view() == try_files && r_index.deep_view() == (
                if index.len() == 0 {
                    seq!["index.html"@]
                } else {
                    index
                }),
            }
        }),
{
    let domain = strip_port(host);
    match state.lookup_route(domain.as_str()) {
        None => ProxyPlan::NotFound,
        Some(RouteTarget::Service { service }) => match state.lookup_service(service.as_str()) {
            None => ProxyPlan::BadGateway,
            Some(s) => ProxyPlan::Forward { target: authority(s.host.as_str(), s.port) },
        },
        Some(RouteTarget::Static { root, index, try_files }) => {
            if index.len() == 0 {
                let mut eff: Vec<String> = Vec::new();
                eff.push("index.html".to_owned());
                proof {
                    assert(eff.deep_view() =~= seq!["index.html"@]);
                }
                ProxyPlan::ServeStatic { root, index: eff, try_files }
            } else {
                ProxyPlan::ServeStatic { root, index, try_files }
            }
        },
    }
}

/// A named guess of the media type of the file at a path, as the
/// `mime_guess` table gives it from the path's extension: a function of
/// the path alone.
pub uninterp spec fn mime_lookup(path: Seq<char>) -> Option<Seq<char>>;

/// Relies on mime_guess::from_path: the first guess for a path depends on
/// the path's extension alone, and a path without a known extension gives
/// none.
#[verifier::external_body]
fn guess_mime(path: &str) -> (r: Option<String>)
    ensures
        match r {
            Some(m) => mime_lookup(path@) == Some(m@),
            None => mime_lookup(path@) is None,
        },
{
    mime_guess::from_path(path).first().map(|m| String::from(m.as_ref()))
}

/// A media type with the charset rule applied: any `text/*` type and
/// `application/javascript` carry `; charset=utf-8`, every other type is
/// unchanged.
pub open spec fn spec_with_charset(m: Seq<char>) -> Seq<char> {
    if (m.len() >= 5 && m.subrange(0, 5) == "text/"@) || m == "application/javascript"@ {
        m + "; charset=utf-8"@
    } else {
        m
    }
}

/// Apply the charset rule to a media type.
pub fn with_charset(mime: &str) -> (r: String)
    ensures
        r@ == spec_with_charset(mime@),
{
    let len = mime.unicode_len();
    let is_text = len >= 5 && crate::config::str_eq(mime.substring_char(0, 5), "text/");
    let is_js = crate::config::str_eq(mime, "application/javascript");
    if is_text || is_js {
        let s = mime.to_owned();
        s.concat("; charset=utf-8")
    } else {
        mime.to_owned()
    }
}

/// The full content-type value for the file at `path`: the guessed media
/// type under the charset rule, or `application/octet-stream` when no
/// guess exists.
pub open spec fn spec_content_type(path: Seq<char>) -> Seq<char> {
    match mime_lookup(path) {
        Some(m) => spec_with_charset(m),
        None => "application/octet-stream"@,
    }
}

/// The `Content-Type` header value for a response serving `path`.
pub fn content_type_for(path: &str) -> (r: String)
    ensures
        r@ == spec_content_type(path@),
{
    match guess_mime(path) {
        Some(m) => with_charset(m.as_str()),
        None => "application/octet-stream".to_owned(),
    }
}

} // verus!
