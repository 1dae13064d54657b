//! The per-request routing decision: the path check, HTTP-01 interception
//! on plain-HTTP bindings, and the choice of processor.

use vstd::prelude::*;
use crate::challenge::{handle_spec, token_of_path, AcmeHttp01ChallengeStore, ACME_CHALLENGE_PATH_PREFIX};
use crate::path_security::{any_pattern_matches, matches_any};
use crate::configuration::RequestHandler;
use crate::proxy::{proxy_errors, ProxyProcessor};
use crate::request_handler::handler_errors;
use crate::round_robin::strings_view;
use crate::text::str_starts_with;

verus! {

/// Where a request goes.
pub enum Route {
    /// The path check refused it: 403.
    Forbidden,
    /// An HTTP-01 challenge answered with this key authorization: 200,
    /// `text/plain`.
    Challenge { key_authorization: String },
    /// A challenge path with no pending challenge: 404.
    ChallengeNotFound,
    /// The site's handler at this index takes it.
    Handler { index: usize },
    /// The static file processor takes it.
    Static,
}

/// The status a route answers with by itself; `None` when a processor
/// produces the response.
pub fn route_status(route: &Route) -> (r: Option<u16>)
    ensures
        route matches Route::Forbidden ==> r == Some(403u16),
        route matches Route::Challenge { .. } ==> r == Some(200u16),
        route matches Route::ChallengeNotFound ==> r == Some(404u16),
        route matches Route::Handler { .. } ==> r is None,
        route matches Route::Static ==> r is None,
{
    match route {
        Route::Forbidden => Some(403),
        Route::Challenge { .. } => Some(200),
        Route::ChallengeNotFound => Some(404),
        Route::Handler { .. } => None,
        Route::Static => None,
    }
}

/// The first handler whose file patterns match `path`.
pub open spec fn first_matching_handler(handler_patterns: Seq<Vec<String>>, path: Seq<char>, k: int) -> Option<usize>
    decreases handler_patterns.len() - k,
{
    if k < 0 || k >= handler_patterns.len() {
        None
    } else if any_pattern_matches(handler_patterns[k]@, path) {
        Some(k as usize)
    } else {
        first_matching_handler(handler_patterns, path, k + 1)
    }
}

/// The index of the first handler (in the site's order) whose file
/// patterns match `path`.
pub fn select_handler(handler_patterns: &Vec<Vec<String>>, path: &str) -> (r: Option<usize>)
    ensures
        r == first_matching_handler(handler_patterns@, path@, 0),
{
    let mut k: usize = 0;
    while k < handler_patterns.len()
        invariant
            k <= handler_patterns@.len(),
            first_matching_handler(handler_patterns@, path@, 0) == first_matching_handler(
                handler_patterns@,
                path@,
                k as int,
            ),
        decreases handler_patterns@.len() - k,
    {
        if matches_any(&handler_patterns[k], path) {
            return Some(k);
        }
        k += 1;
    }
    None
}

/// Routes one request, given whether its path is allowed: a disallowed
/// path gets 403; on a plain-HTTP binding a challenge path is answered from `store` (404
/// when it has no answer); otherwise the first matching handler takes it,
/// or the static processor.
pub fn route_request(
    path_is_secure: bool,
    is_tls: bool,
    path: &str,
    store: &AcmeHttp01ChallengeStore,
    now: u64,
    handler_patterns: &Vec<Vec<String>>,
) -> (r: Route)
    ensures
        !path_is_secure ==> r == Route::Forbidden,
        path_is_secure && !is_tls && token_of_path(path@) is Some ==> match handle_spec(store@, path@, now) {
            Some(k) => r matches Route::Challenge { key_authorization } && key_authorization@ == k,
            None => r == Route::ChallengeNotFound,
        },
        path_is_secure && (is_tls || token_of_path(path@) is None) ==> match first_matching_handler(
            handler_patterns@,
            path@,
            0,
        ) {
            Some(i) => r == (Route::Handler { index: i }),
            None => r == Route::Static,
        },
{
    if !path_is_secure {
        return Route::Forbidden;
    }
    if !is_tls && str_starts_with(path, ACME_CHALLENGE_PATH_PREFIX) {
        return match store.try_handle_challenge_at(path, now) {
            Some(k) => Route::Challenge { key_authorization: k },
            None => Route::ChallengeNotFound,
        };
    }
    match select_handler(handler_patterns, path) {
        Some(i) => Route::Handler { index: i },
        None => Route::Static,
    }
}

/// The processors a request can be dispatched to.
pub enum Processor {
    /// Serves files from the web root.
    Static,
    /// Forwards to upstream servers.
    Proxy(ProxyProcessor),
    /// Hands the request to an external CGI-style handler.
    External(RequestHandler),
}

impl Processor {
    /// The processor's type tag.
    pub fn get_type(&self) -> (r: String)
        ensures
            match self {
                Processor::Static => r@ == "static"@,
                Processor::Proxy(_) => r@ == "proxy"@,
                Processor::External(h) => r@ == h.handler_type@,
            },
    {
        match self {
            Processor::Static => String::from_str("static"),
            Processor::Proxy(p) => p.get_type(),
            Processor::External(h) => h.handler_type.clone(),
        }
    }

    /// Checks the processor's settings (`host_is_ip` as for
    /// `RequestHandler::validate`); the static processor has none.
    pub fn validate(&self, host_is_ip: bool) -> (r: Result<(), Vec<String>>)
        ensures
            match self {
                Processor::Static => r is Ok,
                Processor::Proxy(p) => (r is Ok <==> proxy_errors(*p).len() == 0) && (r matches Err(
                    e,
                ) ==> strings_view(e@) == proxy_errors(*p)),
                Processor::External(h) => (r is Ok <==> handler_errors(*h, host_is_ip).len() == 0) && (
                r matches Err(e) ==> strings_view(e@) == handler_errors(*h, host_is_ip)),
            },
    {
        match self {
            Processor::Static => Ok(()),
            Processor::Proxy(p) => p.validate(),
            Processor::External(h) => h.validate(host_is_ip),
        }
    }
}

} // verus!
