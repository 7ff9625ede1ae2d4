//! The outcome of a single request to the server under test, and which
//! outcomes count as failures.
use vstd::prelude::*;

use crate::target::Method;

verus! {

/// An error of the `hyper` HTTP client, such as a broken or timed out
/// connection.
#[verifier::external_type_specification]
#[verifier::external_body]
pub struct ExHyperError(hyper::Error);

/// The outcome of a single HTTP request to the server. It either represents a
/// "good" outcome (a reasonable response is obtained from the server), or
/// a "bad" outcome (the server responded with a server error or the connection
/// was cut off).
#[derive(Debug)]
pub struct ServerOutcome {
    /// the HTTP method of the request performed
    pub method: Method,
    /// the URI of the HTTP request performed
    pub uri: http::Uri,
    /// the kind of outcome
    pub kind: OutcomeKind,
}

/// Value differentiating the kind of server test outcome and
/// providing kind-specific information
#[derive(Debug)]
pub enum OutcomeKind {
    /// Good!
    Good {
        /// the status code returned by the server
        status: u16,
    },
    /// The server returned a server error response (bad!)
    BadError {
        /// the status code returned by the server (sure to be 5xx)
        status: u16,
    },
    /// An error emerged at the HTTP layer (bad!)
    BadHttp { err: hyper::Error },
}

/// A status code of the 5xx class: the server failed.
pub open spec fn is_server_error(status: u16) -> bool {
    500 <= status < 600
}

/// The kind of outcome of a response with the given status code.
pub open spec fn kind_for_status(status: u16) -> OutcomeKind {
    if is_server_error(status) {
        OutcomeKind::BadError { status }
    } else {
        OutcomeKind::Good { status }
    }
}

impl OutcomeKind {
    /// The outcome is a bad one, to be recorded.
    pub open spec fn failed(self) -> bool {
        !(self is Good)
    }

    /// Whether the outcome is a bad one, to be recorded.
    pub fn is_failure(&self) -> (r: bool)
        ensures
            r == self.failed(),
    {
        match self {
            OutcomeKind::Good { .. } => false,
            _ => true,
        }
    }
}

impl ServerOutcome {
    /// The outcome of a response with the given status code: bad for a
    /// server error (5xx), good otherwise.
    pub fn with_status(method: Method, uri: http::Uri, status: u16) -> (r: ServerOutcome)
        ensures
            r.method == method,
            r.uri == uri,
            r.kind == kind_for_status(status),
            500 <= status < 600 ==> r.kind == (OutcomeKind::BadError { status }),
            !(500 <= status < 600) ==> r.kind == (OutcomeKind::Good { status }),
    {
        ServerOutcome {
            method,
            uri,
            kind: if status >= 500 && status < 600 {
                OutcomeKind::BadError { status }
            } else {
                OutcomeKind::Good { status }
            },
        }
    }

    /// The outcome of a request that failed at the HTTP layer: always bad.
    pub fn bad_http(method: Method, uri: http::Uri, err: hyper::Error) -> (r: ServerOutcome)
        ensures
            r.method == method,
            r.uri == uri,
            r.kind == (OutcomeKind::BadHttp { err }),
    {
        ServerOutcome { method, uri, kind: OutcomeKind::BadHttp { err } }
    }

    /// What a request that failed at the HTTP layer leads to. A connection
    /// that could not be established (`is_connect`) stops the test run: the
    /// request's method, URI and error come back as `Err`. Any other error is
    /// the server's fault and is recorded as a `BadHttp` outcome.
    pub fn from_http_error(
        method: Method,
        uri: http::Uri,
        err: hyper::Error,
        is_connect: bool,
    ) -> (r: Result<ServerOutcome, (Method, http::Uri, hyper::Error)>)
        ensures
            is_connect ==> r == Err::<ServerOutcome, (Method, http::Uri, hyper::Error)>(
                (method, uri, err),
            ),
            !is_connect ==> (r matches Ok(o) && o.method == method && o.uri == uri && o.kind == (
            OutcomeKind::BadHttp { err })),
    {
        if is_connect {
            Err((method, uri, err))
        } else {
            Ok(ServerOutcome::bad_http(method, uri, err))
        }
    }
}

/// Where, relative to the output directory, the body of a failed response
/// is saved: the method's name, a `/`, then the request's path and query
/// (so `GET` and `/cool-endpoint/x?id=0` give `GET//cool-endpoint/x?id=0`,
/// which a file system path reads as `GET/cool-endpoint/x?id=0`).
pub fn failure_body_path(method: Method, path_and_query: &str) -> (r: String)
    ensures
        r@ == method.name() + seq!['/'] + path_and_query@,
{
    let mut p: String = method.as_str().to_owned();
    p.append("/");
    p.append(path_and_query);
    proof {
        reveal_strlit("/");
    }
    p
}

/// A response is recorded as a failure exactly when its status code is a
/// server error (5xx).
pub proof fn law_failure_iff_server_error(status: u16)
    ensures
        kind_for_status(status).failed() <==> is_server_error(status),
{
}

/// Every 5xx status is a server error, recorded as `BadError` with that
/// status; every other status is `Good` with that status.
pub proof fn law_status_classes(status: u16)
    ensures
        500 <= status < 600 ==> kind_for_status(status) == (OutcomeKind::BadError { status }),
        (status < 500 || status >= 600) ==> kind_for_status(status) == (OutcomeKind::Good {
            status,
        }),
        500 <= status < 600 <==> kind_for_status(status).failed(),
{
}

/// A request that failed at the HTTP layer is always recorded as a failure.
pub proof fn law_http_errors_fail(err: hyper::Error)
    ensures
        (OutcomeKind::BadHttp { err }).failed(),
{
}

} // verus!
