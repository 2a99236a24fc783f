//! The error taxonomy of the platform. Request-path errors map to an HTTP
//! status; bundle- and configuration-time errors are fatal for the run that
//! raised them and carry their context as text.

use vstd::prelude::*;
use vstd::string::StringExecFns;
use crate::strutil::concat_str;

verus! {

#[derive(Debug)]
pub enum AppError {
    /// A specifier that no loader could resolve or load.
    ModuleNotFound(String),
    /// A filesystem or network failure while loading a module.
    LoadIo(String),
    /// The TypeScript transpiler rejected a source.
    TranspileFailed(String),
    /// The bundler failed to emit.
    BundleFailed(String),
    /// No tenant is registered under the request's host.
    HostNotFound(String),
    /// The tenant's router has no route for the method and path.
    RouteNotFound(String),
    /// The tenant module exports no callable under the handler name.
    HandlerNotFound(String),
    /// The handler threw; the message travels to the response body.
    HandlerThrew(String),
    /// The handler's return value lacks a well-typed status or headers.
    BadResponseShape,
    /// The worker's request channel was closed before the send completed.
    WorkerSendFailed,
    /// A malformed project configuration or import map.
    ConfigParseFailed(String),
}

impl AppError {
    /// The HTTP status under which this error surfaces: lookup and match
    /// failures are 404, a closed worker channel is 503, and every other
    /// failure of the platform itself is 500.
    pub fn status_code(&self) -> (r: u16)
        ensures
            r == match self {
                AppError::HostNotFound(_) => 404u16,
                AppError::RouteNotFound(_) => 404u16,
                AppError::WorkerSendFailed => 503u16,
                _ => 500u16,
            },
    {
        match self {
            AppError::HostNotFound(_) => 404,
            AppError::RouteNotFound(_) => 404,
            AppError::WorkerSendFailed => 503,
            _ => 500,
        }
    }

    /// A human-readable description, used as the body of an error response.
    pub fn message(&self) -> (r: String)
        ensures
            r@ == match self {
                AppError::ModuleNotFound(s) => "Module not found \""@ + s@ + "\""@,
                AppError::LoadIo(s) => "I/O error: "@ + s@,
                AppError::TranspileFailed(s) => "TypeScript compile error: "@ + s@,
                AppError::BundleFailed(s) => "Bundle failed: "@ + s@,
                AppError::HostNotFound(s) => "Host not found: "@ + s@,
                AppError::RouteNotFound(s) => "Route not found: "@ + s@,
                AppError::HandlerNotFound(s) => "Handler not found: "@ + s@,
                AppError::HandlerThrew(s) => "Handler threw: "@ + s@,
                AppError::BadResponseShape => "Bad response shape"@,
                AppError::WorkerSendFailed => "Worker send failed"@,
                AppError::ConfigParseFailed(s) => "Config parse failed: "@ + s@,
            },
    {
        match self {
            AppError::ModuleNotFound(s) => {
                let head = concat_str("Module not found \"", s.as_str());
                concat_str(head.as_str(), "\"")
            },
            AppError::LoadIo(s) => concat_str("I/O error: ", s.as_str()),
            AppError::TranspileFailed(s) => concat_str("TypeScript compile error: ", s.as_str()),
            AppError::BundleFailed(s) => concat_str("Bundle failed: ", s.as_str()),
            AppError::HostNotFound(s) => concat_str("Host not found: ", s.as_str()),
            AppError::RouteNotFound(s) => concat_str("Route not found: ", s.as_str()),
            AppError::HandlerNotFound(s) => concat_str("Handler not found: ", s.as_str()),
            AppError::HandlerThrew(s) => concat_str("Handler threw: ", s.as_str()),
            AppError::BadResponseShape => String::from_str("Bad response shape"),
            AppError::WorkerSendFailed => String::from_str("Worker send failed"),
            AppError::ConfigParseFailed(s) => concat_str("Config parse failed: ", s.as_str()),
        }
    }
}

} // verus!
