//! The request and response shapes of the standalone, single-worker engine
//! embedding: the same protocol as the server's, without path or query
//! parameters.

use vstd::prelude::*;
use crate::strmap::StrMap;

verus! {

/// One request handed to the standalone engine.
pub struct Request {
    pub headers: StrMap<String>,
    pub method: String,
    pub url: String,
    pub body: Option<String>,
}

impl Request {
    pub open spec fn wf(&self) -> bool {
        self.headers.wf()
    }

    pub fn new(headers: StrMap<String>, method: String, url: String, body: Option<String>) -> (r:
        Self)
        ensures
            r.headers == headers,
            r.method@ == method@,
            r.url@ == url@,
            r.body == body,
    {
        Request { headers, method, url, body }
    }
}

/// One response read back from the standalone engine.
pub struct Response {
    pub status: u16,
    pub headers: StrMap<String>,
    pub body: Option<String>,
}

impl Response {
    pub open spec fn wf(&self) -> bool {
        self.headers.wf()
    }

    pub fn new(status: u16, headers: StrMap<String>, body: Option<String>) -> (r: Self)
        ensures
            r.status == status,
            r.headers == headers,
            r.body == body,
    {
        Response { status, headers, body }
    }
}

} // verus!
