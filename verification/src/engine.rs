//! The request and response shapes that cross between the HTTP side and the
//! script engine. A `Req` is assembled once per HTTP request and is
//! immutable afterwards; a `Res` is what a handler returns. In the running
//! server the script engine receives the `Req` field by field and the `Res`
//! is read back property by property.

use vstd::prelude::*;
use vstd::string::StringExecFns;
use crate::strmap::StrMap;

verus! {

/// One HTTP request as a handler sees it.
#[derive(Debug)]
pub struct Req {
    pub method: String,
    pub url: String,
    pub query: StrMap<String>,
    pub params: StrMap<String>,
    pub headers: StrMap<String>,
    pub body: Option<String>,
}

impl Req {
    /// All three mappings are well-formed.
    pub open spec fn wf(&self) -> bool {
        self.query.wf() && self.params.wf() && self.headers.wf()
    }

    /// A builder starting from an empty request.
    pub fn builder() -> (r: ReqBuilder)
        ensures
            r.req.wf(),
            r.req.method@.len() == 0,
            r.req.url@.len() == 0,
            r.req.query.pairs().len() == 0,
            r.req.params.pairs().len() == 0,
            r.req.headers.pairs().len() == 0,
            r.req.body is None,
    {
        ReqBuilder {
            req: Req {
                method: String::new(),
                url: String::new(),
                query: StrMap::new(),
                params: StrMap::new(),
                headers: StrMap::new(),
                body: None,
            },
        }
    }
}

/// A step-by-step constructor for `Req`; each setter replaces one field.
pub struct ReqBuilder {
    pub req: Req,
}

impl ReqBuilder {
    pub fn method(self, method: &str) -> (r: Self)
        ensures
            r.req == (Req { method: r.req.method, ..self.req }),
            r.req.method@ == method@,
    {
        ReqBuilder { req: Req { method: String::from_str(method), ..self.req } }
    }

    pub fn url(self, url: &str) -> (r: Self)
        ensures
            r.req == (Req { url: r.req.url, ..self.req }),
            r.req.url@ == url@,
    {
        ReqBuilder { req: Req { url: String::from_str(url), ..self.req } }
    }

    pub fn query(self, query: StrMap<String>) -> (r: Self)
        ensures
            r.req == (Req { query, ..self.req }),
    {
        ReqBuilder { req: Req { query, ..self.req } }
    }

    pub fn params(self, params: StrMap<String>) -> (r: Self)
        ensures
            r.req == (Req { params, ..self.req }),
    {
        ReqBuilder { req: Req { params, ..self.req } }
    }

    pub fn headers(self, headers: StrMap<String>) -> (r: Self)
        ensures
            r.req == (Req { headers, ..self.req }),
    {
        ReqBuilder { req: Req { headers, ..self.req } }
    }

    pub fn body(self, body: Option<String>) -> (r: Self)
        ensures
            r.req == (Req { body, ..self.req }),
    {
        ReqBuilder { req: Req { body, ..self.req } }
    }

    pub fn build(self) -> (r: Req)
        ensures
            r == self.req,
    {
        self.req
    }
}

/// One handler response: a status, headers, and an optional UTF-8 body.
#[derive(Debug)]
pub struct Res {
    pub status: u16,
    pub headers: StrMap<String>,
    pub body: Option<String>,
}

impl Res {
    pub open spec fn wf(&self) -> bool {
        self.headers.wf()
    }

    pub fn new(status: u16, headers: StrMap<String>, body: Option<String>) -> (r: Self)
        ensures
            r.status == status,
            r.headers == headers,
            r.body == body,
    {
        Res { status, headers, body }
    }

    /// The text the HTTP response body carries: the handler's body, or the
    /// empty string when the handler returned none.
    pub fn body_or_empty(&self) -> (r: String)
        ensures
            match self.body {
                Some(b) => r@ == b@,
                None => r@.len() == 0,
            },
    {
        match &self.body {
            Some(b) => b.clone(),
            None => String::new(),
        }
    }
}

} // verus!
