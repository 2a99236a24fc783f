//! Per-tenant project configuration: a name and a table of routes, each a
//! triple of HTTP method, path template and handler name. Path templates use
//! `:name` for a named segment and `*rest` for a trailing catch-all.

use vstd::prelude::*;

verus! {

pub struct ProjectRoute {
    pub method: String,
    pub path: String,
    pub handler: String,
}

pub struct ProjectConfig {
    pub name: String,
    pub routes: Vec<ProjectRoute>,
}

impl ProjectRoute {
    pub fn new(method: String, path: String, handler: String) -> (r: Self)
        ensures
            r.method@ == method@,
            r.path@ == path@,
            r.handler@ == handler@,
    {
        ProjectRoute { method, path, handler }
    }
}

impl ProjectConfig {
    pub fn new(name: String, routes: Vec<ProjectRoute>) -> (r: Self)
        ensures
            r.name@ == name@,
            r.routes == routes,
    {
        ProjectConfig { name, routes }
    }
}

} // verus!
