//! The per-host registry and request dispatch steps: look a tenant's router
//! and worker pool up by the request's host (with any `:port` suffix
//! stripped), and assemble the `Req` a handler receives. In the running
//! server the registry maps are shared across connections and the lookups
//! here run once per request.

use vstd::prelude::*;
use vstd::string::StrSliceExecFns;
use vstd::string::StringExecFns;
use crate::engine::Req;
use crate::error::AppError;
use crate::router::{seg_params, spec_best_route, spec_path_segments, AppRouter,
    SwappableAppRouter};
use crate::strmap::{pairs_to_map, StrMap};
use crate::strutil::{index_of_char, lemma_first_index_none, lemma_first_index_some,
    spec_first_index};
use crate::worker_pool::{SwappableWorkerPool, WorkerPool};

verus! {

/// One tenant's host and its swappable router.
pub struct TenentRouter {
    pub host: String,
    pub router: SwappableAppRouter,
}

impl TenentRouter {
    pub fn new(host: &str, router: SwappableAppRouter) -> (r: Self)
        ensures
            r.host@ == host@,
            r.router == router,
    {
        TenentRouter { host: String::from_str(host), router }
    }
}

/// One tenant's host and its swappable worker pool.
pub struct TenentWorkerPool {
    pub host: String,
    pub pool: SwappableWorkerPool,
}

impl TenentWorkerPool {
    pub fn new(host: &str, pool: SwappableWorkerPool) -> (r: Self)
        ensures
            r.host@ == host@,
            r.pool == pool,
    {
        TenentWorkerPool { host: String::from_str(host), pool }
    }
}

pub open spec fn router_pairs(v: Seq<TenentRouter>) -> Seq<(Seq<char>, SwappableAppRouter)> {
    v.map_values(|t: TenentRouter| (t.host@, t.router))
}

pub open spec fn pool_pairs(v: Seq<TenentWorkerPool>) -> Seq<(Seq<char>, SwappableWorkerPool)> {
    v.map_values(|t: TenentWorkerPool| (t.host@, t.pool))
}

/// The registry: each host maps to at most one router and one pool; a later
/// registration for the same host replaces the earlier one.
pub struct AppState {
    pub routers: StrMap<SwappableAppRouter>,
    pub worker_pools: StrMap<SwappableWorkerPool>,
}

impl AppState {
    pub open spec fn wf(&self) -> bool {
        &&& self.routers.wf()
        &&& self.worker_pools.wf()
        &&& forall|k: Seq<char>|
            self.routers.spec_map().contains_key(k) ==> (#[trigger] self.routers.spec_map()[k]).wf()
    }

    pub fn new(routers: Vec<TenentRouter>, pools: Vec<TenentWorkerPool>) -> (r: Self)
        requires
            forall|i: int| 0 <= i < routers@.len() ==> (#[trigger] routers@[i].router).wf(),
        ensures
            r.wf(),
            r.routers.spec_map() == pairs_to_map(router_pairs(routers@)),
            r.worker_pools.spec_map() == pairs_to_map(pool_pairs(pools@)),
    {
        let ghost rp = router_pairs(routers@);
        let ghost pp = pool_pairs(pools@);
        let mut routers = routers;
        let mut pools = pools;
        let mut rmap: StrMap<SwappableAppRouter> = StrMap::new();
        let mut pmap: StrMap<SwappableWorkerPool> = StrMap::new();
        proof {
            assert(rp.take(0) =~= Seq::empty());
            assert(pp.take(0) =~= Seq::empty());
        }
        let ghost rn = routers@.len();
        let ghost mut i: int = 0;
        while routers.len() > 0
            invariant
                0 <= i <= rn,
                routers@.len() == rn - i,
                rp.len() == rn,
                forall|j: int| 0 <= j < routers@.len() ==> rp[i + j] == (#[trigger] routers@[j].host@,
                    routers@[j].router),
                forall|j: int| 0 <= j < routers@.len() ==> (#[trigger] routers@[j].router).wf(),
                rmap.wf(),
                rmap.spec_map() == pairs_to_map(rp.take(i as int)),
                forall|k: Seq<char>|
                    rmap.spec_map().contains_key(k) ==> (#[trigger] rmap.spec_map()[k]).wf(),
            decreases routers@.len(),
        {
            let ghost pre = rmap.spec_map();
            let t = routers.remove(0);
            rmap.insert(t.host, t.router);
            proof {
                assert(rp.take(i + 1).drop_last() =~= rp.take(i as int));
                i = i + 1;
            }
        }
        proof {
            assert(rp.take(rn as int) =~= rp);
        }
        let ghost pn = pools@.len();
        let ghost mut k: int = 0;
        while pools.len() > 0
            invariant
                0 <= k <= pn,
                pools@.len() == pn - k,
                pp.len() == pn,
                forall|j: int| 0 <= j < pools@.len() ==> pp[k + j] == (#[trigger] pools@[j].host@,
                    pools@[j].pool),
                pmap.wf(),
                pmap.spec_map() == pairs_to_map(pp.take(k as int)),
            decreases pools@.len(),
        {
            let t = pools.remove(0);
            pmap.insert(t.host, t.pool);
            proof {
                assert(pp.take(k + 1).drop_last() =~= pp.take(k as int));
                k = k + 1;
            }
        }
        proof {
            assert(pp.take(pn as int) =~= pp);
        }
        AppState { routers: rmap, worker_pools: pmap }
    }
}

/// The registry key for a Host header: everything before the first `:`, so
/// a host carrying a port is looked up without it.
pub open spec fn spec_host_key(h: Seq<char>) -> Seq<char> {
    if h.contains(':') {
        h.take(spec_first_index(h, ':'))
    } else {
        h
    }
}

pub fn host_key(h: &str) -> (r: String)
    ensures
        r@ == spec_host_key(h@),
{
    match index_of_char(h, ':') {
        Some(i) => {
            proof {
                lemma_first_index_some(h@, ':', i as int);
            }
            let k = h.substring_char(0, i);
            proof {
                assert(k@ =~= h@.take(i as int));
            }
            String::from_str(k)
        },
        None => {
            proof {
                lemma_first_index_none(h@, ':');
            }
            String::from_str(h)
        },
    }
}

/// Looks the request host's router up, ignoring any `:port` suffix, and
/// snapshots it. Fails with `HostNotFound` exactly when no tenant is
/// registered under the stripped host.
pub fn get_router_by_host(host: &str, state: &AppState) -> (r: Result<AppRouter, AppError>)
    requires
        state.wf(),
    ensures
        ({
            let key = spec_host_key(host@);
            match r {
                Ok(router) => {
                    &&& state.routers.spec_map().contains_key(key)
                    &&& router.code@ == state.routers.spec_map()[key].spec_code()
                    &&& router.spec_routes() == state.routers.spec_map()[key].spec_routes()
                    &&& router.wf()
                },
                Err(e) => {
                    &&& !state.routers.spec_map().contains_key(key)
                    &&& e matches AppError::HostNotFound(m) && m@ == key
                },
            }
        }),
{
    let key = host_key(host);
    match state.routers.get(key.as_str()) {
        Some(h) => Ok(h.load()),
        None => Err(AppError::HostNotFound(key)),
    }
}

/// Looks the request host's worker pool up, ignoring any `:port` suffix,
/// and snapshots it. Fails with `HostNotFound` exactly when no tenant is
/// registered under the stripped host.
pub fn get_worker_pool_by_host(host: &str, state: &AppState) -> (r: Result<WorkerPool, AppError>)
    requires
        state.wf(),
    ensures
        ({
            let key = spec_host_key(host@);
            match r {
                Ok(pool) => {
                    &&& state.worker_pools.spec_map().contains_key(key)
                    &&& pool.code@ == state.worker_pools.spec_map()[key].inner.code@
                    &&& pool.pool == state.worker_pools.spec_map()[key].inner.pool
                },
                Err(e) => {
                    &&& !state.worker_pools.spec_map().contains_key(key)
                    &&& e matches AppError::HostNotFound(m) && m@ == key
                },
            }
        }),
{
    let key = host_key(host);
    match state.worker_pools.get(key.as_str()) {
        Some(h) => Ok(h.load()),
        None => Err(AppError::HostNotFound(key)),
    }
}

/// Relies on String::from_utf8: it accepts exactly the byte strings that
/// are valid UTF-8, and decodes them so that re-encoding gives the input
/// back.
#[verifier::external_body]
fn string_from_utf8(bytes: Vec<u8>) -> (r: Option<String>)
    ensures
        r matches Some(s) ==> vstd::utf8::valid_utf8(bytes@) && vstd::utf8::encode_utf8(s@)
            == bytes@,
        r is None ==> !vstd::utf8::valid_utf8(bytes@),
{
    String::from_utf8(bytes).ok()
}

/// Builds the `Req` a handler receives: the method, the full request URL,
/// the query and header mappings, the matched path parameters, and the
/// body decoded as UTF-8 — a body that is not valid UTF-8 is dropped
/// rather than rejected.
pub fn assemble_req(
    method: &str,
    url: &str,
    query: StrMap<String>,
    params: StrMap<String>,
    headers: StrMap<String>,
    body: Option<Vec<u8>>,
) -> (r: Req)
    ensures
        r.method@ == method@,
        r.url@ == url@,
        r.query == query,
        r.params == params,
        r.headers == headers,
        match body {
            Some(bytes) => {
                &&& vstd::utf8::valid_utf8(bytes@) ==> (r.body matches Some(s)
                    && vstd::utf8::encode_utf8(s@) == bytes@)
                &&& !vstd::utf8::valid_utf8(bytes@) ==> r.body is None
            },
            None => r.body is None,
        },
{
    let decoded: Option<String> = match body {
        Some(bytes) => string_from_utf8(bytes),
        None => None,
    };
    Req::builder().method(method).url(url).query(query).params(params).headers(headers).body(
        decoded,
    ).build()
}

/// Everything the dispatcher hands the worker tier for one request: the
/// matched handler's name, the assembled `Req`, and a snapshot of the
/// tenant's pool.
#[derive(Debug)]
pub struct Dispatch {
    pub handler: String,
    pub req: Req,
    pub pool: WorkerPool,
}

/// The request pipeline up to the worker send: look the router up by the
/// stripped host, match the method and path, look the pool up, and
/// assemble the `Req`. Fails with the first failing step's error:
/// `HostNotFound` when the host has no router or no pool, `RouteNotFound`
/// when the tenant's router has no matching route.
pub fn dispatch_request(
    state: &AppState,
    host: &str,
    method: &str,
    path: &str,
    url: &str,
    query: StrMap<String>,
    headers: StrMap<String>,
    body: Option<Vec<u8>>,
) -> (r: Result<Dispatch, AppError>)
    requires
        state.wf(),
    ensures
        ({
            let key = spec_host_key(host@);
            if !state.routers.spec_map().contains_key(key) {
                r matches Err(e) && (e matches AppError::HostNotFound(m) && m@ == key)
            } else {
                let routes = state.routers.spec_map()[key].spec_routes();
                match spec_best_route(routes, method@, spec_path_segments(path@)) {
                    None => r matches Err(e) && (e matches AppError::RouteNotFound(p) && p@
                        == path@),
                    Some(j) => if !state.worker_pools.spec_map().contains_key(key) {
                        r matches Err(e) && (e matches AppError::HostNotFound(m) && m@ == key)
                    } else {
                        r matches Ok(d) && {
                            &&& d.handler@ == routes[j].handler
                            &&& d.pool.code@ == state.worker_pools.spec_map()[key].inner.code@
                            &&& d.pool.pool == state.worker_pools.spec_map()[key].inner.pool
                            &&& d.req.method@ == method@
                            &&& d.req.url@ == url@
                            &&& d.req.query == query
                            &&& d.req.headers == headers
                            &&& d.req.params.string_view() == crate::strmap::pairs_to_map(
                                seg_params(routes[j].pattern, spec_path_segments(path@)),
                            )
                            &&& (body matches Some(bytes) ==> (vstd::utf8::valid_utf8(bytes@)
                                ==> (d.req.body matches Some(s) && vstd::utf8::encode_utf8(s@)
                                == bytes@)))
                            &&& (body matches Some(bytes) ==> (!vstd::utf8::valid_utf8(bytes@)
                                ==> d.req.body is None))
                            &&& (body is None ==> d.req.body is None)
                        }
                    },
                }
            }
        }),
{
    let router = match get_router_by_host(host, state) {
        Ok(router) => router,
        Err(e) => {
            return Err(e);
        },
    };
    let matched = match router.match_it(method, path) {
        Ok(m) => m,
        Err(e) => {
            return Err(e);
        },
    };
    let pool = match get_worker_pool_by_host(host, state) {
        Ok(p) => p,
        Err(e) => {
            return Err(e);
        },
    };
    let req = assemble_req(method, url, query, matched.params, headers, body);
    Ok(Dispatch { handler: matched.handler, req, pool })
}

} // verus!
