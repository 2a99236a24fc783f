use dino::config::ProjectRoute;
use dino::engine::Res;
use dino::error::AppError;
use dino::registry::{assemble_req, dispatch_request, get_router_by_host,
    get_worker_pool_by_host, host_key, AppState, TenentRouter, TenentWorkerPool};
use dino::router::SwappableAppRouter;
use dino::strmap::StrMap;
use dino::worker_pool::SwappableWorkerPool;

fn demo_state() -> AppState {
    let routes = vec![ProjectRoute::new(
        "GET".to_string(),
        "/hello".to_string(),
        "hello".to_string(),
    )];
    let router = SwappableAppRouter::try_new("code", &routes).unwrap();
    let pool = SwappableWorkerPool::try_new("code", 2).unwrap();
    AppState::new(
        vec![TenentRouter::new("localhost", router)],
        vec![TenentWorkerPool::new("localhost", pool)],
    )
}

#[test]
fn host_with_port_is_looked_up_without_port() {
    assert_eq!(host_key("localhost:8888"), "localhost");
    assert_eq!(host_key("example.com"), "example.com");
    let state = demo_state();
    let router = get_router_by_host("localhost:8888", &state).unwrap();
    assert_eq!(router.code, "code");
    let pool = get_worker_pool_by_host("localhost:3000", &state).unwrap();
    assert_eq!(pool.code, "code");
}

#[test]
fn unknown_host_is_host_not_found() {
    let state = demo_state();
    let e = get_router_by_host("absent.example", &state).unwrap_err();
    assert!(matches!(&e, AppError::HostNotFound(h) if h == "absent.example"));
    assert_eq!(e.status_code(), 404);
    assert_eq!(e.message(), "Host not found: absent.example");
    let e2 = get_worker_pool_by_host("absent.example:80", &state).unwrap_err();
    assert!(matches!(&e2, AppError::HostNotFound(h) if h == "absent.example"));
}

#[test]
fn assemble_req_decodes_utf8_body() {
    let req = assemble_req(
        "GET",
        "/hello?x=1",
        StrMap::new(),
        StrMap::new(),
        StrMap::new(),
        Some(b"hello body".to_vec()),
    );
    assert_eq!(req.method, "GET");
    assert_eq!(req.url, "/hello?x=1");
    assert_eq!(req.body, Some("hello body".to_string()));
}

#[test]
fn assemble_req_drops_invalid_utf8_body() {
    let req = assemble_req(
        "POST",
        "/x",
        StrMap::new(),
        StrMap::new(),
        StrMap::new(),
        Some(vec![0xff, 0xfe, 0x80]),
    );
    assert_eq!(req.body, None);
}

#[test]
fn empty_body_gives_empty_http_body() {
    let req = assemble_req("GET", "/x", StrMap::new(), StrMap::new(), StrMap::new(), None);
    assert_eq!(req.body, None);
    let res = Res::new(200, StrMap::new(), None);
    assert_eq!(res.body_or_empty(), "");
    let res2 = Res::new(200, StrMap::new(), Some("hi".to_string()));
    assert_eq!(res2.body_or_empty(), "hi");
}

#[test]
fn later_registration_for_same_host_wins() {
    let routes = vec![ProjectRoute::new(
        "GET".to_string(),
        "/hello".to_string(),
        "hello".to_string(),
    )];
    let r1 = SwappableAppRouter::try_new("first", &routes).unwrap();
    let r2 = SwappableAppRouter::try_new("second", &routes).unwrap();
    let state = AppState::new(
        vec![
            TenentRouter::new("localhost", r1),
            TenentRouter::new("localhost", r2),
        ],
        vec![],
    );
    assert_eq!(get_router_by_host("localhost", &state).unwrap().code, "second");
}

#[test]
fn error_status_codes_follow_the_taxonomy() {
    assert_eq!(AppError::HostNotFound("h".to_string()).status_code(), 404);
    assert_eq!(AppError::RouteNotFound("p".to_string()).status_code(), 404);
    assert_eq!(AppError::HandlerNotFound("f".to_string()).status_code(), 500);
    assert_eq!(AppError::HandlerThrew("boom".to_string()).status_code(), 500);
    assert_eq!(AppError::BadResponseShape.status_code(), 500);
    assert_eq!(AppError::WorkerSendFailed.status_code(), 503);
    assert_eq!(AppError::ModuleNotFound("m".to_string()).status_code(), 500);
    assert_eq!(AppError::LoadIo("io".to_string()).status_code(), 500);
    assert_eq!(AppError::TranspileFailed("t".to_string()).status_code(), 500);
    assert_eq!(AppError::BundleFailed("b".to_string()).status_code(), 500);
    assert_eq!(AppError::ConfigParseFailed("c".to_string()).status_code(), 500);
}

#[test]
fn error_messages_carry_their_context() {
    assert_eq!(
        AppError::ModuleNotFound("x.js".to_string()).message(),
        "Module not found \"x.js\""
    );
    assert_eq!(AppError::HandlerThrew("boom".to_string()).message(), "Handler threw: boom");
    assert_eq!(AppError::BadResponseShape.message(), "Bad response shape");
    assert_eq!(AppError::WorkerSendFailed.message(), "Worker send failed");
}

#[test]
fn req_builder_sets_every_field() {
    let mut q = StrMap::new();
    q.insert("x".to_string(), "1".to_string());
    let req = dino::engine::Req::builder()
        .method("GET")
        .url("http://localhost:8888/hello?x=1")
        .query(q)
        .params(StrMap::new())
        .headers(StrMap::new())
        .body(None)
        .build();
    assert_eq!(req.method, "GET");
    assert_eq!(req.url, "http://localhost:8888/hello?x=1");
    assert_eq!(req.query.get("x"), Some(&"1".to_string()));
    assert_eq!(req.params.len(), 0);
    assert_eq!(req.body, None);
}

#[test]
fn strmap_insert_is_last_wins_and_order_preserving() {
    let mut m: StrMap<String> = StrMap::new();
    m.insert("a".to_string(), "1".to_string());
    m.insert("b".to_string(), "2".to_string());
    m.insert("a".to_string(), "3".to_string());
    assert_eq!(m.len(), 2);
    assert_eq!(m.get("a"), Some(&"3".to_string()));
    assert_eq!(m.get("b"), Some(&"2".to_string()));
    assert_eq!(m.get("c"), None);
    assert_eq!(m.key_at(0).as_str(), "a");
    assert_eq!(m.key_at(1).as_str(), "b");
    assert_eq!(m.value_at(0).as_str(), "3");
}

#[test]
fn dispatch_pipeline_matches_and_assembles() {
    let routes = vec![ProjectRoute::new(
        "GET".to_string(),
        "/users/:id".to_string(),
        "getUser".to_string(),
    )];
    let router = SwappableAppRouter::try_new("code", &routes).unwrap();
    let pool = SwappableWorkerPool::try_new("code", 3).unwrap();
    let state = AppState::new(
        vec![TenentRouter::new("localhost", router)],
        vec![TenentWorkerPool::new("localhost", pool)],
    );
    let d = dispatch_request(
        &state,
        "localhost:8888",
        "GET",
        "/users/42",
        "http://localhost:8888/users/42",
        StrMap::new(),
        StrMap::new(),
        None,
    )
    .unwrap();
    assert_eq!(d.handler, "getUser");
    assert_eq!(d.req.params.get("id"), Some(&"42".to_string()));
    assert_eq!(d.req.url, "http://localhost:8888/users/42");
    assert_eq!(d.pool.code, "code");

    let e = dispatch_request(
        &state,
        "absent.example",
        "GET",
        "/users/42",
        "http://absent.example/users/42",
        StrMap::new(),
        StrMap::new(),
        None,
    )
    .unwrap_err();
    assert!(matches!(e, AppError::HostNotFound(_)));

    let e2 = dispatch_request(
        &state,
        "localhost",
        "GET",
        "/nope",
        "http://localhost/nope",
        StrMap::new(),
        StrMap::new(),
        None,
    )
    .unwrap_err();
    assert!(matches!(e2, AppError::RouteNotFound(_)));
}

#[test]
fn echo_request_reaches_its_handler_with_query_and_no_params() {
    let routes = vec![ProjectRoute::new(
        "GET".to_string(),
        "/hello".to_string(),
        "hello".to_string(),
    )];
    let router = SwappableAppRouter::try_new("code", &routes).unwrap();
    let pool = SwappableWorkerPool::try_new("code", 10).unwrap();
    let state = AppState::new(
        vec![TenentRouter::new("localhost", router)],
        vec![TenentWorkerPool::new("localhost", pool)],
    );
    let mut query = StrMap::new();
    query.insert("x".to_string(), "1".to_string());
    let d = dispatch_request(
        &state,
        "localhost:8888",
        "GET",
        "/hello",
        "http://localhost:8888/hello?x=1",
        query,
        StrMap::new(),
        None,
    )
    .unwrap();
    assert_eq!(d.handler, "hello");
    assert_eq!(d.req.method, "GET");
    assert!(d.req.url.contains("/hello"));
    assert_eq!(d.req.query.get("x"), Some(&"1".to_string()));
    assert_eq!(d.req.params.len(), 0);
}
