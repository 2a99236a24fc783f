use dino::config::ProjectRoute;
use dino::error::AppError;
use dino::router::{AppRouter, SwappableAppRouter};

fn route(method: &str, path: &str, handler: &str) -> ProjectRoute {
    ProjectRoute::new(method.to_string(), path.to_string(), handler.to_string())
}

#[test]
fn path_params_are_captured() {
    let routes = vec![route("GET", "/users/:id", "getUser")];
    let router = AppRouter::try_new("code", &routes).unwrap();
    let m = router.match_it("GET", "/users/42").unwrap();
    assert_eq!(m.handler, "getUser");
    assert_eq!(m.params.get("id"), Some(&"42".to_string()));
    assert_eq!(m.params.len(), 1);
}

#[test]
fn static_segment_beats_parameter() {
    let routes = vec![
        route("GET", "/users/:id", "getUser"),
        route("GET", "/users/me", "getSelf"),
    ];
    let router = AppRouter::try_new("code", &routes).unwrap();
    let m = router.match_it("GET", "/users/me").unwrap();
    assert_eq!(m.handler, "getSelf");
    let m2 = router.match_it("GET", "/users/7").unwrap();
    assert_eq!(m2.handler, "getUser");
}

#[test]
fn parameter_beats_catch_all() {
    let routes = vec![
        route("GET", "/files/*rest", "catchAll"),
        route("GET", "/files/:name", "oneFile"),
    ];
    let router = AppRouter::try_new("code", &routes).unwrap();
    let m = router.match_it("GET", "/files/a").unwrap();
    assert_eq!(m.handler, "oneFile");
    let m2 = router.match_it("GET", "/files/a/b").unwrap();
    assert_eq!(m2.handler, "catchAll");
    assert_eq!(m2.params.get("rest"), Some(&"a/b".to_string()));
}

#[test]
fn unmatched_path_is_route_not_found() {
    let routes = vec![route("GET", "/hello", "hello")];
    let router = AppRouter::try_new("code", &routes).unwrap();
    let e = router.match_it("GET", "/nope").unwrap_err();
    assert!(matches!(e, AppError::RouteNotFound(_)));
    assert_eq!(e.status_code(), 404);
    let e2 = router.match_it("POST", "/hello").unwrap_err();
    assert!(matches!(e2, AppError::RouteNotFound(_)));
}

#[test]
fn method_match_ignores_ascii_case() {
    let routes = vec![route("get", "/hello", "hello")];
    let router = AppRouter::try_new("code", &routes).unwrap();
    let m = router.match_it("GET", "/hello").unwrap();
    assert_eq!(m.handler, "hello");
}

#[test]
fn malformed_pattern_is_config_error() {
    let routes = vec![route("GET", "/a/*rest/b", "bad")];
    let e = AppRouter::try_new("code", &routes).unwrap_err();
    assert!(matches!(e, AppError::ConfigParseFailed(_)));
    let routes2 = vec![route("GET", "/a/:x/:x", "dup")];
    assert!(AppRouter::try_new("code", &routes2).is_err());
    let routes3 = vec![route("GET", "/a/:", "anon")];
    assert!(AppRouter::try_new("code", &routes3).is_err());
}

#[test]
fn swap_replaces_routes_and_failed_swap_keeps_old() {
    let v1 = vec![route("GET", "/hello", "one")];
    let mut handle = SwappableAppRouter::try_new("v1", &v1).unwrap();
    assert_eq!(handle.load().match_it("GET", "/hello").unwrap().handler, "one");

    let v2 = vec![route("GET", "/hello", "two")];
    handle.swap("v2", &v2).unwrap();
    let snap = handle.load();
    assert_eq!(snap.code, "v2");
    assert_eq!(snap.match_it("GET", "/hello").unwrap().handler, "two");

    let bad = vec![route("GET", "/x/*a/b", "bad")];
    assert!(handle.swap("v3", &bad).is_err());
    assert_eq!(handle.load().code, "v2");
}

#[test]
fn old_router_snapshot_survives_swap() {
    let v1 = vec![route("GET", "/hello", "one")];
    let mut handle = SwappableAppRouter::try_new("v1", &v1).unwrap();
    let snap = handle.load();
    let v2 = vec![route("GET", "/hello", "two")];
    handle.swap("v2", &v2).unwrap();
    assert_eq!(snap.code, "v1");
    assert_eq!(snap.match_it("GET", "/hello").unwrap().handler, "one");
}
