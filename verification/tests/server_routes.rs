use geo_server::server::step_id;
use geo_server::{HttpContext, HttpError, HttpServer};

type Srv = HttpServer<&'static str, &'static str, u8>;

fn server() -> Srv {
    let mut s = Srv::new("/api/", true, "access-log", "not-found", 0);
    s.register("ping", "ping");
    s.register("area", "area");
    s.register("user/*", "user-any");
    s.register("user/vip/*", "vip-any");
    s
}

#[test]
fn exact_route_is_found() {
    let s = server();
    assert_eq!(s.find_http_handler("/api/ping"), Some(&"ping"));
    assert_eq!(s.find_http_handler("/api/area"), Some(&"area"));
}

#[test]
fn wildcard_route_takes_the_longest_directory() {
    let s = server();
    assert_eq!(s.find_http_handler("/api/user/12"), Some(&"user-any"));
    assert_eq!(s.find_http_handler("/api/user/vip/7"), Some(&"vip-any"));
    assert_eq!(s.find_http_handler("/api/user/a/b/c"), Some(&"user-any"));
}

#[test]
fn unknown_or_foreign_paths_are_unrouted() {
    let s = server();
    assert_eq!(s.find_http_handler("/api/nothing"), None);
    assert_eq!(s.find_http_handler("/ping"), None);
    assert_eq!(s.find_http_handler("/ap"), None);
    assert_eq!(s.endpoint("/api/nothing"), &"not-found");
    assert_eq!(s.endpoint("/api/ping"), &"ping");
}

#[test]
fn registering_again_replaces_the_handler() {
    let mut s = server();
    s.register("ping", "ping2");
    assert_eq!(s.find_http_handler("/api/ping"), Some(&"ping2"));
    assert_eq!(s.find_http_handler("/api/area"), Some(&"area"));
}

#[test]
fn empty_prefix_routes_whole_path() {
    let mut s = Srv::new("", false, "log", "nf", 0);
    s.register("/x", "x");
    assert_eq!(s.find_http_handler("/x"), Some(&"x"));
    assert_eq!(s.middleware_list().len(), 0);
}

#[test]
fn middleware_chain_keeps_order() {
    let mut s = server();
    s.middleware("cors");
    assert_eq!(s.middleware_list(), &["access-log", "cors"]);
    s.default_handler("fallback");
    s.error_handler(9);
    assert_eq!(s.endpoint("/api/none"), &"fallback");
    assert_eq!(s.error_fn(), &9);
}

#[test]
fn request_ids_skip_zero() {
    let mut c: u32 = 1;
    assert_eq!(step_id(&mut c), 1);
    assert_eq!(c, 2);
    let mut c: u32 = u32::MAX;
    assert_eq!(step_id(&mut c), u32::MAX);
    assert_eq!(c, 0);
    assert_eq!(step_id(&mut c), 1);
    assert_eq!(c, 2);
}

#[test]
fn error_handler_reports_the_message() {
    let r = Srv::handle_error(3, HttpError::Custom("bad input".to_string()));
    assert_eq!(r.status, 500);
    assert_eq!(r.body, br#"{"code":500,"message":"bad input"}"#.to_vec());
    let r = Srv::handle_error(3, HttpError::Unknown(42));
    assert_eq!(r.body, r#"{"code":500,"message":"内部错误: 42"}"#.as_bytes().to_vec());
    let r = Srv::handle_error(3, HttpError::BodyNotJson);
    assert_eq!(r.body, r#"{"code":500,"message":"请求参数格式错误"}"#.as_bytes().to_vec());
}

fn context() -> HttpContext {
    HttpContext {
        id: 1,
        uid: String::new(),
        method: "GET".to_string(),
        path: "/api/none".to_string(),
        query: None,
        headers: vec![],
        peer: None,
        body: vec![],
        attrs: None,
    }
}

#[test]
fn not_found_reply() {
    let r = Srv::handle_not_found(context()).unwrap();
    assert_eq!(r.status, 404);
    assert_eq!(r.body, br#"{"code":404,"message":"Not Found"}"#.to_vec());
    assert_eq!(r.headers, vec![("Content-Type".to_string(), "applicatoin/json; charset=UTF-8".to_string())]);
}

#[test]
fn unbuildable_error_reply_falls_back() {
    let r = Srv::reply_or_internal_error(Err(HttpError::Custom("x".to_string())));
    assert_eq!(r.status, 500);
    assert!(r.headers.is_empty());
    assert_eq!(r.body, b"internal server error".to_vec());
    let built = geo_server::Resp::fail("y");
    let expected = geo_server::Resp::fail("y").unwrap();
    let r = Srv::reply_or_internal_error(built);
    assert_eq!((r.status, r.body, r.headers), (expected.status, expected.body, expected.headers));
}

#[test]
fn request_ids_are_distinct_until_wrap() {
    let mut c: u32 = 1;
    let ids: Vec<u32> = (0..1000).map(|_| step_id(&mut c)).collect();
    let mut sorted = ids.clone();
    sorted.dedup();
    assert_eq!(sorted.len(), 1000);
    assert!(ids.iter().all(|&i| i != 0));
    assert_eq!(ids[999], 1000);
}
