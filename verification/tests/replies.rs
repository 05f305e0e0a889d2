use geo_server::cors::CorsMiddleware;
use geo_server::service::{area_reply, normalize_listen, ping_reply};
use geo_server::{ApiResult, HttpContext, HttpErr, HttpError, Resp};

fn json_err() -> serde_json::Error {
    serde_json::from_str::<u32>("x").unwrap_err()
}

#[test]
fn api_result_constructors() {
    let a = ApiResult::ok(5u32);
    assert_eq!((a.code, a.message.clone(), a.data), (200, None, Some(5)));
    assert!(a.is_ok() && !a.is_fail());
    let b: ApiResult<u32> = ApiResult::ok_with_empty();
    assert_eq!((b.code, b.data), (200, None));
    let c: ApiResult<u32> = ApiResult::fail("oops".to_string());
    assert_eq!((c.code, c.message.clone(), c.data), (500, Some("oops".to_string()), None));
    assert!(c.is_fail() && !c.is_ok());
    let d: ApiResult<u32> = ApiResult::fail_with_code(10086, "x".to_string());
    assert_eq!(d.code, 10086);
    assert!(d.is_fail());
}

#[test]
fn fail_replies() {
    let r = Resp::fail("required field `username`").unwrap();
    assert_eq!(r.status, 500);
    assert_eq!(r.body, br#"{"code":500,"message":"required field `username`"}"#.to_vec());
    let r = Resp::fail_with_code(10086, "say \"hi\"").unwrap();
    assert_eq!(r.status, 500);
    assert_eq!(r.body, br#"{"code":10086,"message":"say \"hi\""}"#.to_vec());
    let r = Resp::fail_with_status(404, 0, "Not Found").unwrap();
    assert_eq!(r.status, 404);
    assert_eq!(r.body, br#"{"code":0,"message":"Not Found"}"#.to_vec());
    let r = Resp::internal_server_error().unwrap();
    assert_eq!(r.body, br#"{"code":500,"message":"internal server error"}"#.to_vec());
}

#[test]
fn ok_replies() {
    let r = Resp::ok_with_empty().unwrap();
    assert_eq!((r.status, r.body), (200, br#"{"code":200}"#.to_vec()));
    let r = Resp::ok(Ok(br#"{"a":1}"#.to_vec())).unwrap();
    assert_eq!(r.body, br#"{"code":200,"data":{"a":1}}"#.to_vec());
    assert_eq!(r.headers, vec![("Content-Type".to_string(), "applicatoin/json; charset=UTF-8".to_string())]);
    match Resp::ok(Err(json_err())) {
        Err(HttpError::Custom(m)) => assert_eq!(m, "json序列化错误"),
        _ => panic!("expected a serialisation error"),
    }
    let r = Resp::ok_opt(None).unwrap();
    assert_eq!(r.body, br#"{"code":200}"#.to_vec());
    let r = Resp::ok_opt(Some(Ok(b"3".to_vec()))).unwrap();
    assert_eq!(r.body, br#"{"code":200,"data":3}"#.to_vec());
}

#[test]
fn plain_replies() {
    let r = Resp::resp(201, b"x".to_vec()).unwrap();
    assert_eq!((r.status, r.body), (201, b"x".to_vec()));
    let r = Resp::resp_ok(b"y".to_vec()).unwrap();
    assert_eq!((r.status, r.body), (200, b"y".to_vec()));
    let ar: ApiResult<u32> = ApiResult::fail("no".to_string());
    let r = Resp::resp_with(&ar, Ok(b"null".to_vec())).unwrap();
    assert_eq!((r.status, r.body), (500, b"null".to_vec()));
    let ar = ApiResult::ok(1u32);
    let r = Resp::resp_with(&ar, Ok(b"1".to_vec())).unwrap();
    assert_eq!(r.status, 200);
    assert!(matches!(Resp::resp_with(&ar, Err(json_err())), Err(HttpError::Custom(_))));
}

#[test]
fn error_messages() {
    assert_eq!(HttpError::BodyNotJson.message(), "请求参数格式错误");
    assert_eq!(HttpError::Custom("abc".to_string()).message(), "abc");
    assert_eq!(HttpError::Unknown(7).message(), "内部错误: 7");
    let e = HttpError::from_anyhow(anyhow::Error::msg("boom"));
    assert!(matches!(e, HttpError::Custom(ref m) if m == "boom"));
}

#[test]
fn http_err_maps_errors_to_unknown() {
    let ok: Result<u32, String> = Ok(3);
    assert!(matches!(ok.http_err(9), Ok(3)));
    let bad: Result<u32, String> = Err("x".to_string());
    assert!(matches!(bad.http_err(9), Err(HttpError::Unknown(9))));
}

fn ctx(method: &str) -> HttpContext {
    HttpContext {
        id: 1,
        uid: String::new(),
        method: method.to_string(),
        path: "/api/ping".to_string(),
        query: None,
        headers: vec![],
        peer: None,
        body: vec![],
        attrs: None,
    }
}

#[test]
fn cors_preflight() {
    assert!(CorsMiddleware::is_preflight(&ctx("OPTIONS")));
    assert!(!CorsMiddleware::is_preflight(&ctx("GET")));
    let r = CorsMiddleware::preflight_reply().unwrap();
    assert_eq!(r.status, 200);
    assert!(r.body.is_empty());
    let names: Vec<&str> = r.headers.iter().map(|h| h.0.as_str()).collect();
    assert_eq!(names, vec!["access-control-allow-headers", "access-control-allow-methods", "access-control-allow-origin", "allow"]);
    assert_eq!(r.headers[3].1, "GET,HEAD,OPTIONS");
}

#[test]
fn cors_headers_are_appended() {
    let mut r = Resp::fail("x").unwrap();
    let body = r.body.clone();
    CorsMiddleware::add_headers(&mut r);
    assert_eq!(r.status, 500);
    assert_eq!(r.body, body);
    assert_eq!(r.headers.len(), 4);
    assert_eq!(r.headers[0].0, "Content-Type");
    assert!(r.headers[1..].iter().all(|h| h.1 == "*"));
}

#[test]
fn service_helpers() {
    assert_eq!(ping_reply(None), "pong");
    assert_eq!(ping_reply(Some("hello".to_string())), "hello");
    assert_eq!(normalize_listen(":6406".to_string()), "127.0.0.1:6406");
    assert_eq!(normalize_listen("0.0.0.0:80".to_string()), "0.0.0.0:80");
    assert_eq!(normalize_listen(String::new()), "");
    let r = area_reply(None).unwrap();
    assert_eq!(r.status, 500);
    assert_eq!(r.body, r#"{"code":500,"message":"未找到坐标对应的行政区域信息"}"#.as_bytes().to_vec());
    let r = area_reply(Some(Ok(br#"{"code":1}"#.to_vec()))).unwrap();
    assert_eq!(r.body, br#"{"code":200,"data":{"code":1}}"#.to_vec());
}

#[test]
fn fail_reply_escapes_the_message() {
    let r = Resp::fail_with_status(400, 10086, "a\"b").unwrap();
    assert_eq!(r.status, 400);
    assert_eq!(r.body, br#"{"code":10086,"message":"a\"b"}"#.to_vec());
    let r = Resp::fail("line\nbreak").unwrap();
    assert_eq!(r.body, br#"{"code":500,"message":"line\nbreak"}"#.to_vec());
}
