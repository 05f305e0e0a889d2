use geo_server::context::{form_map, json_body_outcome, rewrite_missing_field};
use geo_server::net::parse_ipv4;
use geo_server::polyline::{split_coord, split_polyline};
use geo_server::text::parse_u32;
use geo_server::{HttpContext, HttpError, Ipv4};

fn ctx() -> HttpContext {
    HttpContext {
        id: 5,
        uid: String::new(),
        method: "POST".to_string(),
        path: "/api/area".to_string(),
        query: None,
        headers: vec![],
        peer: Some(Ipv4 { a: 10, b: 0, c: 0, d: 1 }),
        body: vec![],
        attrs: None,
    }
}

fn with_header(mut c: HttpContext, name: &str, value: &str) -> HttpContext {
    c.headers.push((name.to_string(), value.as_bytes().to_vec()));
    c
}

#[test]
fn header_lookup_ignores_case() {
    let c = with_header(with_header(ctx(), "content-type", "a"), "content-type", "b");
    assert_eq!(c.header("Content-Type"), Some(&b"a".to_vec()));
    assert_eq!(c.header("x-missing"), None);
}

#[test]
fn remote_ip_prefers_real_ip_then_forwarded_then_peer() {
    let c = with_header(with_header(ctx(), "x-forwarded-for", "5.6.7.8, 9.9.9.9"), "x-real-ip", "1.2.3.4");
    assert_eq!(c.remote_ip(), Ipv4 { a: 1, b: 2, c: 3, d: 4 });
    let c = with_header(with_header(ctx(), "x-real-ip", "not-ip"), "x-forwarded-for", "5.6.7.8,9.9.9.9");
    assert_eq!(c.remote_ip(), Ipv4 { a: 5, b: 6, c: 7, d: 8 });
    assert_eq!(ctx().remote_ip(), Ipv4 { a: 10, b: 0, c: 0, d: 1 });
    let mut c = ctx();
    c.peer = None;
    assert_eq!(c.remote_ip(), Ipv4 { a: 0, b: 0, c: 0, d: 0 });
}

#[test]
fn ipv4_text_and_parse() {
    assert_eq!(parse_ipv4(b"192.168.0.1"), Some(Ipv4 { a: 192, b: 168, c: 0, d: 1 }));
    assert_eq!(parse_ipv4(b"256.1.1.1"), None);
    assert_eq!(parse_ipv4(b"1.2.3"), None);
    assert_eq!(parse_ipv4(b"1.2.3.4.5"), None);
    let ip = Ipv4 { a: 127, b: 0, c: 0, d: 255 };
    assert_eq!(ip.to_text(), "127.0.0.255");
    assert_eq!(parse_ipv4(ip.to_text().as_bytes()), Some(ip));
}

#[test]
fn user_id_reads_a_number() {
    let mut c = ctx();
    assert_eq!(c.user_id(), 0);
    c.uid = "123".to_string();
    assert_eq!(c.user_id(), 123);
    c.uid = "abc".to_string();
    assert_eq!(c.user_id(), 0);
    c.uid = "4294967296".to_string();
    assert_eq!(c.user_id(), 0);
    assert_eq!(parse_u32(b"+7"), Some(7));
    assert_eq!(parse_u32(b"4294967295"), Some(u32::MAX));
}

#[test]
fn attributes() {
    let mut c = ctx();
    assert!(c.attr("k").is_none());
    c.set_attr("k".to_string(), serde_json::Value::from(3));
    c.set_attr("k".to_string(), serde_json::Value::from(4));
    assert_eq!(c.attr("k"), Some(&serde_json::Value::from(4)));
    assert!(c.attr("other").is_none());
}

#[test]
fn form_fields() {
    let mut c = ctx();
    c.body = b"a=1&b=x%20y&a=3".to_vec();
    let v = c.into_form_vec().unwrap();
    assert_eq!(v, vec![("a".to_string(), "1".to_string()), ("b".to_string(), "x y".to_string()), ("a".to_string(), "3".to_string())]);
    let m = form_map(v);
    assert_eq!(m.get("a"), Some(&"3".to_string()));
    assert_eq!(m.get("b"), Some(&"x y".to_string()));
    let mut c = ctx();
    c.body = b"q=1".to_vec();
    let m = c.into_form_map().unwrap();
    assert_eq!(m.get("q"), Some(&"1".to_string()));
}

#[test]
fn url_params() {
    let mut c = ctx();
    assert!(c.get_url_params().is_empty());
    c.query = Some("lng=110.3&lat=20".to_string());
    assert_eq!(c.get_url_params(), vec![("lng".to_string(), "110.3".to_string()), ("lat".to_string(), "20".to_string())]);
}

#[test]
fn json_body() {
    let c = ctx();
    assert!(matches!(c.into_opt_json::<u32>(Ok(1)), Ok(None)));
    assert!(matches!(ctx().into_json::<u32>(Ok(1)), Err(HttpError::BodyNotJson)));
    let mut c = ctx();
    c.body = b"7".to_vec();
    assert!(matches!(c.into_json::<u32>(Ok(7)), Ok(7)));
    let mut c = ctx();
    c.body = b"{}".to_vec();
    match c.into_opt_json::<u32>(Err("missing field `password` at line 1 column 2".to_string())) {
        Err(HttpError::Custom(m)) => assert_eq!(m, "字段password不能为空"),
        _ => panic!("expected a message"),
    }
    assert!(matches!(json_body_outcome::<u32>(true, Err("x".to_string())), Ok(None)));
}

#[test]
fn missing_field_rewrite() {
    assert_eq!(rewrite_missing_field("missing field `name`"), "字段name不能为空");
    assert_eq!(rewrite_missing_field("missing field `name"), "missing field `name");
    assert_eq!(rewrite_missing_field("expected value"), "expected value");
}

#[test]
fn body_bytes() {
    let mut c = ctx();
    c.body = b"abc".to_vec();
    assert_eq!(c.into_bytes().unwrap(), b"abc".to_vec());
}

#[test]
fn polyline_fields() {
    let r = split_polyline(b"1,2;3,4|5,6").unwrap();
    let t = |a: &str, b: &str| (a.as_bytes().to_vec(), b.as_bytes().to_vec());
    assert_eq!(r, vec![vec![t("1", "2"), t("3", "4")], vec![t("5", "6")]]);
    assert_eq!(split_polyline(b"1,2;3"), None);
    assert_eq!(split_coord(b"110.5,20.1"), Some(t("110.5", "20.1")));
    assert_eq!(split_coord(b"1,2,3"), Some(t("1", "2")));
    assert_eq!(split_coord(b"12"), None);
}

#[test]
fn header_names_compare_without_case_on_both_sides() {
    let c = with_header(ctx(), "X-Real-IP", "7.7.7.7");
    assert_eq!(c.header("x-real-ip"), Some(&b"7.7.7.7".to_vec()));
    assert_eq!(c.remote_ip(), Ipv4 { a: 7, b: 7, c: 7, d: 7 });
}
