use vstd::prelude::*;
use crate::error::HttpError;
use crate::reply::{HttpResponse, Resp, headers_view, json_headers, fail_body, ok_body, json_str_encoding};
use crate::strings::chars_of;

verus! {

/// Request of the interfaces that take a record id.
pub struct GetReq {
    pub id: u32,
}

/// One region as the source JSON file describes it: its center as `x,y`
/// and its outline as rings of `x,y` points (see `split_polyline`).
pub struct RegionJson {
    pub code: u32,
    pub parent_code: u32,
    pub level: u32,
    pub center: String,
    pub name: String,
    pub polyline: String,
}

/// What `ping` answers: the reply the caller asked for, or `pong`.
pub fn ping_reply(reply: Option<String>) -> (r: String)
    ensures
        r@ == (match reply {
            Some(s) => s@,
            None => "pong"@,
        }),
{
    match reply {
        Some(s) => s,
        None => String::from_str("pong"),
    }
}

/// The message of `area` when no region holds the point.
pub const AREA_NOT_FOUND: &'static str = "未找到坐标对应的行政区域信息";

/// The reply of `area`: the region found, as `ok` carries it (`found` is
/// the outcome of writing it as JSON), or an error reply when no region
/// holds the point.
pub fn area_reply(found: Option<Result<Vec<u8>, serde_json::Error>>) -> (r: HttpResponse)
    ensures
        found matches Some(Ok(d)) ==> (r matches Ok(reply) && reply.status == 200 && headers_view(
            reply.headers@,
        ) == json_headers() && reply.body@ == ok_body(d@)),
        found matches Some(Err(_)) ==> (r matches Err(HttpError::Custom(m)) && m@ == "json序列化错误"@),
        found is None ==> (r matches Ok(reply) && reply.status == 500 && headers_view(
            reply.headers@,
        ) == json_headers() && reply.body@ == fail_body(500, json_str_encoding(AREA_NOT_FOUND@))),
{
    match found {
        Some(d) => Resp::ok(d),
        None => Resp::fail(AREA_NOT_FOUND),
    }
}

/// The listen address with a missing host filled in: `:port` becomes
/// `127.0.0.1:port`; anything else is kept.
pub fn normalize_listen(listen: String) -> (r: String)
    ensures
        r@ == (if listen@.len() > 0 && listen@[0] == ':' {
            "127.0.0.1"@ + listen@
        } else {
            listen@
        }),
{
    let cs = chars_of(listen.as_str());
    if cs.len() > 0 && cs[0] == ':' {
        let mut s = String::from_str("127.0.0.1");
        s.append(listen.as_str());
        s
    } else {
        listen
    }
}

} // verus!
