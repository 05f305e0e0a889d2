use vstd::prelude::*;
use vstd::utf8::encode_utf8;
use crate::api_result::ApiResult;
use crate::bytes::{push_all};
use crate::error::{HttpError, HttpResult};
use crate::text::decimal;

verus! {

/// `serde_json::Error`, the error of JSON serialisation.
#[verifier::external_type_specification]
#[verifier::external_body]
pub struct ExJsonError(serde_json::Error);

/// http header "Content-Type"
pub const CONTENT_TYPE: &'static str = "Content-Type";

/// http header "applicatoin/json; charset=UTF-8"
pub const APPLICATION_JSON: &'static str = "applicatoin/json; charset=UTF-8";

/// An HTTP reply: status code, headers in order, and body.
#[derive(Debug)]
pub struct Reply {
    pub status: u16,
    pub headers: Vec<(String, String)>,
    pub body: Vec<u8>,
}

/// Replies of request handlers.
pub type HttpResponse = HttpResult<Reply>;

/// The headers of a reply as (name, value) text.
pub open spec fn headers_view(h: Seq<(String, String)>) -> Seq<(Seq<char>, Seq<char>)> {
    h.map_values(|p: (String, String)| (p.0@, p.1@))
}

/// The single header of JSON replies.
pub open spec fn json_headers() -> Seq<(Seq<char>, Seq<char>)> {
    seq![(CONTENT_TYPE@, APPLICATION_JSON@)]
}

/// The JSON text of a string (quoted and escaped), as serde_json writes it.
pub uninterp spec fn json_str_encoding(s: Seq<char>) -> Seq<u8>;

/// `serde_json::to_vec` on a string: the string's JSON text
/// (`json_str_encoding`). Writing a string into a `Vec` cannot fail: the
/// string serialiser only writes escaped text, and writing to a `Vec` never
/// returns an error.
#[verifier::external_body]
fn json_str(s: &str) -> (r: Result<Vec<u8>, serde_json::Error>)
    ensures
        r is Ok,
        r matches Ok(b) ==> b@ == json_str_encoding(s@),
{
    serde_json::to_vec(s)
}

/// The text of a serde_json error (`Display`). Nothing is claimed of it.
#[verifier::external_body]
fn json_error_text(e: &serde_json::Error) -> String {
    e.to_string()
}

/// `itoa::Buffer::format` on a `u32`: its decimal digits.
#[verifier::external_body]
fn itoa_u32(n: u32) -> (r: Vec<u8>)
    ensures
        r@ == decimal(n as nat),
{
    let mut buf = itoa::Buffer::new();
    buf.format(n).as_bytes().to_vec()
}

/// Body of a reply that reports data: `{"code":200,"data":<data>}`.
pub open spec fn ok_body(data: Seq<u8>) -> Seq<u8> {
    encode_utf8("{\"code\":200,\"data\":"@) + data + encode_utf8("}"@)
}

/// Body of a reply that reports an error:
/// `{"code":<code>,"message":<message>}`.
pub open spec fn fail_body(code: u32, message_json: Seq<u8>) -> Seq<u8> {
    encode_utf8("{\"code\":"@) + decimal(code as nat) + encode_utf8(",\"message\":"@)
        + message_json + encode_utf8("}"@)
}

/// Body of a reply with no data: `{"code":200}`.
pub open spec fn empty_ok_body() -> Seq<u8> {
    encode_utf8("{\"code\":200}"@)
}

/// Builds replies.
pub struct Resp;

fn json_header_list() -> (h: Vec<(String, String)>)
    ensures
        headers_view(h@) == json_headers(),
{
    let mut h: Vec<(String, String)> = Vec::new();
    h.push((String::from_str(CONTENT_TYPE), String::from_str(APPLICATION_JSON)));
    assert(headers_view(h@) =~= json_headers());
    h
}

impl Resp {
    /// A JSON reply with the given status and body.
    pub fn resp(status: u16, body: Vec<u8>) -> (r: HttpResponse)
        ensures
            r matches Ok(reply) && reply.status == status && headers_view(reply.headers@)
                == json_headers() && reply.body@ == body@,
    {
        Ok(Reply { status, headers: json_header_list(), body })
    }

    /// A JSON reply with status 200 and the given body.
    pub fn resp_ok(body: Vec<u8>) -> (r: HttpResponse)
        ensures
            r matches Ok(reply) && reply.status == 200 && headers_view(reply.headers@)
                == json_headers() && reply.body@ == body@,
    {
        Ok(Reply { status: 200, headers: json_header_list(), body })
    }

    /// A reply for an `ApiResult`: status 200 when it reports success, else
    /// 500; the body is the JSON of the whole result (`json`, the outcome
    /// of serialising `ar`).
    pub fn resp_with<T>(ar: &ApiResult<T>, json: Result<Vec<u8>, serde_json::Error>) -> (r: HttpResponse)
        ensures
            json is Err ==> r matches Err(HttpError::Custom(_)),
            json matches Ok(d) ==> (r matches Ok(reply) && reply.status == (if ar.code == 200 { 200u16 } else { 500u16 })
                && headers_view(reply.headers@) == json_headers() && reply.body@ == d@),
    {
        let status: u16 = if ar.is_ok() { 200 } else { 500 };
        match json {
            Ok(body) => Resp::resp(status, body),
            Err(e) => Err(HttpError::Custom(json_error_text(&e))),
        }
    }

    /// A 200 reply with no data: `{"code":200}`.
    pub fn ok_with_empty() -> (r: HttpResponse)
        ensures
            r matches Ok(reply) && reply.status == 200 && headers_view(reply.headers@)
                == json_headers() && reply.body@ == empty_ok_body(),
    {
        let mut body: Vec<u8> = Vec::new();
        push_all(&mut body, "{\"code\":200}".as_bytes());
        Resp::resp_ok(body)
    }

    /// A 200 reply carrying data: `{"code":200,"data":<data>}`, where
    /// `data` is the outcome of serialising the data to JSON.
    pub fn ok(data: Result<Vec<u8>, serde_json::Error>) -> (r: HttpResponse)
        ensures
            data is Err ==> (r matches Err(HttpError::Custom(m)) && m@ == "json序列化错误"@),
            data matches Ok(d) ==> (r matches Ok(reply) && reply.status == 200 && headers_view(
                reply.headers@,
            ) == json_headers() && reply.body@ == ok_body(d@)),
    {
        match data {
            Ok(d) => {
                let mut w: Vec<u8> = Vec::new();
                push_all(&mut w, "{\"code\":200,\"data\":".as_bytes());
                push_all(&mut w, d.as_slice());
                push_all(&mut w, "}".as_bytes());
                Resp::resp_ok(w)
            },
            Err(_) => Err(HttpError::Custom(String::from_str("json序列化错误"))),
        }
    }

    /// `ok` when there is data, else `ok_with_empty`.
    pub fn ok_opt(data: Option<Result<Vec<u8>, serde_json::Error>>) -> (r: HttpResponse)
        ensures
            data is None ==> (r matches Ok(reply) && reply.status == 200 && headers_view(reply.headers@)
                == json_headers() && reply.body@ == empty_ok_body()),
            data matches Some(Err(_)) ==> (r matches Err(HttpError::Custom(m)) && m@ == "json序列化错误"@),
            data matches Some(Ok(d)) ==> (r matches Ok(reply) && reply.status == 200 && headers_view(
                reply.headers@,
            ) == json_headers() && reply.body@ == ok_body(d@)),
    {
        match data {
            Some(v) => Resp::ok(v),
            None => Resp::ok_with_empty(),
        }
    }

    /// An error reply with the given status and code, whose message is
    /// `message_json` (the outcome of writing the message as JSON).
    pub fn fail_with_message_json(status: u16, code: u32, message_json: Result<Vec<u8>, serde_json::Error>) -> (r: HttpResponse)
        ensures
            message_json is Err ==> r matches Err(HttpError::Custom(_)),
            message_json matches Ok(m) ==> (r matches Ok(reply) && reply.status == status
                && headers_view(reply.headers@) == json_headers() && reply.body@ == fail_body(
                code,
                m@,
            )),
    {
        match message_json {
            Ok(m) => {
                let digits = itoa_u32(code);
                let mut w: Vec<u8> = Vec::new();
                push_all(&mut w, "{\"code\":".as_bytes());
                push_all(&mut w, digits.as_slice());
                push_all(&mut w, ",\"message\":".as_bytes());
                push_all(&mut w, m.as_slice());
                push_all(&mut w, "}".as_bytes());
                Resp::resp(status, w)
            },
            Err(e) => Err(HttpError::Custom(json_error_text(&e))),
        }
    }

    /// An error reply with the given status, code and message:
    /// `{"code":<code>,"message":<message as JSON>}`.
    pub fn fail_with_status(status: u16, code: u32, message: &str) -> (r: HttpResponse)
        ensures
            (r matches Ok(reply) && reply.status == status && headers_view(reply.headers@)
                == json_headers() && reply.body@ == fail_body(code, json_str_encoding(message@))),
    {
        Resp::fail_with_message_json(status, code, json_str(message))
    }

    /// An error reply with status 500 and the given code and message.
    pub fn fail_with_code(code: u32, message: &str) -> (r: HttpResponse)
        ensures
            (r matches Ok(reply) && reply.status == 500 && headers_view(reply.headers@)
                == json_headers() && reply.body@ == fail_body(code, json_str_encoding(message@))),
    {
        Resp::fail_with_status(500, code, message)
    }

    /// An error reply with status 500, code 500 and the given message.
    pub fn fail(message: &str) -> (r: HttpResponse)
        ensures
            (r matches Ok(reply) && reply.status == 500 && headers_view(reply.headers@)
                == json_headers() && reply.body@ == fail_body(500, json_str_encoding(message@))),
    {
        Resp::fail_with_code(500, message)
    }

    /// `fail("internal server error")`.
    pub fn internal_server_error() -> (r: HttpResponse)
        ensures
            (r matches Ok(reply) && reply.status == 500 && headers_view(reply.headers@)
                == json_headers() && reply.body@ == fail_body(500, json_str_encoding("internal server error"@))),
    {
        Resp::fail("internal server error")
    }
}

} // verus!
