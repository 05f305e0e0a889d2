use vstd::prelude::*;
use vstd::utf8::{encode_utf8, encode_utf8_decode_utf8};
use crate::bytes::bytes_eq;
use crate::context::HttpContext;
use crate::error::HttpError;
use crate::reply::{Reply, HttpResponse, headers_view};

verus! {

/// Middleware that answers CORS preflight requests and marks every other
/// reply as open to all origins.
pub struct CorsMiddleware;

/// The headers added to every reply that is not a preflight answer.
pub open spec fn cors_headers() -> Seq<(Seq<char>, Seq<char>)> {
    seq![
        ("access-control-allow-headers"@, "*"@),
        ("access-control-allow-methods"@, "*"@),
        ("access-control-allow-origin"@, "*"@),
    ]
}

/// The headers of the answer to a preflight request.
pub open spec fn preflight_headers() -> Seq<(Seq<char>, Seq<char>)> {
    cors_headers().push(("allow"@, "GET,HEAD,OPTIONS"@))
}

/// The headers that CORS adds are the three distinct Access-Control-Allow
/// headers (allowed headers, allowed methods, allowed origin), each
/// allowing everything; a preflight answer holds them and the `Allow` header.
pub proof fn lemma_cors_headers_are_the_allow_headers()
    ensures
        cors_headers().len() == 3,
        cors_headers().contains(("access-control-allow-headers"@, "*"@)),
        cors_headers().contains(("access-control-allow-methods"@, "*"@)),
        cors_headers().contains(("access-control-allow-origin"@, "*"@)),
        "access-control-allow-headers"@ != "access-control-allow-methods"@,
        "access-control-allow-headers"@ != "access-control-allow-origin"@,
        "access-control-allow-methods"@ != "access-control-allow-origin"@,
        preflight_headers().contains(("access-control-allow-origin"@, "*"@)),
        preflight_headers().contains(("allow"@, "GET,HEAD,OPTIONS"@)),
{
    reveal_strlit("access-control-allow-headers");
    reveal_strlit("access-control-allow-methods");
    reveal_strlit("access-control-allow-origin");
    assert("access-control-allow-headers"@[21] != "access-control-allow-methods"@[21]);
    assert("access-control-allow-headers"@[21] != "access-control-allow-origin"@[21]);
    assert("access-control-allow-methods"@[21] != "access-control-allow-origin"@[21]);
    assert(cors_headers()[0] == ("access-control-allow-headers"@, "*"@));
    assert(cors_headers()[1] == ("access-control-allow-methods"@, "*"@));
    assert(cors_headers()[2] == ("access-control-allow-origin"@, "*"@));
    assert(preflight_headers()[2] == ("access-control-allow-origin"@, "*"@));
    assert(preflight_headers()[3] == ("allow"@, "GET,HEAD,OPTIONS"@));
}

fn push_header(h: &mut Vec<(String, String)>, name: &str, value: &str)
    ensures
        headers_view(final(h)@) == headers_view(old(h)@).push((name@, value@)),
{
    h.push((String::from_str(name), String::from_str(value)));
    assert(headers_view(final(h)@) =~= headers_view(old(h)@).push((name@, value@)));
}

impl CorsMiddleware {
    /// Whether the request is a preflight request (method `OPTIONS`).
    pub fn is_preflight(ctx: &HttpContext) -> (b: bool)
        ensures
            b == (ctx.method@ == "OPTIONS"@),
    {
        let b = bytes_eq(ctx.method.as_str().as_bytes(), "OPTIONS".as_bytes());
        proof {
            encode_utf8_decode_utf8(ctx.method@);
            encode_utf8_decode_utf8("OPTIONS"@);
        }
        b
    }

    /// The answer to a preflight request: status 200, the CORS headers and
    /// an `Allow` header, and an empty body.
    pub fn preflight_reply() -> (r: HttpResponse)
        ensures
            r matches Ok(reply) && reply.status == 200 && headers_view(reply.headers@)
                == preflight_headers() && reply.body@.len() == 0,
    {
        let mut headers: Vec<(String, String)> = Vec::new();
        push_header(&mut headers, "access-control-allow-headers", "*");
        push_header(&mut headers, "access-control-allow-methods", "*");
        push_header(&mut headers, "access-control-allow-origin", "*");
        push_header(&mut headers, "allow", "GET,HEAD,OPTIONS");
        assert(headers_view(headers@) =~= preflight_headers());
        Ok(Reply { status: 200, headers, body: Vec::new() })
    }

    /// Appends the CORS headers to a reply; nothing else changes.
    pub fn add_headers(reply: &mut Reply)
        ensures
            headers_view(final(reply).headers@) == headers_view(old(reply).headers@) + cors_headers(),
            headers_view(final(reply).headers@).contains(("access-control-allow-origin"@, "*"@)),
            final(reply).status == old(reply).status,
            final(reply).body == old(reply).body,
    {
        push_header(&mut reply.headers, "access-control-allow-headers", "*");
        push_header(&mut reply.headers, "access-control-allow-methods", "*");
        push_header(&mut reply.headers, "access-control-allow-origin", "*");
        assert(headers_view(reply.headers@) =~= headers_view(old(reply).headers@) + cors_headers());
        proof {
            lemma_cors_headers_are_the_allow_headers();
            let n: int = headers_view(old(reply).headers@).len() as int;
            assert(headers_view(reply.headers@)[n + 2] == cors_headers()[2]);
        }
    }
}

} // verus!
