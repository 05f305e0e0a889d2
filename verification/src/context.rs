use vstd::prelude::*;
use vstd::hash_map::StringHashMap;
use vstd::utf8::encode_utf8;
use crate::bytes::bytes_eq;
use crate::error::{HttpError, HttpResult};
use crate::net::{Ipv4, parse_ipv4, parse_ipv4_spec};
use crate::strings::{chars_of, string_of};
use crate::text::{parse_u32, parse_u32_spec, split_bytes, split_on, lemma_split_nonempty};

verus! {

/// `serde_json::Value`, the type of request attributes.
#[verifier::external_type_specification]
#[verifier::external_body]
pub struct ExJsonValue(serde_json::Value);

/// The (name, value) pairs of an `application/x-www-form-urlencoded` text,
/// percent-decoded, as form_urlencoded reads them.
pub uninterp spec fn form_pairs(input: Seq<u8>) -> Seq<(Seq<char>, Seq<char>)>;

/// `form_urlencoded::parse`, with each pair taken as owned strings.
#[verifier::external_body]
fn parse_form(input: &[u8]) -> (pairs: Vec<(String, String)>)
    ensures
        pairs@.map_values(|p: (String, String)| (p.0@, p.1@)) == form_pairs(input@),
{
    form_urlencoded::parse(input).map(|(k, v)| (k.into_owned(), v.into_owned())).collect()
}

/// ASCII lower case of a byte (what header name lookup compares).
pub open spec fn lower_byte(b: u8) -> u8 {
    if 65 <= b <= 90 { (b + 32) as u8 } else { b }
}

/// Whether a header value is visible ASCII (what `HeaderValue::to_str`
/// accepts).
pub open spec fn visible_ascii(s: Seq<u8>) -> bool {
    forall|i: int| 0 <= i < s.len() ==> (32 <= #[trigger] s[i] < 127 || s[i] == 9)
}

/// The value of the first header whose name, in ASCII lower case, is
/// `name`.
pub open spec fn header_lookup(hs: Seq<(Seq<u8>, Seq<u8>)>, name: Seq<u8>) -> Option<Seq<u8>>
    decreases hs.len(),
{
    if hs.len() == 0 {
        None
    } else if hs[0].0.map_values(|b: u8| lower_byte(b)) == name {
        Some(hs[0].1)
    } else {
        header_lookup(hs.drop_first(), name)
    }
}

/// The client address as `remote_ip` finds it: the `X-Real-IP` header when
/// it is an IPv4 address; else the first comma-separated entry of the
/// `X-Forwarded-For` header when that is one; else the peer's IPv4 address;
/// else `0.0.0.0`.
pub open spec fn remote_ip_spec(real_ip: Option<Seq<u8>>, forwarded: Option<Seq<u8>>, peer: Option<Ipv4>) -> Ipv4 {
    if real_ip matches Some(v) && visible_ascii(v) && parse_ipv4_spec(v) is Some {
        parse_ipv4_spec(real_ip->0)->0
    } else if forwarded matches Some(v) && visible_ascii(v) && parse_ipv4_spec(split_on(v, 44)[0]) is Some {
        parse_ipv4_spec(split_on(forwarded->0, 44)[0])->0
    } else if peer is Some {
        peer->0
    } else {
        Ipv4 { a: 0, b: 0, c: 0, d: 0 }
    }
}

/// An `X-Real-IP` header holding an IPv4 address decides the client
/// address, whatever the other header and the peer are.
pub proof fn lemma_real_ip_first(v: Seq<u8>, forwarded: Option<Seq<u8>>, peer: Option<Ipv4>)
    requires
        visible_ascii(v),
        parse_ipv4_spec(v) is Some,
    ensures
        remote_ip_spec(Some(v), forwarded, peer) == parse_ipv4_spec(v)->0,
{
}

/// Without an `X-Real-IP` header, the first comma-separated entry of the
/// `X-Forwarded-For` header, when it is an IPv4 address, is the client
/// address, whatever the peer is.
pub proof fn lemma_forwarded_for_without_real_ip(forwarded: Seq<u8>, peer: Option<Ipv4>)
    requires
        visible_ascii(forwarded),
        parse_ipv4_spec(split_on(forwarded, 44)[0]) is Some,
    ensures
        remote_ip_spec(None, Some(forwarded), peer) == parse_ipv4_spec(split_on(forwarded, 44)[0])->0,
{
}

/// With neither header, the client address is the peer's IPv4 address, or
/// `0.0.0.0` when the peer has none.
pub proof fn lemma_peer_without_headers(peer: Option<Ipv4>)
    ensures
        remote_ip_spec(None, None, peer) == (match peer {
            Some(p) => p,
            None => Ipv4 { a: 0, b: 0, c: 0, d: 0 },
        }),
{
}

/// The message shown for a JSON body that did not parse: serde_json's
/// "missing field `<name>`..." becomes "字段<name>不能为空"; other messages are
/// kept.
pub open spec fn missing_field_message(m: Seq<char>) -> Seq<char> {
    let prefix = "missing field `"@;
    if prefix.is_prefix_of(m) {
        let rest = m.skip(prefix.len() as int);
        match first_backtick(rest) {
            Some(pos) => "字段"@ + rest.take(pos as int) + "不能为空"@,
            None => m,
        }
    } else {
        m
    }
}

/// Position of the first backtick of `s`.
pub open spec fn first_backtick(s: Seq<char>) -> Option<nat>
    decreases s.len(),
{
    if s.len() == 0 {
        None
    } else if s[0] == '`' {
        Some(0)
    } else {
        match first_backtick(s.drop_first()) {
            Some(p) => Some(p + 1),
            None => None,
        }
    }
}

/// The map made of `pairs`, later pairs replacing earlier ones.
pub open spec fn pairs_to_map(pairs: Seq<(Seq<char>, Seq<char>)>) -> Map<Seq<char>, Seq<char>>
    decreases pairs.len(),
{
    if pairs.len() == 0 {
        Map::empty()
    } else {
        pairs_to_map(pairs.drop_last()).insert(pairs.last().0, pairs.last().1)
    }
}

/// A request as the handlers see it.
pub struct HttpContext {
    /// request id (unique per request)
    pub id: u32,
    /// current login user id (empty when not logged in)
    pub uid: String,
    /// the HTTP method
    pub method: String,
    /// the request path
    pub path: String,
    /// the query string, when the URI has one
    pub query: Option<String>,
    /// the headers in order (names are compared without regard to ASCII
    /// case)
    pub headers: Vec<(String, Vec<u8>)>,
    /// the peer's IPv4 address (`None` for an IPv6 peer)
    pub peer: Option<Ipv4>,
    /// the request body
    pub body: Vec<u8>,
    /// additional attributes (user-defined)
    pub attrs: Option<StringHashMap<serde_json::Value>>,
}

impl HttpContext {
    /// The headers as (name bytes, value bytes).
    pub open spec fn headers_view(&self) -> Seq<(Seq<u8>, Seq<u8>)> {
        self.headers@.map_values(|h: (String, Vec<u8>)| (encode_utf8(h.0@), h.1@))
    }

    /// The value of the first header named `key` (compared without regard
    /// to ASCII case).
    pub fn header(&self, key: &str) -> (r: Option<&Vec<u8>>)
        ensures
            match r {
                Some(v) => header_lookup(self.headers_view(), encode_utf8(key@).map_values(|b: u8| lower_byte(b))) == Some(v@),
                None => header_lookup(self.headers_view(), encode_utf8(key@).map_values(|b: u8| lower_byte(b))) is None,
            },
    {
        let want = lower_bytes(key.as_bytes());
        let ghost hv = self.headers_view();
        let mut k: usize = 0;
        assert(hv.skip(0) =~= hv);
        while k < self.headers.len()
            invariant
                hv == self.headers_view(),
                want@ == encode_utf8(key@).map_values(|b: u8| lower_byte(b)),
                k <= self.headers@.len(),
                header_lookup(hv, want@) == header_lookup(hv.skip(k as int), want@),
            decreases self.headers@.len() - k,
        {
            let entry = &self.headers[k];
            assert(hv.skip(k as int)[0] == hv[k as int]);
            assert(hv.skip(k as int).drop_first() =~= hv.skip(k + 1));
            assert(hv[k as int] == (encode_utf8(entry.0@), entry.1@));
            let name = lower_bytes(entry.0.as_str().as_bytes());
            if bytes_eq(name.as_slice(), want.as_slice()) {
                assert(hv.skip(k as int)[0].0.map_values(|b: u8| lower_byte(b)) == want@);
                return Some(&entry.1);
            }
            k = k + 1;
        }
        None
    }

    /// The client's IPv4 address (see `remote_ip_spec`).
    pub fn remote_ip(&self) -> (ip: Ipv4)
        ensures
            ip == remote_ip_spec(
                header_lookup(self.headers_view(), encode_utf8("X-Real-IP"@).map_values(|b: u8| lower_byte(b))),
                header_lookup(self.headers_view(), encode_utf8("X-Forwarded-For"@).map_values(|b: u8| lower_byte(b))),
                self.peer,
            ),
            ({
                let real_ip = header_lookup(self.headers_view(), encode_utf8("X-Real-IP"@).map_values(|b: u8| lower_byte(b)));
                let fwd = header_lookup(self.headers_view(), encode_utf8("X-Forwarded-For"@).map_values(|b: u8| lower_byte(b)));
                (real_ip is None && fwd is Some && visible_ascii(fwd->0) && parse_ipv4_spec(split_on(fwd->0, 44)[0]) is Some)
                    ==> ip == parse_ipv4_spec(split_on(fwd->0, 44)[0])->0
            }),
    {
        if let Some(v) = self.header("X-Real-IP") {
            if visible(v.as_slice()) {
                if let Some(ip) = parse_ipv4(v.as_slice()) {
                    return ip;
                }
            }
        }
        if let Some(v) = self.header("X-Forwarded-For") {
            if visible(v.as_slice()) {
                let parts = split_bytes(v.as_slice(), 44);
                proof {
                    lemma_split_nonempty(v@, 44);
                }
                assert(parts@[0]@ == split_on(v@, 44)[0]);
                if let Some(ip) = parse_ipv4(parts[0].as_slice()) {
                    return ip;
                }
            }
        }
        match self.peer {
            Some(ip) => ip,
            None => Ipv4 { a: 0, b: 0, c: 0, d: 0 },
        }
    }

    /// The logged-in user's id: `uid` read as a `u32`, or 0 when it is not
    /// one.
    pub fn user_id(&self) -> (n: u32)
        ensures
            n == match parse_u32_spec(encode_utf8(self.uid@)) {
                Some(v) => v,
                None => 0,
            },
    {
        match parse_u32(self.uid.as_str().as_bytes()) {
            Some(n) => n,
            None => 0,
        }
    }

    /// The attribute stored under `key`, if any.
    pub fn attr(&self, key: &str) -> (r: Option<&serde_json::Value>)
        ensures
            match self.attrs {
                Some(m) => match r {
                    Some(v) => m@.contains_key(key@) && *v == m@[key@],
                    None => !m@.contains_key(key@),
                },
                None => r is None,
            },
    {
        match &self.attrs {
            Some(m) => m.get(key),
            None => None,
        }
    }

    /// Stores `value` under `key`, replacing an earlier value.
    pub fn set_attr(&mut self, key: String, value: serde_json::Value)
        ensures
            final(self).attrs matches Some(m) && m@ == (match old(self).attrs {
                Some(o) => o@,
                None => Map::empty(),
            }).insert(key@, value),
            final(self).id == old(self).id,
            final(self).uid == old(self).uid,
            final(self).method == old(self).method,
            final(self).path == old(self).path,
            final(self).query == old(self).query,
            final(self).headers == old(self).headers,
            final(self).peer == old(self).peer,
            final(self).body == old(self).body,
    {
        let mut m = match self.attrs.take() {
            Some(m) => m,
            None => StringHashMap::new(),
        };
        m.insert(key, value);
        self.attrs = Some(m);
    }

    /// The request body.
    pub fn into_bytes(self) -> (r: HttpResult<Vec<u8>>)
        ensures
            r matches Ok(b) && b@ == self.body@,
    {
        Ok(self.body)
    }

    /// The (name, value) pairs of the query string, percent-decoded.
    pub fn get_url_params(&self) -> (pairs: Vec<(String, String)>)
        ensures
            pairs@.map_values(|p: (String, String)| (p.0@, p.1@)) == form_pairs(match self.query {
                Some(q) => encode_utf8(q@),
                None => Seq::empty(),
            }),
    {
        match &self.query {
            Some(q) => parse_form(q.as_str().as_bytes()),
            None => {
                proof {
                    reveal_strlit("");
                }
                assert(encode_utf8(""@) =~= Seq::<u8>::empty());
                parse_form("".as_bytes())
            },
        }
    }

    /// The form fields of the body, in order.
    pub fn into_form_vec(self) -> (r: HttpResult<Vec<(String, String)>>)
        ensures
            r matches Ok(pairs) && pairs@.map_values(|p: (String, String)| (p.0@, p.1@)) == form_pairs(self.body@),
    {
        Ok(parse_form(self.body.as_slice()))
    }

    /// The form fields of the body as a map; a field given twice keeps its
    /// last value.
    pub fn into_form_map(self) -> (r: HttpResult<StringHashMap<String>>)
        ensures
            r matches Ok(m) && m@.map_values(|v: String| v@) == pairs_to_map(form_pairs(self.body@)),
    {
        let pairs = parse_form(self.body.as_slice());
        Ok(form_map(pairs))
    }
}

/// The map made of the given fields, later ones replacing earlier ones.
pub fn form_map(pairs: Vec<(String, String)>) -> (m: StringHashMap<String>)
    ensures
        m@.map_values(|v: String| v@) == pairs_to_map(pairs@.map_values(|p: (String, String)| (p.0@, p.1@))),
{
    let ghost pv = pairs@.map_values(|p: (String, String)| (p.0@, p.1@));
    let mut m: StringHashMap<String> = StringHashMap::new();
    let mut i: usize = 0;
    assert(m@.map_values(|v: String| v@) =~= pairs_to_map(pv.take(0)));
    for pair in it: pairs
        invariant
            pv == it.seq().map_values(|p: (String, String)| (p.0@, p.1@)),
            m@.map_values(|v: String| v@) == pairs_to_map(pv.take(it.index() as int)),
    {
        let ghost idx = it.index();
        let ghost before = m@;
        assert(pv.take(idx + 1).drop_last() =~= pv.take(idx as int));
        let (k, v) = pair;
        m.insert(k, v);
        assert(m@.map_values(|v: String| v@) =~= pairs_to_map(pv.take(idx + 1)));
    }
    assert(pv.take(pv.len() as int) =~= pv);
    m
}

/// The bytes with ASCII upper-case letters turned to lower case.
fn lower_bytes(raw: &[u8]) -> (want: Vec<u8>)
    ensures
        want@ == raw@.map_values(|b: u8| lower_byte(b)),
{
    let mut want: Vec<u8> = Vec::new();
    let mut i: usize = 0;
    while i < raw.len()
        invariant
            i <= raw@.len(),
            want@ == raw@.take(i as int).map_values(|b: u8| lower_byte(b)),
        decreases raw@.len() - i,
    {
        let b = raw[i];
        want.push(if 65 <= b && b <= 90 { b + 32 } else { b });
        i = i + 1;
        assert(want@ =~= raw@.take(i as int).map_values(|b: u8| lower_byte(b)));
    }
    assert(raw@.take(i as int) =~= raw@);
    want
}

/// Whether every byte is visible ASCII.
fn visible(s: &[u8]) -> (b: bool)
    ensures
        b == visible_ascii(s@),
{
    let mut i: usize = 0;
    while i < s.len()
        invariant
            i <= s@.len(),
            forall|k: int| 0 <= k < i ==> (32 <= #[trigger] s@[k] < 127 || s@[k] == 9),
        decreases s@.len() - i,
    {
        let c = s[i];
        if !((32 <= c && c < 127) || c == 9) {
            return false;
        }
        i = i + 1;
    }
    true
}

/// The outcome of reading the request body as JSON: `None` for an empty
/// body; the value when `parsed` (the outcome of parsing the body) is one;
/// else an error whose message is `missing_field_message` of the parser's.
pub fn json_body_outcome<T>(body_is_empty: bool, parsed: Result<T, String>) -> (r: HttpResult<Option<T>>)
    ensures
        body_is_empty ==> r == Ok::<Option<T>, HttpError>(None),
        !body_is_empty ==> (parsed matches Ok(v) ==> r == Ok::<Option<T>, HttpError>(Some(v))),
        !body_is_empty ==> (parsed matches Err(m) ==> (r matches Err(HttpError::Custom(e)) && e@ == missing_field_message(m@))),
{
    if body_is_empty {
        return Ok(None);
    }
    match parsed {
        Ok(v) => Ok(Some(v)),
        Err(m) => Err(HttpError::Custom(rewrite_missing_field(m.as_str()))),
    }
}

/// Rewrites serde_json's "missing field" message (see
/// `missing_field_message`).
pub fn rewrite_missing_field(m: &str) -> (r: String)
    ensures
        r@ == missing_field_message(m@),
{
    let cs = chars_of(m);
    let prefix = chars_of("missing field `");
    if prefix.len() > cs.len() {
        return String::from_str(m);
    }
    let mut i: usize = 0;
    while i < prefix.len()
        invariant
            prefix@ == "missing field `"@,
            cs@ == m@,
            prefix@.len() <= cs@.len(),
            i <= prefix@.len(),
            forall|k: int| 0 <= k < i ==> prefix@[k] == cs@[k],
        decreases prefix@.len() - i,
    {
        if prefix[i] != cs[i] {
            return String::from_str(m);
        }
        i = i + 1;
    }
    assert(prefix@.is_prefix_of(cs@));
    let ghost rest = cs@.skip(prefix@.len() as int);
    let mut j: usize = prefix.len();
    let mut name: Vec<char> = Vec::new();
    while j < cs.len()
        invariant
            cs@ == m@,
            prefix@ == "missing field `"@,
            prefix@.is_prefix_of(cs@),
            rest == cs@.skip(prefix@.len() as int),
            prefix@.len() <= j <= cs@.len(),
            name@ == rest.take(j - prefix@.len()),
            first_backtick(rest) == match first_backtick(cs@.skip(j as int)) {
                Some(p) => Some(p + (j - prefix@.len()) as nat),
                None => None,
            },
        decreases cs@.len() - j,
    {
        let ghost here = cs@.skip(j as int);
        assert(here[0] == cs@[j as int]);
        assert(here.drop_first() =~= cs@.skip(j + 1));
        if cs[j] == '`' {
            assert(first_backtick(here) == Some(0nat));
            assert(first_backtick(rest) == Some((j - prefix@.len()) as nat));
            let mut out = String::from_str("字段");
            let field = string_of(name.as_slice());
            out.append(field.as_str());
            out.append("不能为空");
            assert(out@ == "字段"@ + rest.take((j - prefix@.len()) as int) + "不能为空"@);
            return out;
        }
        name.push(cs[j]);
        j = j + 1;
        assert(name@ =~= rest.take(j - prefix@.len()));
    }
    assert(cs@.skip(j as int) =~= Seq::<char>::empty());
    String::from_str(m)
}

impl HttpContext {
    /// Reads the body as JSON: `None` when the body is empty (see
    /// `json_body_outcome`); `parsed` is the outcome of parsing the body.
    pub fn into_opt_json<T>(self, parsed: Result<T, String>) -> (r: HttpResult<Option<T>>)
        ensures
            self.body@.len() == 0 ==> r == Ok::<Option<T>, HttpError>(None),
            self.body@.len() != 0 ==> (parsed matches Ok(v) ==> r == Ok::<Option<T>, HttpError>(Some(v))),
            self.body@.len() != 0 ==> (parsed matches Err(m) ==> (r matches Err(HttpError::Custom(e)) && e@ == missing_field_message(m@))),
    {
        json_body_outcome(self.body.len() == 0, parsed)
    }

    /// Reads the body as JSON that must be present: like `into_opt_json`,
    /// with an empty body reported as `BodyNotJson`.
    pub fn into_json<T>(self, parsed: Result<T, String>) -> (r: HttpResult<T>)
        ensures
            self.body@.len() == 0 ==> r matches Err(HttpError::BodyNotJson),
            self.body@.len() != 0 ==> (parsed matches Ok(v) ==> r == Ok::<T, HttpError>(v)),
            self.body@.len() != 0 ==> (parsed matches Err(m) ==> (r matches Err(HttpError::Custom(e)) && e@ == missing_field_message(m@))),
    {
        match self.into_opt_json(parsed) {
            Ok(Some(v)) => Ok(v),
            Ok(None) => Err(HttpError::BodyNotJson),
            Err(e) => Err(e),
        }
    }
}

} // verus!
