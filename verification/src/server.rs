use vstd::prelude::*;
use vstd::utf8::encode_utf8;
use crate::strings::{chars_of, string_of};
use crate::context::HttpContext;
use crate::error::{HttpError, body_not_json_text, unknown_text, hyper_display};
use crate::reply::{Reply, Resp, HttpResponse, headers_view, json_headers, fail_body, json_str_encoding};

verus! {

/// `fnv::FnvHasher`, the hasher of the route table.
#[verifier::external_type_specification]
#[verifier::external_body]
pub struct ExFnvHasher(fnv::FnvHasher);

/// `std::hash::BuildHasherDefault`, which builds the route table's hashers.
#[verifier::external_type_specification]
#[verifier::external_body]
#[verifier::reject_recursive_types(H)]
pub struct ExBuildHasherDefault<H>(std::hash::BuildHasherDefault<H>);

/// The entries of a route table: path -> index of its handler.
pub uninterp spec fn route_table(m: fnv::FnvHashMap<String, usize>) -> Map<Seq<char>, usize>;

/// `FnvHashMap::default`: a table with no entries.
#[verifier::external_body]
fn table_new() -> (table: fnv::FnvHashMap<String, usize>)
    ensures
        route_table(table).is_empty(),
{
    fnv::FnvHashMap::default()
}

/// `HashMap::insert` on the route table: the entry for `key` becomes `value`
/// and no other entry changes.
#[verifier::external_body]
fn table_insert(m: &mut fnv::FnvHashMap<String, usize>, key: String, value: usize)
    ensures
        route_table(*final(m)) == route_table(*old(m)).insert(key@, value),
{
    m.insert(key, value);
}

/// `HashMap::get` on the route table: the entry for `key`, if there is one.
#[verifier::external_body]
fn table_get(m: &fnv::FnvHashMap<String, usize>, key: &str) -> (r: Option<usize>)
    ensures
        r == (if route_table(*m).contains_key(key@) {
            Some(route_table(*m)[key@])
        } else {
            None
        }),
{
    m.get(key).copied()
}

/// The handler of the most specific wildcard pattern for `p`: for each `/`
/// of `p` from the right, the pattern made of `p` up to and including that
/// `/`, followed by `*`.
pub open spec fn wildcard_match<V>(routes: Map<Seq<char>, V>, p: Seq<char>) -> Option<V>
    decreases p.len(),
{
    if p.len() == 0 {
        None
    } else if p.last() == '/' && routes.contains_key(p.push('*')) {
        Some(routes[p.push('*')])
    } else {
        wildcard_match(routes, p.drop_last())
    }
}

/// The handler that serves `path`: none when `path` does not start with the
/// prefix; else the handler registered for the rest of the path, or else the
/// most specific wildcard pattern's handler.
pub open spec fn route_for<V>(prefix: Seq<char>, routes: Map<Seq<char>, V>, path: Seq<char>) -> Option<V> {
    if !prefix.is_prefix_of(path) {
        None
    } else {
        let rest = path.skip(prefix.len() as int);
        if routes.contains_key(rest) {
            Some(routes[rest])
        } else {
            wildcard_match(routes, rest)
        }
    }
}


/// A path registered under the server's prefix is served by the handler
/// registered last for it.
pub proof fn lemma_registered_route_found<V>(prefix: Seq<char>, routes: Map<Seq<char>, V>, path: Seq<char>, handler: V)
    ensures
        route_for(prefix, routes.insert(path, handler), prefix + path) == Some(handler),
{
    assert(prefix.is_prefix_of(prefix + path));
    assert((prefix + path).skip(prefix.len() as int) =~= path);
}

/// Registering a handler for one path leaves the handler of every other
/// registered path as it was.
pub proof fn lemma_other_route_kept<V>(
    prefix: Seq<char>,
    routes: Map<Seq<char>, V>,
    path: Seq<char>,
    other: Seq<char>,
    handler: V,
)
    requires
        routes.contains_key(other),
        other != path,
    ensures
        route_for(prefix, routes.insert(path, handler), prefix + other) == Some(routes[other]),
{
    assert(prefix.is_prefix_of(prefix + other));
    assert((prefix + other).skip(prefix.len() as int) =~= other);
}

/// A path that does not start with the prefix is never served by a route.
pub proof fn lemma_outside_prefix_unrouted<V>(prefix: Seq<char>, routes: Map<Seq<char>, V>, path: Seq<char>)
    requires
        !prefix.is_prefix_of(path),
    ensures
        route_for(prefix, routes, path) is None,
{
}

/// A path is only ever served by a handler that was registered for some
/// route: the rest of the path itself, or a wildcard pattern `<dir>/*`
/// where `<dir>/` starts the rest of the path.
pub proof fn lemma_route_is_registered<V>(prefix: Seq<char>, routes: Map<Seq<char>, V>, path: Seq<char>)
    requires
        route_for(prefix, routes, path) is Some,
    ensures
        exists|k: Seq<char>|
            #[trigger] routes.contains_key(k) && routes[k] == route_for(prefix, routes, path)->0 && (
            k == path.skip(prefix.len() as int) || (k.len() >= 2 && k.last() == '*' && k.drop_last().is_prefix_of(
                path.skip(prefix.len() as int),
            ) && k.drop_last().last() == '/')),
{
    let rest = path.skip(prefix.len() as int);
    if routes.contains_key(rest) {
        assert(routes.contains_key(rest) && routes[rest] == route_for(prefix, routes, path)->0);
    } else {
        assert(rest.take(rest.len() as int) =~= rest);
        let k = lemma_wildcard_is_registered(routes, rest, rest.len());
        assert(routes.contains_key(k) && routes[k] == route_for(prefix, routes, path)->0 && (k.len()
            >= 2 && k.last() == '*' && k.drop_last().is_prefix_of(rest) && k.drop_last().last()
            == '/'));
    }
}

proof fn lemma_wildcard_is_registered<V>(routes: Map<Seq<char>, V>, whole: Seq<char>, n: nat) -> (k: Seq<char>)
    requires
        n <= whole.len(),
        wildcard_match(routes, whole.take(n as int)) is Some,
    ensures
        routes.contains_key(k),
        routes[k] == wildcard_match(routes, whole.take(n as int))->0,
        k.len() >= 2,
        k.last() == '*',
        k.drop_last().is_prefix_of(whole),
        k.drop_last().last() == '/',
    decreases n,
{
    let p = whole.take(n as int);
    if p.last() == '/' && routes.contains_key(p.push('*')) {
        let k = p.push('*');
        assert(k.drop_last() =~= p);
        assert(p.is_prefix_of(whole));
        k
    } else {
        assert(p.drop_last() =~= whole.take(n - 1));
        lemma_wildcard_is_registered(routes, whole, (n - 1) as nat)
    }
}

/// The request id counter after one step: one past `c`, wrapping at the top.
pub open spec fn counter_after(c: u32) -> u32 {
    if c == u32::MAX { 0 } else { (c + 1) as u32 }
}

/// The request id taken from a counter that holds `c` (0 is skipped).
pub open spec fn id_from(c: u32) -> u32 {
    if c == 0 { 1 } else { c }
}

/// The counter after `n` ids have been taken from a counter holding `c`.
pub open spec fn counter_after_steps(c: u32, n: nat) -> u32
    decreases n,
{
    if n == 0 {
        c
    } else {
        counter_after(id_from(counter_after_steps(c, (n - 1) as nat)))
    }
}

/// The id of the `n`-th request (counting from 0) served by a counter that
/// starts at `c`.
pub open spec fn nth_id(c: u32, n: nat) -> u32 {
    id_from(counter_after_steps(c, n))
}

proof fn lemma_counter_steps(c: u32, n: nat)
    requires
        1 <= c,
        c + n <= u32::MAX,
    ensures
        counter_after_steps(c, n) == c + n,
    decreases n,
{
    if n > 0 {
        lemma_counter_steps(c, (n - 1) as nat);
    }
}

/// Two different requests get different ids, and no request gets id 0, as
/// long as the counter (which starts at 1) has not wrapped around.
pub proof fn lemma_request_ids_distinct(c: u32, i: nat, j: nat)
    requires
        1 <= c,
        i < j,
        c + j <= u32::MAX,
    ensures
        nth_id(c, i) != nth_id(c, j),
        nth_id(c, i) != 0,
        nth_id(c, j) != 0,
{
    lemma_counter_steps(c, i);
    lemma_counter_steps(c, j);
}

/// Takes the next request id from `counter` and advances it. The counter
/// starts at 1 and wraps around; id 0 is skipped, so ids are never 0.
pub fn step_id(counter: &mut u32) -> (id: u32)
    ensures
        id == id_from(*old(counter)),
        *final(counter) == counter_after(id),
        id != 0,
{
    let curr = *counter;
    *counter = curr.wrapping_add(1);
    if curr == 0 {
        let again = *counter;
        *counter = again.wrapping_add(1);
        again
    } else {
        curr
    }
}

/// Whether `m` may be the message of `err`: the message is determined for
/// every kind of error but an I/O error, whose text is the operating
/// system's.
pub open spec fn message_of(err: HttpError, m: Seq<char>) -> bool {
    match err {
        HttpError::BodyNotJson => m == body_not_json_text(),
        HttpError::Custom(s) => m == s@,
        HttpError::Unknown(id) => m == unknown_text(id),
        HttpError::IoError(_) => true,
        HttpError::HyperError(e) => m == hyper_display(e),
    }
}

/// Body of the reply sent when even the error reply cannot be built.
pub open spec fn internal_error_body() -> Seq<u8> {
    encode_utf8("internal server error"@)
}

/// Log middleware (its behaviour is the application's: it logs each request).
pub struct AccessLog;

/// HTTP server: the route table, the middleware chain, the handler used when
/// no route matches, and the handler of errors. `H` is the request handler
/// type, `M` the middleware type and `E` the error handler type.
pub struct HttpServer<H, M, E> {
    prefix: String,
    router: fnv::FnvHashMap<String, usize>,
    handlers: Vec<H>,
    middlewares: Vec<M>,
    default_handler: H,
    error_handler: E,
}

impl<H, M, E> HttpServer<H, M, E> {
    /// Well-formedness: every entry of the route table names a stored handler.
    pub closed spec fn wf(&self) -> bool {
        forall|k: Seq<char>|
            #[trigger] route_table(self.router).contains_key(k) ==> route_table(self.router)[k]
                < self.handlers@.len()
    }

    /// The path prefix that every served path starts with.
    pub closed spec fn prefix_view(&self) -> Seq<char> {
        self.prefix@
    }

    /// The registered routes: path (after the prefix) -> handler.
    pub closed spec fn routes(&self) -> Map<Seq<char>, H> {
        Map::new(
            |k: Seq<char>| route_table(self.router).contains_key(k),
            |k: Seq<char>| self.handlers@[route_table(self.router)[k] as int],
        )
    }

    /// The middleware chain, outermost first.
    pub closed spec fn middleware_chain(&self) -> Seq<M> {
        self.middlewares@
    }

    /// The handler used when no route matches.
    pub closed spec fn fallback(&self) -> H {
        self.default_handler
    }

    /// The handler of errors.
    pub closed spec fn on_error(&self) -> E {
        self.error_handler
    }

    /// A server for paths under `prefix` with no routes. The access log is
    /// the first middleware when `use_access_log` is set.
    pub fn new(prefix: &str, use_access_log: bool, access_log: M, default_handler: H, error_handler: E) -> (s: Self)
        ensures
            s.wf(),
            s.prefix_view() == prefix@,
            s.routes() == Map::<Seq<char>, H>::empty(),
            s.middleware_chain() == (if use_access_log { seq![access_log] } else { Seq::<M>::empty() }),
            s.fallback() == default_handler,
            s.on_error() == error_handler,
    {
        let mut middlewares: Vec<M> = Vec::new();
        if use_access_log {
            middlewares.push(access_log);
        }
        let s = HttpServer {
            prefix: String::from_str(prefix),
            router: table_new(),
            handlers: Vec::new(),
            middlewares,
            default_handler,
            error_handler,
        };
        assert(s.routes() =~= Map::<Seq<char>, H>::empty());
        assert(s.middleware_chain() =~= (if use_access_log { seq![access_log] } else { Seq::<M>::empty() }));
        s
    }

    /// Sets the handler used when no route matches.
    pub fn default_handler(&mut self, handler: H)
        requires
            old(self).wf(),
        ensures
            final(self).wf(),
            final(self).fallback() == handler,
            final(self).routes() == old(self).routes(),
            final(self).prefix_view() == old(self).prefix_view(),
            final(self).middleware_chain() == old(self).middleware_chain(),
            final(self).on_error() == old(self).on_error(),
    {
        self.default_handler = handler;
    }

    /// Sets the handler of errors.
    pub fn error_handler(&mut self, handler: E)
        requires
            old(self).wf(),
        ensures
            final(self).wf(),
            final(self).on_error() == handler,
            final(self).routes() == old(self).routes(),
            final(self).prefix_view() == old(self).prefix_view(),
            final(self).middleware_chain() == old(self).middleware_chain(),
            final(self).fallback() == old(self).fallback(),
    {
        self.error_handler = handler;
    }

    /// Registers `handler` for `path` (given without the prefix); a handler
    /// registered before for the same path is replaced.
    pub fn register(&mut self, path: &str, handler: H)
        requires
            old(self).wf(),
        ensures
            final(self).wf(),
            final(self).routes() == old(self).routes().insert(path@, handler),
            final(self).prefix_view() == old(self).prefix_view(),
            final(self).middleware_chain() == old(self).middleware_chain(),
            final(self).fallback() == old(self).fallback(),
            final(self).on_error() == old(self).on_error(),
    {
        let idx = self.handlers.len();
        let ghost old_handlers = self.handlers@;
        self.handlers.push(handler);
        table_insert(&mut self.router, String::from_str(path), idx);
        assert(self.routes() =~= old(self).routes().insert(path@, handler)) by {
            assert forall|k: Seq<char>| #[trigger] route_table(old(self).router).contains_key(k) implies self.handlers@[route_table(old(self).router)[k] as int] == old_handlers[route_table(old(self).router)[k] as int] by {
            }
        }
    }

    /// The handler that serves `path` (see `route_for`), or `None`.
    pub fn find_http_handler(&self, path: &str) -> (r: Option<&H>)
        requires
            self.wf(),
        ensures
            match r {
                Some(h) => route_for(self.prefix_view(), self.routes(), path@) == Some(*h),
                None => route_for(self.prefix_view(), self.routes(), path@) is None,
            },
    {
        let p = chars_of(path);
        let pre = chars_of(self.prefix.as_str());
        if pre.len() > p.len() {
            return None;
        }
        let mut i: usize = 0;
        while i < pre.len()
            invariant
                pre@ == self.prefix@,
                p@ == path@,
                pre@.len() <= p@.len(),
                i <= pre@.len(),
                forall|k: int| 0 <= k < i ==> pre@[k] == p@[k],
            decreases pre@.len() - i,
        {
            if pre[i] != p[i] {
                return None;
            }
            i = i + 1;
        }
        assert(pre@.is_prefix_of(p@));
        let ghost routes = self.routes();
        let ghost rest_view = p@.skip(pre@.len() as int);
        let mut cur: Vec<char> = Vec::new();
        let mut j: usize = pre.len();
        while j < p.len()
            invariant
                p@ == path@,
                pre@.len() <= j <= p@.len(),
                cur@ == p@.subrange(pre@.len() as int, j as int),
            decreases p@.len() - j,
        {
            cur.push(p[j]);
            j = j + 1;
            assert(cur@ =~= p@.subrange(pre@.len() as int, j as int));
        }
        assert(cur@ =~= rest_view);
        let rest = string_of(cur.as_slice());
        match table_get(&self.router, rest.as_str()) {
            Some(idx) => {
                return Some(&self.handlers[idx]);
            },
            None => {},
        }
        while cur.len() > 0
            invariant
                self.wf(),
                routes == self.routes(),
                route_for(self.prefix_view(), routes, path@) == wildcard_match(routes, cur@),
            decreases cur@.len(),
        {
            let last = cur.len() - 1;
            if cur[last] == '/' {
                let mut candidate = string_of(cur.as_slice());
                candidate.push('*');
                assert(candidate@ == cur@.push('*'));
                match table_get(&self.router, candidate.as_str()) {
                    Some(idx) => {
                        return Some(&self.handlers[idx]);
                    },
                    None => {},
                }
            }
            let ghost before = cur@;
            cur.pop();
            assert(cur@ == before.drop_last());
        }
        None
    }

    /// The handler that serves `path`: the routed one, or else the handler
    /// used when no route matches.
    pub fn endpoint(&self, path: &str) -> (r: &H)
        requires
            self.wf(),
        ensures
            *r == (match route_for(self.prefix_view(), self.routes(), path@) {
                Some(h) => h,
                None => self.fallback(),
            }),
    {
        match self.find_http_handler(path) {
            Some(h) => h,
            None => &self.default_handler,
        }
    }

    /// The middleware chain, outermost first.
    pub fn middleware_list(&self) -> (r: &[M])
        ensures
            r@ == self.middleware_chain(),
    {
        self.middlewares.as_slice()
    }

    /// The handler of errors.
    pub fn error_fn(&self) -> (r: &E)
        ensures
            *r == self.on_error(),
    {
        &self.error_handler
    }

    /// The reply for an error: the error reply that was built, or, when it
    /// could not be built, a bare 500 reply whose body is
    /// `internal server error`.
    pub fn reply_or_internal_error(built: HttpResponse) -> (r: Reply)
        ensures
            built matches Ok(reply) ==> r == reply,
            built is Err ==> (r.status == 500 && r.headers@.len() == 0 && r.body@ == internal_error_body()),
    {
        match built {
            Ok(reply) => reply,
            Err(_) => {
                let mut body: Vec<u8> = Vec::new();
                crate::bytes::push_all(&mut body, "internal server error".as_bytes());
                Reply { status: 500, headers: Vec::new(), body }
            },
        }
    }

    /// The default handler of errors: the error reply (status 500, code 500)
    /// carrying the error's message. `id` is the request's.
    pub fn handle_error(id: u32, err: HttpError) -> (r: Reply)
        ensures
            r.status == 500,
            headers_view(r.headers@) == json_headers(),
            exists|m: Seq<char>| message_of(err, m) && r.body@ == fail_body(500, json_str_encoding(m)),
    {
        let msg = err.message();
        proof {
            assert(message_of(err, msg@));
        }
        Self::reply_or_internal_error(Resp::fail(msg.as_str()))
    }

    /// The default handler of requests that no route serves: status 404,
    /// `{"code":404,"message":"Not Found"}`.
    pub fn handle_not_found(ctx: HttpContext) -> (r: HttpResponse)
        ensures
            r matches Ok(reply) && reply.status == 404 && headers_view(reply.headers@)
                == json_headers() && reply.body@ == fail_body(404, json_str_encoding("Not Found"@)),
    {
        Resp::fail_with_status(404, 404, "Not Found")
    }

    /// Appends a middleware to the end of the chain.
    pub fn middleware(&mut self, middleware: M)
        requires
            old(self).wf(),
        ensures
            final(self).wf(),
            final(self).middleware_chain() == old(self).middleware_chain().push(middleware),
            final(self).routes() == old(self).routes(),
            final(self).prefix_view() == old(self).prefix_view(),
            final(self).fallback() == old(self).fallback(),
            final(self).on_error() == old(self).on_error(),
    {
        self.middlewares.push(middleware);
    }
}

} // verus!
