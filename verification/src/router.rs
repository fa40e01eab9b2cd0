//! The router: a table of (method, exact path) entries filled before serving
//! begins, each holding one route's logic behind a single polymorphic
//! interface. Dispatch matches method and path exactly — no wildcards, no
//! prefixes — and answers 404 `Not found` when nothing matches. Registering
//! the same key again overwrites the prior entry.

use crate::chars::str_eq;
use crate::request::Method;
use crate::request::ReqView;
use crate::request::Request;
use crate::response::RespView;
use crate::response::Response;
use crate::response::StatusCode;
use crate::response::new_spec;
use vstd::prelude::*;
use vstd::string::*;
use vstd::utf8::encode_utf8;

verus! {

/// One route's logic: invoked with the request and a reference to the shared
/// state, it must produce exactly the response its specification names.
pub trait Handler<S>: Sized {
    /// The response this handler gives to a request under the given state.
    /// Implementations inside the library override this and prove `handle`
    /// against it; an embedding program's implementation may leave the
    /// default, of which nothing is known.
    open spec fn response_view_of(&self, req: ReqView, state: S) -> RespView {
        arbitrary()
    }

    /// Handles one request.
    fn handle(&self, req: &Request, state: &S) -> (r: Response)
        ensures
            r@ == self.response_view_of(req@, *state),
    ;
}

/// The view of a route table: method, path characters, and the handler.
pub open spec fn routes_seq_view<S, H: Handler<S>>(rs: Seq<(Method, String, H)>) -> Seq<
    (Method, Seq<char>, H),
> {
    rs.map_values(|t: (Method, String, H)| (t.0, t.1@, t.2))
}

/// The entries of `rs` whose key is not (`m`, `p`).
pub open spec fn remove_route<S, H: Handler<S>>(
    rs: Seq<(Method, Seq<char>, H)>,
    m: Method,
    p: Seq<char>,
) -> Seq<(Method, Seq<char>, H)>
    decreases rs.len(),
{
    if rs.len() == 0 {
        Seq::empty()
    } else if rs[0].0 == m && rs[0].1 == p {
        remove_route(rs.drop_first(), m, p)
    } else {
        seq![rs[0]] + remove_route(rs.drop_first(), m, p)
    }
}

/// Registration: any prior entry with the same key is removed and the new
/// entry appended, so the last registration wins.
pub open spec fn insert_route<S, H: Handler<S>>(
    rs: Seq<(Method, Seq<char>, H)>,
    m: Method,
    p: Seq<char>,
    h: H,
) -> Seq<(Method, Seq<char>, H)> {
    remove_route(rs, m, p).push((m, p, h))
}

/// The handler registered for exactly (`m`, `p`), if any.
pub open spec fn route_lookup<S, H: Handler<S>>(
    rs: Seq<(Method, Seq<char>, H)>,
    m: Method,
    p: Seq<char>,
) -> Option<H>
    decreases rs.len(),
{
    if rs.len() == 0 {
        None
    } else if rs[0].0 == m && rs[0].1 == p {
        Some(rs[0].2)
    } else {
        route_lookup(rs.drop_first(), m, p)
    }
}

/// Dispatch is exact-match only: when no registered entry carries exactly the
/// requested method and path — a prefix, an extension, or a different method
/// is not a match — the lookup finds nothing and dispatch answers 404.
pub proof fn lemma_exact_match<S, H: Handler<S>>(
    rs: Seq<(Method, Seq<char>, H)>,
    m: Method,
    p: Seq<char>,
)
    requires
        forall|k: int| 0 <= k < rs.len() ==> !(#[trigger] rs[k].0 == m && rs[k].1 == p),
    ensures
        route_lookup(rs, m, p) is None,
    decreases rs.len(),
{
    if rs.len() > 0 {
        assert(rs[0] == rs.first());
        lemma_exact_match(rs.drop_first(), m, p);
    }
}

/// The fixed response for a request no route matches.
pub open spec fn not_found_view() -> RespView {
    new_spec(StatusCode::NotFound, Seq::empty(), encode_utf8("Not found"@))
}

/// The route table, plus the shared state handed to every handler. Built
/// before serving begins; dispatch never mutates it.
pub struct Router<S, H: Handler<S>> {
    routes: Vec<(Method, String, H)>,
    state: S,
}

impl<S, H: Handler<S>> Router<S, H> {
    /// The view of the route table.
    pub closed spec fn routes_view(&self) -> Seq<(Method, Seq<char>, H)> {
        routes_seq_view(self.routes@)
    }

    /// The shared state as the handlers receive it.
    pub closed spec fn state_of(&self) -> S {
        self.state
    }

    /// An empty route table over the given shared state.
    pub fn new(state: S) -> (r: Self)
        ensures
            r.routes_view() == Seq::<(Method, Seq<char>, H)>::empty(),
            r.state_of() == state,
    {
        let r = Router { routes: Vec::new(), state };
        proof {
            assert(r.routes_view() =~= Seq::<(Method, Seq<char>, H)>::empty());
        }
        r
    }

    /// Registers a handler for exactly (`method`, `path`); a prior entry with
    /// the same key is overwritten.
    pub fn route(self, method: Method, path: &str, handler: H) -> (r: Self)
        ensures
            r.routes_view() == insert_route(self.routes_view(), method, path@, handler),
            r.state_of() == self.state_of(),
    {
        let ghost orig = self.routes_view();
        let Router { mut routes, state } = self;
        let mut out: Vec<(Method, String, H)> = Vec::new();
        proof {
            assert(routes_seq_view(out@) + remove_route(routes_seq_view(routes@), method, path@)
                =~= remove_route(routes_seq_view(routes@), method, path@));
        }
        while routes.len() > 0
            invariant
                remove_route(orig, method, path@) == routes_seq_view(out@) + remove_route(
                    routes_seq_view(routes@),
                    method,
                    path@,
                ),
            decreases routes@.len(),
        {
            let ghost pre = routes@;
            let entry = routes.remove(0);
            let ghost prev = routes_seq_view(out@);
            proof {
                assert(routes_seq_view(pre)[0] == (entry.0, entry.1@, entry.2));
                assert(routes@ =~= pre.drop_first());
                assert(routes_seq_view(pre).drop_first() =~= routes_seq_view(routes@));
            }
            let same = entry.0 == method && str_eq(entry.1.as_str(), path);
            if same {
                proof {
                    assert(remove_route(routes_seq_view(pre), method, path@) == remove_route(
                        routes_seq_view(routes@),
                        method,
                        path@,
                    ));
                }
            } else {
                out.push(entry);
                proof {
                    assert(routes_seq_view(out@) =~= prev.push((entry.0, entry.1@, entry.2)));
                    assert(remove_route(routes_seq_view(pre), method, path@) == seq![
                        (entry.0, entry.1@, entry.2),
                    ] + remove_route(routes_seq_view(routes@), method, path@));
                    assert(prev + (seq![(entry.0, entry.1@, entry.2)] + remove_route(
                        routes_seq_view(routes@),
                        method,
                        path@,
                    )) =~= routes_seq_view(out@) + remove_route(
                        routes_seq_view(routes@),
                        method,
                        path@,
                    ));
                }
            }
        }
        proof {
            assert(routes_seq_view(routes@).len() == 0);
            assert(remove_route(orig, method, path@) =~= routes_seq_view(out@));
        }
        out.push((method, String::from_str(path), handler));
        let r = Router { routes: out, state };
        proof {
            assert(r.routes_view() =~= insert_route(orig, method, path@, handler));
        }
        r
    }

    /// Dispatches a request: the handler registered for exactly its method
    /// and path answers it; with no such entry the answer is 404 `Not found`.
    pub fn handle(&self, req: &Request) -> (r: Response)
        ensures
            match route_lookup(self.routes_view(), req@.method, req@.path) {
                Some(h) => r@ == h.response_view_of(req@, self.state_of()),
                None => r@ == not_found_view(),
            },
    {
        let ghost rv = self.routes_view();
        let n = self.routes.len();
        let mut i: usize = 0;
        proof {
            assert(rv.skip(0) =~= rv);
        }
        while i < n
            invariant
                0 <= i <= n,
                n == self.routes@.len(),
                rv == self.routes_view(),
                route_lookup(rv, req@.method, req@.path) == route_lookup(
                    rv.skip(i as int),
                    req@.method,
                    req@.path,
                ),
            decreases n - i,
        {
            proof {
                assert(rv.skip(i as int)[0] == rv[i as int]);
                assert(rv[i as int] == (
                    self.routes@[i as int].0,
                    self.routes@[i as int].1@,
                    self.routes@[i as int].2,
                ));
            }
            let m_ok = self.routes[i].0 == *req.method();
            let p_ok = str_eq(self.routes[i].1.as_str(), req.path().as_str());
            if m_ok && p_ok {
                return self.routes[i].2.handle(req, &self.state);
            }
            proof {
                assert(rv.skip(i as int).drop_first() =~= rv.skip(i as int + 1));
            }
            i = i + 1;
        }
        proof {
            assert(rv.skip(n as int) =~= Seq::<(Method, Seq<char>, H)>::empty());
        }
        let r = Response::new(StatusCode::NotFound, Vec::new(), ("Not found").as_bytes_vec());
        proof {
            assert(crate::headers::headers_view(Seq::<(String, String)>::empty())
                =~= Seq::<(Seq<char>, Seq<char>)>::empty());
        }
        r
    }
}

/// A handler that answers every request with 200 and `Hello, world!` — the
/// canonical root route.
pub struct HelloHandler;

impl<S> Handler<S> for HelloHandler {
    open spec fn response_view_of(&self, req: ReqView, state: S) -> RespView {
        new_spec(StatusCode::OK, Seq::empty(), encode_utf8("Hello, world!"@))
    }

    fn handle(&self, req: &Request, state: &S) -> (r: Response)
        ensures
            r@ == self.response_view_of(req@, *state),
    {
        let r = Response::new(StatusCode::OK, Vec::new(), ("Hello, world!").as_bytes_vec());
        proof {
            assert(crate::headers::headers_view(Seq::<(String, String)>::empty())
                =~= Seq::<(Seq<char>, Seq<char>)>::empty());
        }
        r
    }
}

/// The server core as the embedding program sees it: the frozen router. The
/// accept loop, sockets and threads belong to that program; it hands each
/// connection's bytes through `Request::parse`, this router, and
/// `Response::to_bytes`.
pub struct HttpServer<S, H: Handler<S>> {
    router: Router<S, H>,
}

impl<S, H: Handler<S>> HttpServer<S, H> {
    /// The router this server dispatches through.
    pub closed spec fn router_of(&self) -> Router<S, H> {
        self.router
    }

    /// Freezes a router into a server.
    pub fn new(router: Router<S, H>) -> (r: Self)
        ensures
            r.router_of() == router,
    {
        HttpServer { router }
    }

    /// Answers one parsed request.
    pub fn handle(&self, req: &Request) -> (r: Response)
        ensures
            match route_lookup(
                self.router_of().routes_view(),
                req@.method,
                req@.path,
            ) {
                Some(h) => r@ == h.response_view_of(req@, self.router_of().state_of()),
                None => r@ == not_found_view(),
            },
    {
        self.router.handle(req)
    }
}

} // verus!
