//! Forwarding of HTTP requests. Connections, requests and answers are the caller's: each
//! function here takes what came of the last operation on them and says what is to be done
//! next.
use crate::addr::IpAddr;
use crate::config::{opt_text, texts, Route, ServiceConfig};
use crate::headers::{
    advertise, advertisement, alt_svc, fields, forwarded_h3, forwarded_http, is_value, prepare_h3,
    prepare_http, room_for, set_by_rules, Advertising,
};
use crate::metrics::ServiceMetrics;
use crate::middleware::load_balancer::{
    fresh_nodes, lemma_available_below, lemma_first_hit, wrapped, BalancerView, LoadBalancer,
};
use crate::middleware::rate_limiter::{asked_for, RateLimiter, Refill};
use crate::middleware::{passes, rejects, ConnectionContext, Middleware, MiddlewareChain};
use crate::tcp::Handshake;
use crate::text::{byte_len, starts_with, text_bytes};
use hyper::header::{HeaderMap, HeaderValue};
use hyper::http::uri::InvalidUri;
use hyper::Uri;
use vstd::prelude::*;
use vstd::string::*;
use vstd::utf8::*;

verus! {

/// How long a connection may be served, in seconds.
pub const SERVE_TIMEOUT_SECS: u64 = 300;

/// How many requests a client may have open on one HTTP/3 connection.
pub const MAX_CONCURRENT_STREAMS: u32 = 1000;

/// The URI of the `http` crate.
#[verifier::external_type_specification]
#[verifier::external_body]
pub struct ExUri(Uri);

/// The error of the `http` crate for what is no URI.
#[verifier::external_type_specification]
#[verifier::external_body]
pub struct ExInvalidUri(InvalidUri);

/// The URI that the `http` crate reads from a text; none where it takes the text for no URI.
pub uninterp spec fn uri_in(text: Seq<char>) -> Option<Uri>;

/// Trusted: `str::parse` to the URI of the `http` crate. What it finds is a matter of the text
/// alone, and has a name here; nothing is said of which texts are URIs.
#[verifier::external_body]
fn parse_uri(text: &str) -> (r: Result<Uri, InvalidUri>)
    ensures
        match r {
            Ok(uri) => uri_in(text@) == Some(uri),
            Err(_) => uri_in(text@) is None,
        },
{
    text.parse::<Uri>()
}

/// The requests below a path, and their backends.
#[derive(Debug)]
pub struct HttpRoute {
    pub path: String,
    pub lb: LoadBalancer,
}

/// Why a request is not forwarded.
#[derive(Debug, Clone, Copy, PartialEq, Eq, Structural)]
pub enum Refusal {
    /// No backend is available.
    NoBackend,
    /// Backend and path make no URI.
    BadUri,
}

/// Where a request is forwarded to.
#[derive(Debug)]
pub struct Forward {
    /// The route that the request takes; none where it goes to the backends of the service.
    pub route: Option<usize>,
    pub backend: String,
    pub uri: Uri,
}

/// An answer that the proxy gives itself.
#[derive(Debug)]
pub struct ErrorReply {
    pub status: u16,
    pub content_type: String,
    pub body: String,
}

/// What is to be done next with a connection.
#[derive(Debug, Clone, Copy, PartialEq, Eq, Structural)]
pub enum HttpNext {
    /// Do the handshake with the client.
    Handshake,
    /// Serve the requests of the client.
    Serve,
    /// Close the connection.
    Close,
}

/// The routes in a configuration, as they are written there.
pub open spec fn configured(config: ServiceConfig) -> Seq<Route> {
    match config.http_rules {
        Some(rules) => match rules.routes {
            Some(routes) => routes@,
            None => Seq::empty(),
        },
        None => Seq::empty(),
    }
}

/// Whether route `a` goes before route `b`: its path is longer, or equally long and written
/// first.
pub open spec fn goes_before(routes: Seq<Route>, a: int, b: int) -> bool {
    ||| byte_len(routes[a].path@) > byte_len(routes[b].path@)
    ||| byte_len(routes[a].path@) == byte_len(routes[b].path@) && a < b
}

/// Whether `order` holds the positions of all routes, each once, in the order in which they go
/// before one another.
pub open spec fn in_order(routes: Seq<Route>, order: Seq<int>) -> bool {
    &&& order.len() == routes.len()
    &&& forall|k: int| 0 <= k < order.len() ==> 0 <= #[trigger] order[k] < routes.len()
    &&& forall|k: int, l: int|
        0 <= k < l < order.len() ==> goes_before(routes, #[trigger] order[k], #[trigger] order[l])
}

/// Whether `made` is the route that `route` describes, with healthy backends.
pub open spec fn made_from(made: HttpRoute, route: Route, config: ServiceConfig) -> bool {
    &&& made.path@ == route.path@
    &&& made.lb.wf()
    &&& made.lb@ == (BalancerView {
        nodes: fresh_nodes(texts(route.backends@)),
        mode: config.load_balance,
        counter: 0,
    })
}

/// The position of a route.
pub open spec fn position(route: Option<usize>) -> Option<int> {
    match route {
        Some(i) => Some(i as int),
        None => None,
    }
}

/// The text of the URI of a request for `path` at a backend.
pub open spec fn target(backend: Seq<char>, path: Seq<char>) -> Seq<char> {
    "http://"@ + backend + path
}

/// What becomes of a request for which the load balancer chose `chosen`, where `uri` was read
/// from the text of its URI.
pub open spec fn decided(chosen: Option<Seq<char>>, uri: Option<Uri>) -> Result<
    (Seq<char>, Uri),
    Refusal,
> {
    match chosen {
        None => Err(Refusal::NoBackend),
        Some(backend) => match uri {
            None => Err(Refusal::BadUri),
            Some(u) => Ok((backend, u)),
        },
    }
}

/// An HTTP service.
pub struct HttpProxy<F> {
    pub config: ServiceConfig,
    pub default_lb: LoadBalancer,
    pub routes: Vec<HttpRoute>,
    pub middleware_chain: MiddlewareChain<RateLimiter<F>>,
}

/// Whether longer paths go before shorter ones.
pub open spec fn longest_first(routes: Seq<HttpRoute>) -> bool {
    forall|k: int, l: int|
        0 <= k < l < routes.len() ==> byte_len((#[trigger] routes[k]).path@) >= byte_len(
            (#[trigger] routes[l]).path@,
        )
}

/// The first route at or after `from` below whose path a request is.
pub open spec fn first_route(routes: Seq<HttpRoute>, path: Seq<char>, from: nat) -> Option<int>
    decreases routes.len() - from,
{
    if from >= routes.len() {
        None
    } else if routes[from as int].path@.is_prefix_of(path) {
        Some(from as int)
    } else {
        first_route(routes, path, from + 1)
    }
}

impl<F: Fn(u64, u128, u64, u64) -> Refill> HttpProxy<F> {
    /// Balancers and filters are in order, and longer paths go before shorter ones.
    pub open spec fn wf(&self) -> bool {
        &&& self.default_lb.wf()
        &&& forall|i: int| 0 <= i < self.routes@.len() ==> (#[trigger] self.routes@[i]).lb.wf()
        &&& longest_first(self.routes@)
        &&& self.middleware_chain.ready()
        &&& self.middleware_chain.middlewares@.len() <= 1
    }

    /// The rate limiter, where there is one.
    pub open spec fn limiter(&self) -> Option<RateLimiter<F>> {
        if self.middleware_chain.middlewares@.len() == 1 {
            Some(self.middleware_chain.middlewares@[0])
        } else {
            None
        }
    }

    /// Whether the rate limiter may accept a client (`accepted`) or reject it, this proxy
    /// becoming `post`; without a rate limiter every client is accepted.
    pub open spec fn limits(&self, client_ip: IpAddr, post: Self, accepted: bool) -> bool {
        match self.limiter() {
            Some(limiter) => post.limiter() is Some && exists|now: u128|
                limiter.timed_by().shows(now) && #[trigger] limiter.filters(
                    client_ip,
                    now,
                    post.limiter()->0,
                    accepted,
                ),
            None => post.limiter() is None && accepted,
        }
    }

    /// The route of a request: the first one below whose path it is.
    pub open spec fn route_of(&self, path: Seq<char>) -> Option<int> {
        first_route(self.routes@, path, 0)
    }

    /// The load balancer of a route, or that of the service.
    pub open spec fn balancer(&self, route: Option<int>) -> LoadBalancer {
        match route {
            Some(i) => self.routes@[i].lb,
            None => self.default_lb,
        }
    }

    /// Whether `post` is this proxy but for the load balancer of `route`, which is `lb` there.
    pub open spec fn with_balancer(
        &self,
        route: Option<int>,
        lb: BalancerView,
        post: Self,
    ) -> bool {
        &&& post.config == self.config
        &&& post.middleware_chain == self.middleware_chain
        &&& post.balancer(route)@ == lb
        &&& post.balancer(route).clock == self.balancer(route).clock
        &&& post.routes@.len() == self.routes@.len()
        &&& forall|i: int|
            0 <= i < self.routes@.len() ==> (#[trigger] post.routes@[i]).path
                == self.routes@[i].path
        &&& forall|i: int|
            0 <= i < self.routes@.len() && route != Some(i) ==> #[trigger] post.routes@[i]
                == self.routes@[i]
        &&& route is Some ==> post.default_lb == self.default_lb
    }

    /// A service with the given configuration and backends. Its routes are put in order, so
    /// that longer paths go before shorter ones.
    pub fn new(config: ServiceConfig, default_lb: LoadBalancer, arith: F) -> (r: Self)
        requires
            default_lb.wf(),
            forall|tokens: u64, elapsed: u128, rate: u64, max: u64|
                call_requires(arith, (tokens, elapsed, rate, max)),
        ensures
            r.wf(),
            r.config == config,
            r.default_lb == default_lb,
            r.routes@.len() == configured(config).len(),
            exists|order: Seq<int>| #[trigger]
                in_order(configured(config), order) && forall|k: int|
                    0 <= k < order.len() ==> made_from(
                        #[trigger] r.routes@[k],
                        configured(config)[order[k]],
                        config,
                    ),
            asked_for(config.rate_limit, arith, r.limiter()),
    {
        let mut routes: Vec<HttpRoute> = Vec::new();
        if let Some(rules) = &config.http_rules {
            if let Some(list) = &rules.routes {
                routes = make_routes(list, &config);
            }
        }
        proof {
            if configured(config).len() == 0 {
                assert(in_order(configured(config), Seq::<int>::empty()));
            }
            let order = choose|order: Seq<int>| #[trigger]
                in_order(configured(config), order) && forall|k: int|
                    0 <= k < order.len() ==> made_from(
                        #[trigger] routes@[k],
                        configured(config)[order[k]],
                        config,
                    );
            assert forall|k: int, l: int| 0 <= k < l < routes@.len() implies byte_len(
                (#[trigger] routes@[k]).path@,
            ) >= byte_len((#[trigger] routes@[l]).path@) by {
                assert(goes_before(configured(config), order[k], order[l]));
            }
        }
        let mut middleware_chain = MiddlewareChain::new();
        if let Some(limit) = config.rate_limit {
            middleware_chain.add(RateLimiter::new(limit.max_requests, limit.refill_rate, arith));
        }
        HttpProxy { config, default_lb, routes, middleware_chain }
    }

    /// A connection could not be accepted, a request could not be read, or an answer could not
    /// be sent.
    pub fn accept_failed(&self, metrics: &mut ServiceMetrics)
        ensures
            *final(metrics) == old(metrics).failed(),
    {
        metrics.inc_errors();
    }

    /// Takes a client through the filters: the result names the filter that rejects it.
    pub fn screen(&mut self, client_ip: IpAddr, metrics: &mut ServiceMetrics) -> (r: Result<
        (),
        &'static str,
    >)
        requires
            old(self).wf(),
        ensures
            final(self).wf(),
            final(self).config == old(self).config,
            final(self).default_lb == old(self).default_lb,
            final(self).routes == old(self).routes,
            match r {
                Ok(_) => old(self).limits(client_ip, *final(self), true) && *final(metrics)
                    == *old(metrics),
                Err(name) => name@ == "RateLimiter"@ && old(self).limits(
                    client_ip,
                    *final(self),
                    false,
                ) && *final(metrics) == old(metrics).failed(),
            },
    {
        let ghost pre = self.middleware_chain.middlewares@;
        let ghost start = ConnectionContext::fresh(client_ip);
        let outcome = self.middleware_chain.execute(client_ip);
        let ghost post = self.middleware_chain.middlewares@;
        proof {
            reveal_with_fuel(passes, 2);
        }
        match outcome {
            Ok(ctx) => {
                proof {
                    if pre.len() == 1 {
                        let mid = choose|mid: ConnectionContext|
                            passes(pre, start, post, mid, 0) && #[trigger] RateLimiter::handles(
                                pre[0],
                                mid,
                                post[0],
                                ctx,
                                true,
                            );
                        let now = choose|now: u128|
                            pre[0].timed_by().shows(now) && #[trigger] pre[0].filters(
                                start.client_ip,
                                now,
                                post[0],
                                true,
                            );
                        assert(old(self).limiter()->0.filters(
                            client_ip,
                            now,
                            self.limiter()->0,
                            true,
                        ));
                    }
                }
                Ok(())
            },
            Err(name) => {
                proof {
                    let i = choose|i: int| #[trigger]
                        rejects(pre, start, post, i) && name@ == pre[i].label();
                    let (mid, after) = choose|mid: ConnectionContext, after: ConnectionContext|
                        passes(pre, start, post, mid, i as nat) && #[trigger] RateLimiter::handles(
                            pre[i],
                            mid,
                            post[i],
                            after,
                            false,
                        );
                    assert(RateLimiter::handles(pre[0], start, post[0], after, false));
                    let now = choose|now: u128|
                        pre[0].timed_by().shows(now) && #[trigger] pre[0].filters(
                            start.client_ip,
                            now,
                            post[0],
                            false,
                        );
                    assert(old(self).limiter()->0.filters(
                        client_ip,
                        now,
                        self.limiter()->0,
                        false,
                    ));
                }
                metrics.inc_errors();
                Err(name)
            },
        }
    }

    /// A connection was accepted: it is rejected by the filter that the result names, or goes
    /// on as the result says.
    pub fn accepted(&mut self, client_ip: IpAddr, metrics: &mut ServiceMetrics) -> (r: Result<
        HttpNext,
        &'static str,
    >)
        requires
            old(self).wf(),
        ensures
            final(self).wf(),
            final(self).config == old(self).config,
            final(self).default_lb == old(self).default_lb,
            final(self).routes == old(self).routes,
            match r {
                Ok(next) => old(self).limits(client_ip, *final(self), true) && *final(metrics)
                    == old(metrics).opened() && next == next_after_accept(
                    old(self).config.encrypted(),
                ),
                Err(name) => name@ == "RateLimiter"@ && old(self).limits(
                    client_ip,
                    *final(self),
                    false,
                ) && *final(metrics) == old(metrics).failed(),
            },
    {
        match self.screen(client_ip, metrics) {
            Ok(_) => {
                metrics.inc_active_connections();
                if self.config.is_encrypted() {
                    Ok(HttpNext::Handshake)
                } else {
                    Ok(HttpNext::Serve)
                }
            },
            Err(name) => Err(name),
        }
    }

    /// The handshake with the client was done, or was not.
    pub fn shook_hands(&self, outcome: Handshake, metrics: &mut ServiceMetrics) -> (r: HttpNext)
        ensures
            r == next_after_handshake(outcome),
            *final(metrics) == after_handshake(*old(metrics), outcome),
    {
        match outcome {
            Handshake::Done => HttpNext::Serve,
            _ => {
                metrics.inc_errors();
                metrics.dec_active_connections();
                HttpNext::Close
            },
        }
    }

    /// A connection was served to its end, or for as long as one may be.
    pub fn served(&self, timed_out: bool, metrics: &mut ServiceMetrics)
        ensures
            *final(metrics) == after_serving(*old(metrics), timed_out),
    {
        if timed_out {
            metrics.inc_errors();
        }
        metrics.dec_active_connections();
    }

    /// A QUIC connection was accepted, or could not be.
    pub fn quic_accepted(&self, ok: bool, metrics: &mut ServiceMetrics)
        ensures
            *final(metrics) == if ok {
                old(metrics).opened()
            } else {
                old(metrics).failed()
            },
    {
        if ok {
            metrics.inc_active_connections();
        } else {
            metrics.inc_errors();
        }
    }

    /// A QUIC connection came to its end. One that broke is counted as an error and goes on
    /// being counted as active.
    pub fn quic_ended(&self, ok: bool, metrics: &mut ServiceMetrics)
        ensures
            *final(metrics) == if ok {
                old(metrics).closed()
            } else {
                old(metrics).failed()
            },
    {
        if ok {
            metrics.dec_active_connections();
        } else {
            metrics.inc_errors();
        }
    }

    /// The route of a request.
    pub fn route(&self, path: &str) -> (r: Option<usize>)
        ensures
            self.route_of(path@) == position(r),
            r matches Some(i) ==> i < self.routes@.len(),
    {
        let mut i: usize = 0;
        while i < self.routes.len()
            invariant
                i <= self.routes@.len(),
                self.route_of(path@) == first_route(self.routes@, path@, i as nat),
            decreases self.routes@.len() - i,
        {
            if starts_with(path, self.routes[i].path.as_str()) {
                return Some(i);
            }
            i = i + 1;
        }
        None
    }

    /// What is known of the load balancer of `route` after a choice, where the proxy became
    /// `post`.
    pub open spec fn chooses(
        &self,
        route: Option<int>,
        post: Self,
        backend: Option<Seq<char>>,
    ) -> bool {
        exists|now: u128, draw: usize|
            self.balancer(route).clock.shows(now) && self.balancer(route)@.drawable(now, draw)
                && #[trigger] self.balancer(route)@.chosen(now, draw) == backend
                && self.with_balancer(route, self.balancer(route)@.after_choice(now), post)
    }

    /// Whether the load balancer of `route` may have recorded that `backend` did not answer,
    /// where the proxy became `post`.
    pub open spec fn notes_failure(
        &self,
        route: Option<int>,
        backend: Seq<char>,
        post: Self,
    ) -> bool {
        exists|now: u128|
            self.balancer(route).clock.shows(now) && #[trigger] self.with_balancer(
                route,
                self.balancer(route)@.failed(backend, now),
                post,
            )
    }

    fn choose_backend(&mut self, route: Option<usize>) -> (r: Option<String>)
        requires
            old(self).wf(),
            route matches Some(i) ==> i < old(self).routes@.len(),
        ensures
            final(self).wf(),
            old(self).chooses(position(route), *final(self), opt_text(r)),
    {
        match route {
            Some(i) => {
                let r = self.routes[i].lb.select();
                proof {
                    let before = old(self).routes@[i as int].lb@;
                    let clock = old(self).routes@[i as int].lb.clock;
                    let (now, draw) = choose|now: u128, draw: usize|
                        clock.shows(now) && before.drawable(now, draw) && opt_text(r)
                            == #[trigger] before.chosen(now, draw) && self.routes@[i as int].lb@
                            == before.after_choice(now);
                    assert(old(self).balancer(Some(i as int))@.chosen(now, draw) == opt_text(r));
                    assert forall|k: int, l: int| 0 <= k < l < self.routes@.len() implies byte_len(
                        (#[trigger] self.routes@[k]).path@,
                    ) >= byte_len((#[trigger] self.routes@[l]).path@) by {
                        assert(old(self).routes@[k].path == self.routes@[k].path);
                        assert(old(self).routes@[l].path == self.routes@[l].path);
                    }
                }
                r
            },
            None => {
                let r = self.default_lb.select();
                proof {
                    let before = old(self).default_lb@;
                    let clock = old(self).default_lb.clock;
                    let (now, draw) = choose|now: u128, draw: usize|
                        clock.shows(now) && before.drawable(now, draw) && opt_text(r)
                            == #[trigger] before.chosen(now, draw) && self.default_lb@
                            == before.after_choice(now);
                    assert(old(self).balancer(None)@.chosen(now, draw) == opt_text(r));
                }
                r
            },
        }
    }

    /// Decides on a request that takes `route` and for which `chosen` was chosen, where `uri`
    /// was read from the text of its URI.
    pub fn decide(
        &self,
        route: Option<usize>,
        chosen: Option<String>,
        uri: Option<Uri>,
        metrics: &mut ServiceMetrics,
    ) -> (r: Result<Forward, Refusal>)
        ensures
            match r {
                Ok(forward) => decided(opt_text(chosen), uri) == Ok::<
                    (Seq<char>, Uri),
                    Refusal,
                >((forward.backend@, forward.uri)) && forward.route == route && *final(metrics)
                    == *old(metrics),
                Err(refusal) => decided(opt_text(chosen), uri) == Err::<
                    (Seq<char>, Uri),
                    Refusal,
                >(refusal) && *final(metrics) == old(metrics).failed(),
            },
    {
        match chosen {
            None => {
                metrics.inc_errors();
                Err(Refusal::NoBackend)
            },
            Some(backend) => match uri {
                None => {
                    metrics.inc_errors();
                    Err(Refusal::BadUri)
                },
                Some(uri) => Ok(Forward { route, backend, uri }),
            },
        }
    }

    /// A request for `path` came in: it is forwarded as the result says, or is refused.
    pub fn begin(&mut self, path: &str, metrics: &mut ServiceMetrics) -> (r: Result<
        Forward,
        Refusal,
    >)
        requires
            old(self).wf(),
        ensures
            final(self).wf(),
            match r {
                Ok(forward) => {
                    &&& old(self).chooses(
                        old(self).route_of(path@),
                        *final(self),
                        Some(forward.backend@),
                    )
                    &&& uri_in(target(forward.backend@, path@)) == Some(forward.uri)
                    &&& old(self).route_of(path@) == position(forward.route)
                    &&& forward.route matches Some(i) ==> i < final(self).routes@.len()
                    &&& *final(metrics) == after_begin(*old(metrics), false)
                },
                Err(Refusal::NoBackend) => {
                    &&& old(self).chooses(old(self).route_of(path@), *final(self), None)
                    &&& *final(metrics) == after_begin(*old(metrics), true)
                },
                Err(Refusal::BadUri) => {
                    &&& exists|backend: Seq<char>| #[trigger]
                        old(self).chooses(old(self).route_of(path@), *final(self), Some(backend))
                            && uri_in(target(backend, path@)) is None
                    &&& *final(metrics) == after_begin(*old(metrics), true)
                },
            },
    {
        metrics.inc_requests();
        let route = self.route(path);
        let chosen = self.choose_backend(route);
        let uri: Option<Uri> = match &chosen {
            Some(backend) => {
                let mut text = "http://".to_string();
                text.append(backend.as_str());
                text.append(path);
                assert(text@ =~= target(backend@, path@));
                match parse_uri(text.as_str()) {
                    Ok(uri) => Some(uri),
                    Err(_) => None,
                }
            },
            None => None,
        };
        self.decide(route, chosen, uri, metrics)
    }

    /// The backend of a request that took `route` answered, or did not.
    pub fn finish(
        &mut self,
        route: Option<usize>,
        backend: &str,
        answered: bool,
        metrics: &mut ServiceMetrics,
    )
        requires
            old(self).wf(),
            route matches Some(i) ==> i < old(self).routes@.len(),
        ensures
            final(self).wf(),
            *final(metrics) == after_finish(*old(metrics), answered),
            answered ==> old(self).with_balancer(
                position(route),
                old(self).balancer(position(route))@.succeeded(backend@),
                *final(self),
            ),
            !answered ==> old(self).notes_failure(position(route), backend@, *final(self)),
    {
        if !answered {
            metrics.inc_errors();
        }
        match route {
            Some(i) => {
                if answered {
                    self.routes[i].lb.record_success(backend);
                } else {
                    self.routes[i].lb.record_failure(backend);
                }
                proof {
                    assert forall|k: int, l: int| 0 <= k < l < self.routes@.len() implies byte_len(
                        (#[trigger] self.routes@[k]).path@,
                    ) >= byte_len((#[trigger] self.routes@[l]).path@) by {
                        assert(old(self).routes@[k].path == self.routes@[k].path);
                        assert(old(self).routes@[l].path == self.routes@[l].path);
                    }
                    if !answered {
                        let before = old(self).routes@[i as int].lb@;
                        let clock = old(self).routes@[i as int].lb.clock;
                        let now = choose|now: u128|
                            clock.shows(now) && self.routes@[i as int].lb@
                                == #[trigger] before.failed(backend@, now);
                        assert(old(self).with_balancer(
                            Some(i as int),
                            old(self).balancer(Some(i as int))@.failed(backend@, now),
                            *self,
                        ));
                    }
                }
            },
            None => {
                if answered {
                    self.default_lb.record_success(backend);
                } else {
                    self.default_lb.record_failure(backend);
                    proof {
                        let before = old(self).default_lb@;
                        let clock = old(self).default_lb.clock;
                        let now = choose|now: u128|
                            clock.shows(now) && self.default_lb@ == #[trigger] before.failed(
                                backend@,
                                now,
                            );
                        assert(old(self).with_balancer(
                            None,
                            old(self).balancer(None)@.failed(backend@, now),
                            *self,
                        ));
                    }
                }
            },
        }
    }

    /// Sets the header fields of a request that came over HTTP/1 or HTTP/2 from `client_ip`.
    /// False where the request takes no more fields; not all of them are set then.
    pub fn prepare(&self, headers: &mut HeaderMap<HeaderValue>, client_ip: &str) -> (r: bool)
        ensures
            r ==> fields(*final(headers)) == forwarded_http(
                fields(*old(headers)),
                self.config.http_rules,
                client_ip@,
            ),
            room_for(*old(headers), set_by_rules(self.config.http_rules) + 3) ==> r,
    {
        prepare_http(headers, &self.config.http_rules, client_ip)
    }

    /// Sets the header fields of a request that came over HTTP/3. False where the request takes
    /// no more fields; not all of them are set then.
    pub fn prepare_stream(&self, headers: &mut HeaderMap<HeaderValue>) -> (r: bool)
        ensures
            r ==> fields(*final(headers)) == forwarded_h3(
                fields(*old(headers)),
                self.config.http_rules,
            ),
            room_for(*old(headers), set_by_rules(self.config.http_rules) + 2) ==> r,
    {
        prepare_h3(headers, &self.config.http_rules)
    }

    /// Whether the address of the service can be advertised in a header field.
    pub open spec fn advertises(&self) -> bool {
        is_value(encode_utf8(advertisement(self.config.listen_addr@)))
    }

    /// Header fields with HTTP/3 advertised on the port of the service.
    pub open spec fn advertised(&self, f: Map<Seq<u8>, Seq<Seq<u8>>>) -> Map<
        Seq<u8>,
        Seq<Seq<u8>>,
    > {
        f.insert(alt_svc(), seq![encode_utf8(advertisement(self.config.listen_addr@))])
    }

    /// The header fields of an answer over HTTP/1 or HTTP/2: an encrypted service serves
    /// HTTP/3 too and advertises it, where its address allows it.
    pub open spec fn answer_fields(&self, f: Map<Seq<u8>, Seq<Seq<u8>>>) -> Map<
        Seq<u8>,
        Seq<Seq<u8>>,
    > {
        if self.config.encrypted() && self.advertises() {
            self.advertised(f)
        } else {
            f
        }
    }

    /// Sets the header fields of an answer over HTTP/1 or HTTP/2. False where the answer takes
    /// no more fields; it is unchanged then.
    pub fn prepare_answer(&self, headers: &mut HeaderMap<HeaderValue>) -> (r: bool)
        ensures
            fields(*final(headers)) == if r {
                self.answer_fields(fields(*old(headers)))
            } else {
                fields(*old(headers))
            },
            !(self.config.encrypted() && self.advertises()) || room_for(*old(headers), 1) ==> r,
    {
        if self.config.is_encrypted() {
            advertise(headers, self.config.listen_addr.as_str()) != Advertising::NoRoom
        } else {
            true
        }
    }

    /// Sets the header fields of an answer over HTTP/3, which always advertises HTTP/3. Where
    /// the address does not allow it there is no answer, and an error is counted.
    pub fn prepare_stream_answer(
        &self,
        headers: &mut HeaderMap<HeaderValue>,
        metrics: &mut ServiceMetrics,
    ) -> (r: Advertising)
        ensures
            r is BadAddress <==> !self.advertises(),
            room_for(*old(headers), 1) ==> !(r is NoRoom),
            fields(*final(headers)) == if r is Done {
                self.advertised(fields(*old(headers)))
            } else {
                fields(*old(headers))
            },
            *final(metrics) == if r is BadAddress {
                old(metrics).failed()
            } else {
                *old(metrics)
            },
    {
        let r = advertise(headers, self.config.listen_addr.as_str());
        if r == Advertising::BadAddress {
            metrics.inc_errors();
        }
        r
    }
}

/// What follows the acceptance of a connection.
pub open spec fn next_after_accept(encrypted: bool) -> HttpNext {
    if encrypted {
        HttpNext::Handshake
    } else {
        HttpNext::Serve
    }
}

/// What follows a handshake.
pub open spec fn next_after_handshake(outcome: Handshake) -> HttpNext {
    if outcome is Done {
        HttpNext::Serve
    } else {
        HttpNext::Close
    }
}

/// The counters after a handshake.
pub open spec fn after_handshake(m: ServiceMetrics, outcome: Handshake) -> ServiceMetrics {
    if outcome is Done {
        m
    } else {
        m.failed().closed()
    }
}

/// The counters after a connection was served.
pub open spec fn after_serving(m: ServiceMetrics, timed_out: bool) -> ServiceMetrics {
    if timed_out {
        m.failed().closed()
    } else {
        m.closed()
    }
}

/// The counters after a request came in that was refused or not.
pub open spec fn after_begin(m: ServiceMetrics, refused: bool) -> ServiceMetrics {
    if refused {
        m.requested().failed()
    } else {
        m.requested()
    }
}

/// The counters after the backend of a request answered or did not.
pub open spec fn after_finish(m: ServiceMetrics, answered: bool) -> ServiceMetrics {
    if answered {
        m
    } else {
        m.failed()
    }
}

/// The body of an answer to a refused request.
pub open spec fn refusal_body(refusal: Refusal) -> Seq<char> {
    match refusal {
        Refusal::NoBackend => "Gateway Error: No backends configured or available."@,
        Refusal::BadUri => "Internal Error: Bad backend URI format."@,
    }
}

/// The status of an answer to a refused request.
pub open spec fn refusal_status(refusal: Refusal) -> u16 {
    match refusal {
        Refusal::NoBackend => 502,
        Refusal::BadUri => 500,
    }
}

/// A plain text answer.
fn plain_reply(status: u16, body: String) -> (r: ErrorReply)
    ensures
        r.status == status,
        r.content_type@ == "text/plain"@,
        r.body@ == body@,
{
    ErrorReply { status, content_type: "text/plain".to_string(), body }
}

/// The answer to a refused request that came over HTTP/1 or HTTP/2.
pub fn refusal_reply(refusal: Refusal) -> (r: ErrorReply)
    ensures
        r.status == refusal_status(refusal),
        r.content_type@ == "text/plain"@,
        r.body@ == refusal_body(refusal),
{
    match refusal {
        Refusal::NoBackend => plain_reply(
            502,
            "Gateway Error: No backends configured or available.".to_string(),
        ),
        Refusal::BadUri => plain_reply(500, "Internal Error: Bad backend URI format.".to_string()),
    }
}

/// The answer to a refused request that came over HTTP/3: where backend and path make no URI
/// there is none, and the stream is broken off.
pub fn stream_refusal_reply(refusal: Refusal) -> (r: Option<ErrorReply>)
    ensures
        match r {
            Some(reply) => refusal is NoBackend && reply.status == 502 && reply.content_type@
                == "text/plain"@ && reply.body@ == refusal_body(refusal),
            None => refusal is BadUri,
        },
{
    match refusal {
        Refusal::NoBackend => Some(refusal_reply(refusal)),
        Refusal::BadUri => None,
    }
}

/// The answer to a request whose backend did not answer, with the description of what went
/// wrong.
pub fn failure_reply(description: &str) -> (r: ErrorReply)
    ensures
        r.status == 502,
        r.content_type@ == "text/plain"@,
        r.body@ == "Bad Gateway: Request to backend failed: "@ + description@,
{
    let mut body = "Bad Gateway: Request to backend failed: ".to_string();
    body.append(description);
    plain_reply(502, body)
}

/// Puts the routes of a configuration in order, each with a load balancer of its own.
fn make_routes(list: &Vec<Route>, config: &ServiceConfig) -> (r: Vec<HttpRoute>)
    ensures
        r@.len() == list@.len(),
        exists|order: Seq<int>| #[trigger]
            in_order(list@, order) && forall|k: int|
                0 <= k < order.len() ==> made_from(#[trigger] r@[k], list@[order[k]], *config),
{
    let mut r: Vec<HttpRoute> = Vec::new();
    let ghost mut order: Seq<int> = Seq::empty();
    let mut i: usize = 0;
    while i < list.len()
        invariant
            i <= list@.len(),
            r@.len() == i,
            order.len() == i,
            forall|k: int| 0 <= k < i ==> 0 <= #[trigger] order[k] < i,
            forall|k: int, l: int|
                0 <= k < l < i ==> goes_before(list@, #[trigger] order[k], #[trigger] order[l]),
            forall|k: int|
                0 <= k < i ==> made_from(#[trigger] r@[k], list@[order[k]], *config),
        decreases list@.len() - i,
    {
        let route = &list[i];
        let size = text_bytes(route.path.as_str());
        let mut at: usize = 0;
        while at < r.len() && text_bytes(r[at].path.as_str()) >= size
            invariant
                at <= r@.len(),
                size == byte_len(list@[i as int].path@),
                forall|k: int| 0 <= k < at ==> byte_len((#[trigger] r@[k]).path@) >= size,
            ensures
                at <= r@.len(),
                forall|k: int| 0 <= k < at ==> byte_len((#[trigger] r@[k]).path@) >= size,
                at < r@.len() ==> byte_len(r@[at as int].path@) < size,
            decreases r@.len() - at,
        {
            at = at + 1;
        }
        let backends = route.backends.clone();
        assert(texts(backends@) =~= texts(route.backends@));
        let lb = LoadBalancer::new(backends, config.load_balance);
        let made = HttpRoute { path: route.path.clone(), lb };
        let ghost before = r@;
        let ghost earlier = order;
        r.insert(at, made);
        proof {
            order = earlier.insert(at as int, i as int);
            assert forall|k: int| 0 <= k < i + 1 implies made_from(
                #[trigger] r@[k],
                list@[order[k]],
                *config,
            ) by {
                if k < at {
                    assert(r@[k] == before[k]);
                } else if k > at {
                    assert(r@[k] == before[k - 1]);
                    assert(order[k] == earlier[k - 1]);
                }
            }
            assert forall|k: int| 0 <= k < i + 1 implies 0 <= #[trigger] order[k] < i + 1 by {
                if k > at {
                    assert(order[k] == earlier[k - 1]);
                }
            }
            assert forall|k: int, l: int| 0 <= k < l < i + 1 implies goes_before(
                list@,
                #[trigger] order[k],
                #[trigger] order[l],
            ) by {
                let a = if k < at {
                    k
                } else {
                    k - 1
                };
                let b = if l < at {
                    l
                } else {
                    l - 1
                };
                if k == at {
                    assert(order[l] == earlier[b]);
                    assert(byte_len(before[at as int].path@) < size);
                    assert(byte_len(list@[earlier[b]].path@) < size) by {
                        if b > at {
                            assert(goes_before(list@, earlier[at as int], earlier[b]));
                        }
                        assert(made_from(before[at as int], list@[earlier[at as int]], *config));
                    }
                } else if l == at {
                    assert(order[k] == earlier[a]);
                    assert(made_from(before[a], list@[earlier[a]], *config));
                } else {
                    assert(order[k] == earlier[a] && order[l] == earlier[b]);
                    assert(goes_before(list@, earlier[a], earlier[b]));
                }
            }
        }
        i = i + 1;
    }
    assert(in_order(list@, order));
    r
}

proof fn lemma_order_is_complete(routes: Seq<Route>, order: Seq<int>, j: int)
    requires
        in_order(routes, order),
        0 <= j < routes.len(),
    ensures
        exists|k: int| 0 <= k < order.len() && order[k] == j,
{
    let n = routes.len() as int;
    assert(order.no_duplicates()) by {
        assert forall|k: int, l: int| 0 <= k < order.len() && 0 <= l < order.len() && k != l implies
            order[k] != order[l] by {
            if k < l {
                assert(goes_before(routes, order[k], order[l]));
            } else {
                assert(goes_before(routes, order[l], order[k]));
            }
        }
    }
    order.unique_seq_to_set();
    vstd::set_lib::lemma_int_range(0, n);
    let all = vstd::set_lib::set_int_range(0, n);
    assert(order.to_set().subset_of(all)) by {
        assert forall|x: int| #[trigger] order.to_set().contains(x) implies all.contains(x) by {
            let k = choose|k: int| 0 <= k < order.len() && order[k] == x;
            assert(0 <= order[k] < n);
        }
    }
    vstd::set_lib::lemma_len_subset(order.to_set(), all);
    vstd::set_lib::lemma_subset_equality(order.to_set(), all);
    assert(order.to_set().contains(j));
}

proof fn lemma_first_route(routes: Seq<HttpRoute>, path: Seq<char>, from: nat)
    ensures
        match first_route(routes, path, from) {
            Some(i) => from <= i < routes.len() && routes[i].path@.is_prefix_of(path)
                && forall|k: int|
                from <= k < i ==> !(#[trigger] routes[k]).path@.is_prefix_of(path),
            None => forall|k: int|
                from <= k < routes.len() ==> !(#[trigger] routes[k]).path@.is_prefix_of(path),
        },
    decreases routes.len() - from,
{
    if from < routes.len() && !routes[from as int].path@.is_prefix_of(path) {
        lemma_first_route(routes, path, from + 1);
    }
}

/// A request takes a route exactly where it is below the path of one, and then it takes the
/// route whose path is the longest of those that it is below; among several with that path
/// length, the one that is written first.
pub proof fn law_most_specific_route<F: Fn(u64, u128, u64, u64) -> Refill>(
    proxy: HttpProxy<F>,
    order: Seq<int>,
    path: Seq<char>,
    j: int,
)
    requires
        proxy.routes@.len() == configured(proxy.config).len(),
        in_order(configured(proxy.config), order),
        forall|k: int|
            0 <= k < order.len() ==> (#[trigger] proxy.routes@[k]).path@ == configured(
                proxy.config,
            )[order[k]].path@,
        0 <= j < configured(proxy.config).len(),
        configured(proxy.config)[j].path@.is_prefix_of(path),
    ensures
        proxy.route_of(path) matches Some(i) && 0 <= i < order.len() && configured(
            proxy.config,
        )[order[i]].path@.is_prefix_of(path) && (order[i] == j || goes_before(
            configured(proxy.config),
            order[i],
            j,
        )),
{
    lemma_order_is_complete(configured(proxy.config), order, j);
    lemma_first_route(proxy.routes@, path, 0);
    let k = choose|k: int| 0 <= k < order.len() && order[k] == j;
    assert(proxy.routes@[k].path@.is_prefix_of(path));
    let i = proxy.route_of(path)->0;
    assert(i <= k);
    assert(proxy.routes@[i].path@ == configured(proxy.config)[order[i]].path@);
    if i < k {
        assert(goes_before(configured(proxy.config), order[i], order[k]));
    }
}

/// A request that is below no path of a route goes to the backends of the service.
pub proof fn law_no_route_no_match<F: Fn(u64, u128, u64, u64) -> Refill>(
    proxy: HttpProxy<F>,
    path: Seq<char>,
)
    requires
        forall|k: int|
            0 <= k < proxy.routes@.len() ==> !(#[trigger] proxy.routes@[k]).path@.is_prefix_of(path),
    ensures
        proxy.route_of(path) is None,
        proxy.balancer(proxy.route_of(path)) == proxy.default_lb,
{
    lemma_first_route(proxy.routes@, path, 0);
}

proof fn lemma_first_route_by_paths(
    a: Seq<HttpRoute>,
    b: Seq<HttpRoute>,
    path: Seq<char>,
    from: nat,
)
    requires
        a.len() == b.len(),
        forall|i: int| 0 <= i < a.len() ==> (#[trigger] b[i]).path == a[i].path,
    ensures
        first_route(b, path, from) == first_route(a, path, from),
    decreases a.len() - from,
{
    if from < a.len() {
        assert(b[from as int].path == a[from as int].path);
        lemma_first_route_by_paths(a, b, path, from + 1);
    }
}

/// Neither choosing a backend nor recording how it did changes which route a request takes.
pub proof fn law_routing_never_changes<F: Fn(u64, u128, u64, u64) -> Refill>(
    pre: HttpProxy<F>,
    route: Option<int>,
    lb: BalancerView,
    post: HttpProxy<F>,
    path: Seq<char>,
)
    requires
        pre.with_balancer(route, lb, post),
    ensures
        post.route_of(path) == pre.route_of(path),
{
    lemma_first_route_by_paths(pre.routes@, post.routes@, path, 0);
}

/// A backend that is chosen for a route is one of the backends of the route, and no choice
/// changes which backends those are; so where a route has no backends every request is refused.
pub proof fn law_requests_stay_in_their_route<F: Fn(u64, u128, u64, u64) -> Refill>(
    pre: HttpProxy<F>,
    route: Option<int>,
    post: HttpProxy<F>,
    backend: Seq<char>,
)
    requires
        pre.chooses(route, post, Some(backend)),
    ensures
        exists|i: int|
            0 <= i < pre.balancer(route)@.nodes.len() && (
            #[trigger] pre.balancer(route)@.nodes[i]).address == backend,
        post.balancer(route)@.nodes.len() == pre.balancer(route)@.nodes.len(),
        forall|i: int|
            0 <= i < pre.balancer(route)@.nodes.len() ==> (
            #[trigger] post.balancer(route)@.nodes[i]).address
                == pre.balancer(route)@.nodes[i].address,
{
    let view = pre.balancer(route)@;
    let (now, draw) = choose|now: u128, draw: usize|
        pre.balancer(route).clock.shows(now) && pre.balancer(route)@.drawable(now, draw)
            && #[trigger] pre.balancer(route)@.chosen(now, draw) == Some(backend) && pre.with_balancer(
            route,
            pre.balancer(route)@.after_choice(now),
            post,
        );
    lemma_first_hit(view, now, 0);
    lemma_available_below(view, now, view.nodes.len());
    let i = view.choice(now, draw)->0;
    assert(0 <= i < view.nodes.len()) by {
        if view.mode is RoundRobin {
            vstd::arithmetic::div_mod::lemma_mod_bound(
                wrapped(view.counter + view.first_hit(now, 0)) as int,
                view.nodes.len() as int,
            );
        }
    }
    assert(view.nodes[i].address == backend);
}

/// Every request is counted once, and exactly one error is counted for it where it was refused
/// or its backend did not answer.
pub proof fn law_request_is_accounted_for(m: ServiceMetrics, refused: bool, answered: bool)
    ensures
        ({
            let begun = after_begin(m, refused);
            let after = if refused {
                begun
            } else {
                after_finish(begun, answered)
            };
            &&& after.total_requests == m.total_requests.wrapping_add(1)
            &&& after.total_errors == if refused || !answered {
                m.total_errors.wrapping_add(1)
            } else {
                m.total_errors
            }
            &&& after.active_connections == m.active_connections
            &&& after.total_connections == m.total_connections
        }),
{
}

/// The counters after the whole of a connection that was let in.
pub open spec fn after_connection(
    m: ServiceMetrics,
    encrypted: bool,
    handshake: Handshake,
    timed_out: bool,
) -> ServiceMetrics {
    match next_after_accept(encrypted) {
        HttpNext::Handshake => match next_after_handshake(handshake) {
            HttpNext::Serve => after_serving(
                after_handshake(m.opened(), handshake),
                timed_out,
            ),
            _ => after_handshake(m.opened(), handshake),
        },
        _ => after_serving(m.opened(), timed_out),
    }
}

/// However a connection over TCP goes, it is no longer counted as active when it is over; it is
/// counted once; and an error is counted for it exactly where the handshake failed or serving
/// it took too long.
pub proof fn law_connection_is_accounted_for(
    m: ServiceMetrics,
    encrypted: bool,
    handshake: Handshake,
    timed_out: bool,
)
    ensures
        ({
            let after = after_connection(m, encrypted, handshake, timed_out);
            let failed = if encrypted && !(handshake is Done) {
                true
            } else {
                timed_out
            };
            &&& after.active_connections == m.active_connections
            &&& after.total_connections == m.total_connections.wrapping_add(1)
            &&& after.total_errors == if failed {
                m.total_errors.wrapping_add(1)
            } else {
                m.total_errors
            }
        }),
{
}

} // verus!
