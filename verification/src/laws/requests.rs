//! Laws of HTTP connections and requests.
use crate::addr::IpAddr;
use crate::config::{texts, Route, ServiceConfig};
use crate::http::{
    configured, failure_reply, first_route, goes_before, in_order, law_most_specific_route,
    made_from, position, refusal_reply, stream_refusal_reply, target, uri_in, ErrorReply, Forward,
    HttpNext, HttpProxy, HttpRoute, Refusal,
};
use crate::laws::balancing::{
    failure_recorded, lemma_failure_recorded, lemma_success_recorded, success_recorded,
};
use crate::laws::connections::{
    failed_and_closed, lemma_choice, limited_as, may_be_chosen, may_be_limited,
    may_be_without_choice,
};
use crate::laws::counting::{counted_on, one_connection_less, one_connection_more, one_error_more};
use crate::metrics::ServiceMetrics;
use crate::middleware::load_balancer::LoadBalancer;
use crate::middleware::rate_limiter::Refill;
use crate::tcp::Handshake;
use hyper::Uri;
use vstd::prelude::*;
use vstd::string::*;
use vstd::utf8::*;

verus! {

/// The text of a request's URI is `http://`, the backend and the client's path, and nothing is
/// lost of any of them: the path is what stands behind the backend, so different paths at one
/// backend make different texts.
pub proof fn law_uri_ends_with_the_path(
    backend: Seq<char>,
    path: Seq<char>,
    other: Seq<char>,
)
    ensures
        target(backend, path).len() == 7 + backend.len() + path.len(),
        target(backend, path).take(7) == "http://"@,
        target(backend, path).subrange(7, 7int + backend.len()) == backend,
        target(backend, path).skip(7int + backend.len()) == path,
        target(backend, path) == target(backend, other) ==> path == other,
{
    reveal_strlit("http://");
    assert(target(backend, path).take(7) =~= "http://"@);
    assert(target(backend, path).subrange(7, 7int + backend.len()) =~= backend);
    assert(target(backend, path).skip(7int + backend.len()) =~= path);
    assert(target(backend, other).skip(7int + backend.len()) =~= other);
}

/// `route` is the first of the routes below whose path a request for `path` is, or none where
/// there is no such route.
pub open spec fn takes_route(
    routes: Seq<HttpRoute>,
    path: Seq<char>,
    route: Option<usize>,
) -> bool {
    match route {
        Some(i) => {
            &&& i < routes.len()
            &&& routes[i as int].path@.is_prefix_of(path)
            &&& forall|k: int| 0 <= k < i ==> !(#[trigger] routes[k]).path@.is_prefix_of(path)
        },
        None => forall|k: int|
            0 <= k < routes.len() ==> !(#[trigger] routes[k]).path@.is_prefix_of(path),
    }
}

/// The load balancer of a route, or that of the service.
pub open spec fn balancer_of<F>(proxy: HttpProxy<F>, route: Option<usize>) -> LoadBalancer {
    match route {
        Some(i) => proxy.routes@[i as int].lb,
        None => proxy.default_lb,
    }
}

/// Nothing but the load balancer of `route` differs.
pub open spec fn only_balancer_differs<F>(
    pre: HttpProxy<F>,
    route: Option<usize>,
    post: HttpProxy<F>,
) -> bool {
    &&& post.config == pre.config
    &&& post.middleware_chain == pre.middleware_chain
    &&& post.routes@.len() == pre.routes@.len()
    &&& forall|k: int|
        0 <= k < pre.routes@.len() ==> (#[trigger] post.routes@[k]).path@ == pre.routes@[k].path@
    &&& forall|k: int|
        0 <= k < pre.routes@.len() && route != Some(k as usize) ==> #[trigger] post.routes@[k]
            == pre.routes@[k]
    &&& route is Some ==> post.default_lb == pre.default_lb
}

/// One request more is counted, with an error or without, and nothing else.
pub open spec fn one_request_more(
    before: ServiceMetrics,
    after: ServiceMetrics,
    failed: bool,
) -> bool {
    &&& counted_on(
        before.total_requests as int,
        1,
        u64::MAX as int,
        after.total_requests as int,
    )
    &&& failed ==> counted_on(
        before.total_errors as int,
        1,
        u64::MAX as int,
        after.total_errors as int,
    )
    &&& !failed ==> after.total_errors == before.total_errors
    &&& after == (ServiceMetrics {
        total_requests: after.total_requests,
        total_errors: after.total_errors,
        ..before
    })
}

proof fn lemma_first_route_is_taken(routes: Seq<HttpRoute>, path: Seq<char>, from: nat)
    ensures
        match first_route(routes, path, from) {
            Some(i) => {
                &&& from <= i < routes.len()
                &&& routes[i].path@.is_prefix_of(path)
                &&& forall|k: int|
                    from <= k < i ==> !(#[trigger] routes[k]).path@.is_prefix_of(path)
            },
            None => forall|k: int|
                from <= k < routes.len() ==> !(#[trigger] routes[k]).path@.is_prefix_of(path),
        },
    decreases routes.len() - from,
{
    if from < routes.len() && !routes[from as int].path@.is_prefix_of(path) {
        lemma_first_route_is_taken(routes, path, from + 1);
    }
}

/// A request takes the first route below whose path it is.
pub proof fn law_requests_take_the_first_route<F: Fn(u64, u128, u64, u64) -> Refill>(
    proxy: &HttpProxy<F>,
    path: &str,
    r: Option<usize>,
)
    requires
        call_ensures(HttpProxy::<F>::route, (proxy, path), r),
    ensures
        takes_route(proxy.routes@, path@, r),
{
    lemma_first_route_is_taken(proxy.routes@, path@, 0);
}

proof fn lemma_chooses<F: Fn(u64, u128, u64, u64) -> Refill>(
    pre: HttpProxy<F>,
    route: Option<usize>,
    post: HttpProxy<F>,
    backend: Option<Seq<char>>,
)
    requires
        pre.chooses(position(route), post, backend),
        route matches Some(i) ==> i < pre.routes@.len(),
    ensures
        only_balancer_differs(pre, route, post),
        match backend {
            Some(b) => may_be_chosen(balancer_of(pre, route), b, balancer_of(post, route)),
            None => may_be_without_choice(balancer_of(pre, route), balancer_of(post, route)),
        },
{
    let at = position(route);
    let (now, draw) = choose|now: u128, draw: usize|
        pre.balancer(at).clock.shows(now) && pre.balancer(at)@.drawable(now, draw)
            && #[trigger] pre.balancer(at)@.chosen(now, draw) == backend && pre.with_balancer(
            at,
            pre.balancer(at)@.after_choice(now),
            post,
        );
    lemma_choice(pre.balancer(at), now, draw, post.balancer(at));
    assert forall|k: int| 0 <= k < pre.routes@.len() && route != Some(k as usize) implies
        #[trigger] post.routes@[k] == pre.routes@[k] by {
        assert(at != Some(k));
    }
}

/// A request that is forwarded goes by the first route below whose path it is, to a backend that
/// may be chosen there, and to the URI that is read from `http://`, that backend and the whole of
/// the client's path; it counts as one request. One that is refused counts as one error besides:
/// no backend was found on its route, or the text makes no URI. Nothing but the load balancer of
/// the route changes.
pub proof fn law_requests_are_forwarded<F: Fn(u64, u128, u64, u64) -> Refill>(
    proxy: &mut HttpProxy<F>,
    path: &str,
    m: &mut ServiceMetrics,
    r: Result<Forward, Refusal>,
)
    requires
        call_ensures(HttpProxy::<F>::begin, (proxy, path, m), r),
        old(proxy).routes@.len() <= usize::MAX,
    ensures
        one_request_more(*old(m), *final(m), r is Err),
        r matches Ok(f) ==> {
            &&& takes_route(old(proxy).routes@, path@, f.route)
            &&& may_be_chosen(
                balancer_of(*old(proxy), f.route),
                f.backend@,
                balancer_of(*final(proxy), f.route),
            )
            &&& uri_in("http://"@ + f.backend@ + path@) == Some(f.uri)
            &&& only_balancer_differs(*old(proxy), f.route, *final(proxy))
        },
        r == Err::<Forward, Refusal>(Refusal::NoBackend) ==> exists|route: Option<usize>| #[trigger]
            takes_route(old(proxy).routes@, path@, route) && may_be_without_choice(
                balancer_of(*old(proxy), route),
                balancer_of(*final(proxy), route),
            ) && only_balancer_differs(*old(proxy), route, *final(proxy)),
        r == Err::<Forward, Refusal>(Refusal::BadUri) ==> exists|
            route: Option<usize>,
            backend: Seq<char>,
        |
            #![trigger takes_route(old(proxy).routes@, path@, route),
                may_be_chosen(
                    balancer_of(*old(proxy), route),
                    backend,
                    balancer_of(*final(proxy), route),
                )]
            takes_route(old(proxy).routes@, path@, route) && may_be_chosen(
                balancer_of(*old(proxy), route),
                backend,
                balancer_of(*final(proxy), route),
            ) && uri_in("http://"@ + backend + path@) is None && only_balancer_differs(
                *old(proxy),
                route,
                *final(proxy),
            ),
{
    let (pre, post) = (*proxy, *final(proxy));
    lemma_first_route_is_taken(pre.routes@, path@, 0);
    let route: Option<usize> = match pre.route_of(path@) {
        Some(i) => Some(i as usize),
        None => None,
    };
    assert(position(route) == pre.route_of(path@));
    assert(takes_route(pre.routes@, path@, route));
    match r {
        Ok(f) => {
            assert(f.route == route);
            lemma_chooses(pre, route, post, Some(f.backend@));
        },
        Err(Refusal::NoBackend) => {
            lemma_chooses(pre, route, post, None);
        },
        Err(Refusal::BadUri) => {
            let backend = choose|backend: Seq<char>| #[trigger]
                pre.chooses(pre.route_of(path@), post, Some(backend)) && uri_in(
                    target(backend, path@),
                ) is None;
            lemma_chooses(pre, route, post, Some(backend));
        },
    }
}

/// What is decided on a request: it is forwarded exactly where a backend was chosen and a URI was
/// read, to both of them and by its route; without a backend it is refused for that, and with one
/// but without a URI for that. A refusal counts as one error.
pub proof fn law_requests_are_decided<F: Fn(u64, u128, u64, u64) -> Refill>(
    proxy: &HttpProxy<F>,
    route: Option<usize>,
    chosen: Option<String>,
    uri: Option<Uri>,
    m: &mut ServiceMetrics,
    r: Result<Forward, Refusal>,
)
    requires
        call_ensures(HttpProxy::<F>::decide, (proxy, route, chosen, uri, m), r),
    ensures
        chosen is None ==> r == Err::<Forward, Refusal>(Refusal::NoBackend),
        chosen is Some && uri is None ==> r == Err::<Forward, Refusal>(Refusal::BadUri),
        chosen is Some && uri is Some ==> r is Ok && r->Ok_0.route == route && r->Ok_0.backend@
            == chosen->0@ && r->Ok_0.uri == uri->0,
        r is Ok ==> *final(m) == *old(m),
        r is Err ==> one_error_more(*old(m), *final(m)),
{
}

/// An answer of a backend is a success of that backend on the request's route, and counts
/// nothing; no answer is a failure of it and counts as one error. Nothing but the load balancer
/// of the route changes.
pub proof fn law_answers_are_recorded<F: Fn(u64, u128, u64, u64) -> Refill>(
    proxy: &mut HttpProxy<F>,
    route: Option<usize>,
    backend: &str,
    answered: bool,
    m: &mut ServiceMetrics,
)
    requires
        call_ensures(HttpProxy::<F>::finish, (proxy, route, backend, answered, m), ()),
        route matches Some(i) ==> i < old(proxy).routes@.len(),
    ensures
        only_balancer_differs(*old(proxy), route, *final(proxy)),
        answered ==> *final(m) == *old(m) && success_recorded(
            balancer_of(*old(proxy), route),
            backend@,
            balancer_of(*final(proxy), route),
        ),
        !answered ==> one_error_more(*old(m), *final(m)) && exists|now: u128| #[trigger]
            balancer_of(*old(proxy), route).clock.shows(now) && failure_recorded(
                balancer_of(*old(proxy), route),
                backend@,
                now,
                balancer_of(*final(proxy), route),
            ),
{
    let (pre, post) = (*proxy, *final(proxy));
    let at = position(route);
    let (before, after) = (balancer_of(pre, route), balancer_of(post, route));
    if answered {
        lemma_success_recorded(before, backend@, after);
        assert forall|k: int| 0 <= k < pre.routes@.len() && route != Some(k as usize) implies
            #[trigger] post.routes@[k] == pre.routes@[k] by {
            assert(at != Some(k));
        }
    } else {
        let now = choose|now: u128|
            before.clock.shows(now) && #[trigger] pre.with_balancer(
                at,
                before@.failed(backend@, now),
                post,
            );
        lemma_failure_recorded(before, backend@, now, after);
        assert(before.clock.shows(now));
        assert forall|k: int| 0 <= k < pre.routes@.len() && route != Some(k as usize) implies
            #[trigger] post.routes@[k] == pre.routes@[k] by {
            assert(at != Some(k));
        }
    }
}

/// The routes that a configuration holds, as they are written.
pub open spec fn written_routes(config: ServiceConfig) -> Seq<Route> {
    if config.http_rules is Some && config.http_rules->0.routes is Some {
        config.http_rules->0.routes->0@
    } else {
        Seq::empty()
    }
}

/// `made` serves what `route` describes: below its path, with its backends in order, all of them
/// healthy, chosen as the service says and from the first one on.
pub open spec fn serves(made: HttpRoute, route: Route, config: ServiceConfig) -> bool {
    &&& made.path@ == route.path@
    &&& made.lb.mode == config.load_balance
    &&& made.lb.counter == 0
    &&& made.lb.nodes@.len() == route.backends@.len()
    &&& forall|b: int|
        0 <= b < route.backends@.len() ==> {
            let node = #[trigger] made.lb.nodes@[b];
            &&& node.address@ == route.backends@[b]@
            &&& node.state is Closed
            &&& node.consecutive_failures == 0
        }
}

/// `routes` serve the routes of a configuration, each once: a longer path, in bytes, goes before
/// a shorter one, and of equally long ones the one that is written first.
pub open spec fn ordered(config: ServiceConfig, routes: Seq<HttpRoute>) -> bool {
    &&& routes.len() == written_routes(config).len()
    &&& exists|order: Seq<int>|
        #![trigger order.len()]
        order.len() == written_routes(config).len() && (forall|k: int|
            0 <= k < order.len() ==> 0 <= #[trigger] order[k] < order.len() && serves(
                routes[k],
                written_routes(config)[order[k]],
                config,
            )) && (forall|k: int, l: int|
            0 <= k < l < order.len() ==> {
                let a = encode_utf8(written_routes(config)[#[trigger] order[k]].path@).len();
                let b = encode_utf8(written_routes(config)[#[trigger] order[l]].path@).len();
                a > b || (a == b && order[k] < order[l])
            })
}

/// The routes of a new service are those of its configuration, each once: a longer path, in
/// bytes, goes before a shorter one, and of equally long ones the one that is written first. The
/// rest of the service is what it was made with; it has a limiter exactly where a limit is
/// configured.
pub proof fn law_new_http_service<F: Fn(u64, u128, u64, u64) -> Refill>(
    config: ServiceConfig,
    lb: LoadBalancer,
    arith: F,
    proxy: HttpProxy<F>,
)
    requires
        call_ensures(HttpProxy::<F>::new, (config, lb, arith), proxy),
    ensures
        proxy.config == config,
        proxy.default_lb == lb,
        limited_as(config.rate_limit, arith, proxy.limiter()),
        ordered(config, proxy.routes@),
{
    lemma_ordered(proxy, config);
}

/// The routes of a service that starts stand in the order of their paths.
pub proof fn lemma_ordered<F: Fn(u64, u128, u64, u64) -> Refill>(
    proxy: HttpProxy<F>,
    config: ServiceConfig,
)
    requires
        exists|order: Seq<int>| #[trigger]
            in_order(configured(config), order) && forall|k: int|
                0 <= k < order.len() ==> made_from(
                    #[trigger] proxy.routes@[k],
                    configured(config)[order[k]],
                    config,
                ),
        proxy.routes@.len() == configured(config).len(),
    ensures
        ordered(config, proxy.routes@),
{
    let written = written_routes(config);
    assert(configured(config) =~= written);
    let order = choose|order: Seq<int>| #[trigger]
        in_order(configured(config), order) && forall|k: int|
            0 <= k < order.len() ==> made_from(
                #[trigger] proxy.routes@[k],
                configured(config)[order[k]],
                config,
            );
    assert forall|k: int| 0 <= k < order.len() implies 0 <= #[trigger] order[k] < order.len()
        && serves(proxy.routes@[k], written[order[k]], config) by {
        assert(made_from(proxy.routes@[k], written[order[k]], config));
        lemma_serves(proxy.routes@[k], written[order[k]], config);
    }
    assert forall|k: int, l: int| 0 <= k < l < order.len() implies ({
        let a = encode_utf8(written[#[trigger] order[k]].path@).len();
        let b = encode_utf8(written[#[trigger] order[l]].path@).len();
        a > b || (a == b && order[k] < order[l])
    }) by {
        assert(goes_before(configured(config), order[k], order[l]));
    }
    assert(order.len() == written.len());
}

/// A request to a new service that is below the path of a written route takes a route below whose
/// path it is and whose path is not shorter; so the most specific route serves it.
pub proof fn law_most_specific_route_serves<F: Fn(u64, u128, u64, u64) -> Refill>(
    config: ServiceConfig,
    lb: LoadBalancer,
    arith: F,
    proxy: &HttpProxy<F>,
    path: &str,
    r: Option<usize>,
    j: int,
)
    requires
        call_ensures(HttpProxy::<F>::new, (config, lb, arith), *proxy),
        call_ensures(HttpProxy::<F>::route, (proxy, path), r),
        0 <= j < written_routes(config).len(),
        written_routes(config)[j].path@.is_prefix_of(path@),
    ensures
        r is Some,
        r->0 < proxy.routes@.len(),
        proxy.routes@[r->0 as int].path@.is_prefix_of(path@),
        exists|i: int|
            0 <= i < written_routes(config).len() && serves(
                proxy.routes@[r->0 as int],
                #[trigger] written_routes(config)[i],
                config,
            ) && ({
                let a = encode_utf8(written_routes(config)[i].path@).len();
                let b = encode_utf8(written_routes(config)[j].path@).len();
                a > b || (a == b && i <= j)
            }),
{
    law_new_http_service(config, lb, arith, *proxy);
    assert(configured(config) =~= written_routes(config));
    let order = choose|order: Seq<int>| #[trigger]
        in_order(configured(config), order) && forall|k: int|
            0 <= k < order.len() ==> made_from(
                #[trigger] proxy.routes@[k],
                configured(config)[order[k]],
                config,
            );
    law_most_specific_route(*proxy, order, path@, j);
    let i = r->0 as int;
    assert(made_from(proxy.routes@[i], configured(config)[order[i]], config));
    lemma_serves(proxy.routes@[i], written_routes(config)[order[i]], config);
}

proof fn lemma_serves(made: HttpRoute, route: Route, config: ServiceConfig)
    requires
        made_from(made, route, config),
    ensures
        serves(made, route, config),
{
    assert(made.lb@.nodes.len() == made.lb.nodes@.len());
    assert forall|b: int| 0 <= b < route.backends@.len() implies ({
        let node = #[trigger] made.lb.nodes@[b];
        &&& node.address@ == route.backends@[b]@
        &&& node.state is Closed
        &&& node.consecutive_failures == 0
    }) by {
        assert(made.lb@.nodes[b] == made.lb.nodes@[b]@);
        assert(texts(route.backends@)[b] == route.backends@[b]@);
    }
}

/// Routes, backends and configuration are the same.
pub open spec fn only_limiter_differs<F>(pre: HttpProxy<F>, post: HttpProxy<F>) -> bool {
    &&& post.config == pre.config
    &&& post.default_lb == pre.default_lb
    &&& post.routes == pre.routes
}

/// A client is screened by the limiter alone, where there is one: one that is rejected counts as
/// one error, and one that is not counts as nothing.
pub proof fn law_clients_are_screened<F: Fn(u64, u128, u64, u64) -> Refill>(
    proxy: &mut HttpProxy<F>,
    ip: IpAddr,
    m: &mut ServiceMetrics,
    r: Result<(), &'static str>,
)
    requires
        call_ensures(HttpProxy::<F>::screen, (proxy, ip, m), r),
    ensures
        only_limiter_differs(*old(proxy), *final(proxy)),
        may_be_limited(old(proxy).limiter(), ip, final(proxy).limiter(), r is Ok),
        old(proxy).limiter() is None ==> r is Ok,
        r is Ok ==> *final(m) == *old(m),
        r matches Err(name) ==> name@ == "RateLimiter"@ && one_error_more(*old(m), *final(m)),
{
}

/// A connection that is accepted is screened. One that is not rejected counts as one connection;
/// its handshake comes next exactly where the service is encrypted, and otherwise its requests
/// are served at once.
pub proof fn law_http_connections_enter<F: Fn(u64, u128, u64, u64) -> Refill>(
    proxy: &mut HttpProxy<F>,
    ip: IpAddr,
    m: &mut ServiceMetrics,
    r: Result<HttpNext, &'static str>,
)
    requires
        call_ensures(HttpProxy::<F>::accepted, (proxy, ip, m), r),
    ensures
        only_limiter_differs(*old(proxy), *final(proxy)),
        may_be_limited(old(proxy).limiter(), ip, final(proxy).limiter(), r is Ok),
        r matches Ok(next) ==> {
            let c = old(proxy).config;
            &&& one_connection_more(*old(m), *final(m))
            &&& next is Handshake <==> c.acme_domain is Some || (c.cert_path is Some
                && c.key_path is Some)
            &&& next is Serve <==> !(next is Handshake)
        },
        r matches Err(name) ==> name@ == "RateLimiter"@ && one_error_more(*old(m), *final(m)),
{
}

/// After a handshake that was done requests are served, and nothing counts; after any other the
/// connection is closed and counts as one error.
pub proof fn law_http_handshake<F: Fn(u64, u128, u64, u64) -> Refill>(
    proxy: &HttpProxy<F>,
    outcome: Handshake,
    m: &mut ServiceMetrics,
    r: HttpNext,
)
    requires
        call_ensures(HttpProxy::<F>::shook_hands, (proxy, outcome, m), r),
    ensures
        outcome is Done ==> r is Serve && *final(m) == *old(m),
        !(outcome is Done) ==> r is Close && failed_and_closed(*old(m), *final(m)),
{
}

/// A connection that was served counts one active connection less, and one error where serving it
/// took too long. What could not be accepted, read or sent counts as one error.
pub proof fn law_http_connections_end<F: Fn(u64, u128, u64, u64) -> Refill>(
    proxy: &HttpProxy<F>,
    timed_out: bool,
    m: &mut ServiceMetrics,
    other: &mut ServiceMetrics,
)
    requires
        call_ensures(HttpProxy::<F>::served, (proxy, timed_out, m), ()),
        call_ensures(HttpProxy::<F>::accept_failed, (proxy, other), ()),
    ensures
        timed_out ==> failed_and_closed(*old(m), *final(m)),
        !timed_out ==> one_connection_less(*old(m), *final(m)),
        one_error_more(*old(other), *final(other)),
{
}

/// A QUIC connection that is accepted counts as one connection, and one that ends as it should
/// as one active connection less; one that is not accepted or breaks counts as one error.
pub proof fn law_quic_connections_count<F: Fn(u64, u128, u64, u64) -> Refill>(
    proxy: &HttpProxy<F>,
    ok: bool,
    first: &mut ServiceMetrics,
    last: &mut ServiceMetrics,
)
    requires
        call_ensures(HttpProxy::<F>::quic_accepted, (proxy, ok, first), ()),
        call_ensures(HttpProxy::<F>::quic_ended, (proxy, ok, last), ()),
    ensures
        ok ==> one_connection_more(*old(first), *final(first)) && one_connection_less(
            *old(last),
            *final(last),
        ),
        !ok ==> one_error_more(*old(first), *final(first)) && one_error_more(
            *old(last),
            *final(last),
        ),
{
}

/// The proxy answers in plain text: with 502 where no backend was found or the backend did not
/// answer, and with 500 where there is no URI, except that over HTTP/3 there is no answer then.
pub proof fn law_errors_are_answered(
    refusal: Refusal,
    plain: ErrorReply,
    stream: Option<ErrorReply>,
    description: &str,
    failure: ErrorReply,
)
    requires
        call_ensures(refusal_reply, (refusal,), plain),
        call_ensures(stream_refusal_reply, (refusal,), stream),
        call_ensures(failure_reply, (description,), failure),
    ensures
        plain.content_type@ == "text/plain"@,
        refusal is NoBackend ==> plain.status == 502 && plain.body@
            == "Gateway Error: No backends configured or available."@,
        refusal is BadUri ==> plain.status == 500 && plain.body@
            == "Internal Error: Bad backend URI format."@,
        refusal is BadUri ==> stream is None,
        refusal is NoBackend ==> stream is Some && stream->0.status == 502
            && stream->0.content_type@ == "text/plain"@ && stream->0.body@ == plain.body@,
        failure.status == 502,
        failure.content_type@ == "text/plain"@,
        failure.body@ == "Bad Gateway: Request to backend failed: "@ + description@,
{
}

} // verus!
