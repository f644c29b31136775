//! Laws of the intake of a service and of TCP connections.
use crate::addr::IpAddr;
use crate::config::{RateLimitConfig, ServiceConfig};
use crate::laws::balancing::{
    failure_recorded, lemma_failure_recorded, lemma_success_recorded, lemma_takes,
    success_recorded, takes,
};
use crate::laws::counting::{counted_on, one_connection_more, one_error_more};
use crate::metrics::ServiceMetrics;
use crate::middleware::intake::Intake;
use crate::middleware::load_balancer::{
    law_choice_is_available, law_round_robin_turn, lemma_available_below, lemma_first_hit,
    LoadBalancer,
};
use crate::middleware::rate_limiter::{RateLimiter, Refill};
use crate::tcp::{Connect, Handshake, TcpConnection, TcpNext, TcpProxy, Transfer};
use vstd::prelude::*;

verus! {

/// No breaker of a balancer that has backends is open.
pub open spec fn all_up(lb: LoadBalancer) -> bool {
    &&& lb.nodes@.len() > 0
    &&& forall|k: int| 0 <= k < lb.nodes@.len() ==> !((#[trigger] lb.nodes@[k]).state is Open)
}

/// `backend` is one that `pre` takes at some moment that its clock shows, becoming `post`; where
/// no breaker is open and the balancer goes round, the one at the counter, which moves on by one.
pub open spec fn may_be_chosen(pre: LoadBalancer, backend: Seq<char>, post: LoadBalancer) -> bool {
    &&& exists|now: u128, draw: usize|
        pre.clock.shows(now) && #[trigger] takes(pre, now, draw, Some(backend), post)
    &&& all_up(pre) && pre.mode is RoundRobin ==> backend
        == pre.nodes@[pre.counter as int % pre.nodes@.len() as int].address@ && post.counter
        == pre.counter.wrapping_add(1)
}

/// `pre` takes no backend at some moment that its clock shows, becoming `post`: some breaker is
/// open, or there are no backends.
pub open spec fn may_be_without_choice(pre: LoadBalancer, post: LoadBalancer) -> bool {
    &&& exists|now: u128, draw: usize|
        pre.clock.shows(now) && #[trigger] takes(pre, now, draw, None, post)
    &&& !all_up(pre)
}

pub proof fn lemma_choice(
    pre: LoadBalancer,
    now: u128,
    draw: usize,
    post: LoadBalancer,
)
    requires
        pre.clock.shows(now),
        pre@.drawable(now, draw),
        post@ == pre@.after_choice(now),
        post.clock == pre.clock,
    ensures
        match pre@.chosen(now, draw) {
            Some(backend) => may_be_chosen(pre, backend, post),
            None => may_be_without_choice(pre, post),
        },
{
    let view = pre@;
    let n = pre.nodes@.len();
    lemma_takes(pre, now, draw, post);
    assert(takes(pre, now, draw, view.chosen(now, draw), post));
    assert(view.nodes.len() == n && post@.nodes.len() == n);
    lemma_first_hit(view, now, 0);
    lemma_available_below(view, now, n);
    law_choice_is_available(view, now, draw);
    if all_up(pre) {
        assert forall|k: int| 0 <= k < n implies !((#[trigger] view.nodes[k]).state is Open) by {
            assert(!(pre.nodes@[k].state is Open));
        }
        if view.mode is RoundRobin {
            law_round_robin_turn(view, now);
            vstd::arithmetic::div_mod::lemma_mod_bound(view.counter as int, n as int);
            let k = view.counter as int % n as int;
            assert(view.nodes[k].address == pre.nodes@[k].address@);
        } else {
            assert(view.nodes[0].available(now));
            assert(view.available_below(now, n).contains(0));
        }
    }
}

/// `limiter` lets a request of `ip` through by its clock (`accepted`) or not, becoming `post`; no
/// limiter lets every request through.
pub open spec fn may_be_limited<F: Fn(u64, u128, u64, u64) -> Refill>(
    limiter: Option<RateLimiter<F>>,
    ip: IpAddr,
    post: Option<RateLimiter<F>>,
    accepted: bool,
) -> bool {
    match limiter {
        Some(l) => post is Some && exists|now: u128|
            l.timed_by().shows(now) && #[trigger] l.filters(ip, now, post->0, accepted),
        None => post is None && accepted,
    }
}

/// What a client gets that enters a service: a backend that may be chosen, where the limiter
/// lets it through; the name of the limiter, where that does not, and then no backend loses its
/// turn; or the name of the balancer, where the limiter lets it through and no backend is found.
pub open spec fn may_enter<F: Fn(u64, u128, u64, u64) -> Refill>(
    pre: Intake<F>,
    ip: IpAddr,
    post: Intake<F>,
    outcome: Result<Seq<char>, Seq<char>>,
) -> bool {
    match outcome {
        Ok(backend) => {
            &&& may_be_limited(pre.limiter(), ip, post.limiter(), true)
            &&& may_be_chosen(pre.balancer(), backend, post.balancer())
        },
        Err(name) => if name == "RateLimiter"@ {
            &&& pre.limiter() is Some
            &&& may_be_limited(pre.limiter(), ip, post.limiter(), false)
            &&& post.balancer() == pre.balancer()
        } else {
            &&& name == "LoadBalancer"@
            &&& may_be_limited(pre.limiter(), ip, post.limiter(), true)
            &&& may_be_without_choice(pre.balancer(), post.balancer())
        },
    }
}

pub proof fn lemma_enter<F: Fn(u64, u128, u64, u64) -> Refill>(
    pre: Intake<F>,
    ip: IpAddr,
    post: Intake<F>,
    outcome: Result<Seq<char>, Seq<char>>,
)
    requires
        pre.lets_in(ip, post, outcome),
    ensures
        may_enter(pre, ip, post, outcome),
{
    reveal_strlit("RateLimiter");
    reveal_strlit("LoadBalancer");
    assert("RateLimiter"@.len() != "LoadBalancer"@.len());
    let backend = match outcome {
        Ok(backend) => Some(backend),
        Err(_) => None,
    };
    if pre.routes(post, backend) {
        let lb = pre.balancer();
        let (now, draw) = choose|now: u128, draw: usize|
            lb.clock.shows(now) && lb@.drawable(now, draw) && #[trigger] lb@.chosen(now, draw)
                == backend && post.balancer()@ == lb@.after_choice(now);
        lemma_choice(lb, now, draw, post.balancer());
    }
}

/// Whoever enters a service gets what `may_enter` says.
pub proof fn law_entering<F: Fn(u64, u128, u64, u64) -> Refill>(
    intake: &mut Intake<F>,
    ip: IpAddr,
    r: Result<String, &'static str>,
)
    requires
        call_ensures(Intake::<F>::enter, (intake, ip), r),
    ensures
        may_enter(
            *old(intake),
            ip,
            *final(intake),
            match r {
                Ok(backend) => Ok(backend@),
                Err(name) => Err(name@),
            },
        ),
{
    lemma_enter(
        *intake,
        ip,
        *final(intake),
        match r {
            Ok(backend) => Ok(backend@),
            Err(name) => Err(name@),
        },
    );
}

/// What is recorded at an intake is recorded at its balancer, and changes nothing at its limiter.
pub proof fn law_intake_records<F: Fn(u64, u128, u64, u64) -> Refill>(
    good: &mut Intake<F>,
    bad: &mut Intake<F>,
    address: &str,
)
    requires
        call_ensures(Intake::<F>::record_success, (good, address), ()),
        call_ensures(Intake::<F>::record_failure, (bad, address), ()),
    ensures
        success_recorded(old(good).balancer(), address@, final(good).balancer()),
        final(good).limiter() == old(good).limiter(),
        exists|now: u128| #[trigger]
            old(bad).balancer().clock.shows(now) && failure_recorded(
                old(bad).balancer(),
                address@,
                now,
                final(bad).balancer(),
            ),
        final(bad).limiter() == old(bad).limiter(),
{
    lemma_success_recorded(good.balancer(), address@, final(good).balancer());
    let (pre, post) = (bad.balancer(), final(bad).balancer());
    let now = choose|now: u128|
        pre.clock.shows(now) && post@ == #[trigger] pre@.failed(address@, now);
    lemma_failure_recorded(pre, address@, now, post);
    assert(pre.clock.shows(now));
}

/// There is a limiter exactly where a limit is configured: one without buckets, with that limit
/// and that arithmetic.
pub open spec fn limited_as<F>(
    limit: Option<RateLimitConfig>,
    arith: F,
    limiter: Option<RateLimiter<F>>,
) -> bool {
    &&& limiter is Some <==> limit is Some
    &&& limit matches Some(l) ==> {
        &&& limiter->0.capacity() == l.max_requests
        &&& limiter->0.rate() == l.refill_rate
        &&& limiter->0.arithmetic() == arith
        &&& limiter->0.cleaned_at() == 0
        &&& forall|ip: IpAddr| !(#[trigger] limiter->0@.contains_key(ip))
    }
}

/// A new intake has the balancer that it was made with, and a limiter exactly where a limit is
/// configured: one without buckets, with that limit and that arithmetic.
pub proof fn law_new_intake<F: Fn(u64, u128, u64, u64) -> Refill>(
    limit: Option<RateLimitConfig>,
    lb: LoadBalancer,
    arith: F,
    intake: Intake<F>,
)
    requires
        call_ensures(Intake::<F>::new, (limit, lb, arith), intake),
    ensures
        intake.balancer() == lb,
        limited_as(limit, arith, intake.limiter()),
{
}

/// A TCP connection that is accepted enters by the intake. One that is let in counts as one
/// connection and knows its backend, and one that is rejected counts as one error.
pub proof fn law_tcp_connections_enter<F: Fn(u64, u128, u64, u64) -> Refill>(
    proxy: &mut TcpProxy<F>,
    ip: IpAddr,
    m: &mut ServiceMetrics,
    r: Result<TcpConnection, &'static str>,
)
    requires
        call_ensures(TcpProxy::<F>::accepted, (proxy, ip, m), r),
    ensures
        final(proxy).config == old(proxy).config,
        may_enter(
            old(proxy).intake,
            ip,
            final(proxy).intake,
            match r {
                Ok(conn) => Ok(conn.backend@),
                Err(name) => Err(name@),
            },
        ),
        r is Ok ==> one_connection_more(*old(m), *final(m)),
        r is Err ==> one_error_more(*old(m), *final(m)),
{
    lemma_enter(
        proxy.intake,
        ip,
        final(proxy).intake,
        match r {
            Ok(conn) => Ok(conn.backend@),
            Err(name) => Err(name@),
        },
    );
}

/// Both an error more and an active connection less are counted, and nothing else.
pub open spec fn failed_and_closed(before: ServiceMetrics, after: ServiceMetrics) -> bool {
    &&& counted_on(
        before.total_errors as int,
        1,
        u64::MAX as int,
        after.total_errors as int,
    )
    &&& counted_on(
        after.active_connections as int,
        1,
        usize::MAX as int,
        before.active_connections as int,
    )
    &&& after == (ServiceMetrics {
        total_errors: after.total_errors,
        active_connections: after.active_connections,
        ..before
    })
}

/// A backend that was connected to is a success of that backend and counts nothing; the client's
/// handshake comes next exactly where the service is encrypted, that is, where a domain is named
/// or both a certificate and its key are. A backend that was not connected to is a failure of
/// that backend; the connection is closed and counts as one error.
pub proof fn law_tcp_connecting<F: Fn(u64, u128, u64, u64) -> Refill>(
    proxy: &mut TcpProxy<F>,
    conn: &TcpConnection,
    outcome: Connect,
    m: &mut ServiceMetrics,
    r: TcpNext,
)
    requires
        call_ensures(TcpProxy::<F>::connected, (proxy, conn, outcome, m), r),
    ensures
        final(proxy).config == old(proxy).config,
        final(proxy).intake.limiter() == old(proxy).intake.limiter(),
        outcome is Established ==> {
            let c = old(proxy).config;
            &&& *final(m) == *old(m)
            &&& success_recorded(
                old(proxy).intake.balancer(),
                conn.backend@,
                final(proxy).intake.balancer(),
            )
            &&& r is Handshake <==> c.acme_domain is Some || (c.cert_path is Some
                && c.key_path is Some)
            &&& r is Forward <==> !(r is Handshake)
        },
        !(outcome is Established) ==> {
            &&& failed_and_closed(*old(m), *final(m))
            &&& r is Close
            &&& exists|now: u128| #[trigger]
                old(proxy).intake.balancer().clock.shows(now) && failure_recorded(
                    old(proxy).intake.balancer(),
                    conn.backend@,
                    now,
                    final(proxy).intake.balancer(),
                )
        },
{
    let (pre, post) = (proxy.intake.balancer(), final(proxy).intake.balancer());
    if outcome is Established {
        lemma_success_recorded(pre, conn.backend@, post);
    } else {
        let now = choose|now: u128|
            pre.clock.shows(now) && post@ == #[trigger] pre@.failed(conn.backend@, now);
        lemma_failure_recorded(pre, conn.backend@, now, post);
        assert(pre.clock.shows(now));
    }
}

/// After a handshake that was done the bytes are forwarded, and nothing counts; after any other
/// the connection is closed and counts as one error.
pub proof fn law_tcp_handshake<F: Fn(u64, u128, u64, u64) -> Refill>(
    proxy: &TcpProxy<F>,
    outcome: Handshake,
    m: &mut ServiceMetrics,
    r: TcpNext,
)
    requires
        call_ensures(TcpProxy::<F>::shook_hands, (proxy, outcome, m), r),
    ensures
        outcome is Done ==> r is Forward && *final(m) == *old(m),
        !(outcome is Done) ==> r is Close && failed_and_closed(*old(m), *final(m)),
{
}

/// A transfer counts the bytes of both directions, each in its own counter, or one error where it
/// failed; either way one active connection less.
pub proof fn law_tcp_transfer<F: Fn(u64, u128, u64, u64) -> Refill>(
    proxy: &TcpProxy<F>,
    outcome: Transfer,
    m: &mut ServiceMetrics,
)
    requires
        call_ensures(TcpProxy::<F>::forwarded, (proxy, outcome, m), ()),
    ensures
        outcome is Failed ==> failed_and_closed(*old(m), *final(m)),
        outcome matches Transfer::Done { rx, tx } ==> {
            &&& counted_on(
                old(m).bytes_rx as int,
                rx as int,
                u64::MAX as int,
                final(m).bytes_rx as int,
            )
            &&& counted_on(
                old(m).bytes_tx as int,
                tx as int,
                u64::MAX as int,
                final(m).bytes_tx as int,
            )
            &&& counted_on(
                final(m).active_connections as int,
                1,
                usize::MAX as int,
                old(m).active_connections as int,
            )
            &&& final(m).total_errors == old(m).total_errors
            &&& final(m).total_requests == old(m).total_requests
            &&& final(m).total_connections == old(m).total_connections
        },
{
}

/// A connection that could not be accepted counts as one error.
pub proof fn law_tcp_accept_fails<F: Fn(u64, u128, u64, u64) -> Refill>(
    proxy: &TcpProxy<F>,
    m: &mut ServiceMetrics,
)
    requires
        call_ensures(TcpProxy::<F>::accept_failed, (proxy, m), ()),
    ensures
        one_error_more(*old(m), *final(m)),
{
}

/// A new TCP service has the configuration and the balancer that it was made with, and a limiter
/// exactly where a limit is configured, with that limit and that arithmetic.
pub proof fn law_new_tcp_service<F: Fn(u64, u128, u64, u64) -> Refill>(
    config: ServiceConfig,
    lb: LoadBalancer,
    arith: F,
    proxy: TcpProxy<F>,
)
    requires
        call_ensures(TcpProxy::<F>::new, (config, lb, arith), proxy),
    ensures
        proxy.config == config,
        proxy.intake.balancer() == lb,
        limited_as(config.rate_limit, arith, proxy.intake.limiter()),
{
}

} // verus!
