//! Laws of UDP sessions.
use crate::addr::{IpAddr, SocketAddr};
use crate::config::ServiceConfig;
use crate::laws::balancing::{
    failure_recorded, lemma_failure_recorded, lemma_success_recorded, success_recorded,
};
use crate::laws::connections::{lemma_enter, limited_as, may_enter};
use crate::laws::counting::{counted_on, one_connection_less, one_connection_more, one_error_more};
use crate::metrics::ServiceMetrics;
use crate::middleware::load_balancer::LoadBalancer;
use crate::middleware::rate_limiter::Refill;
use crate::udp::{Answer, SessionSetup, UdpNext, UdpProxy, UdpSession};
use vstd::prelude::*;

verus! {

/// A client for whom a session was prepared has a session, whoever else has one: the prepared
/// one where it had none, which counts as a new connection, and otherwise the one that it had,
/// which counts as nothing. The session of every other client is as it was.
pub proof fn law_prepared_session_is_there<F: Fn(u64, u128, u64, u64) -> Refill, S>(
    proxy: &mut UdpProxy<F, S>,
    client: SocketAddr,
    session: UdpSession<S>,
    m: &mut ServiceMetrics,
    r: Option<&UdpSession<S>>,
    before: &UdpProxy<F, S>,
    had: Option<&UdpSession<S>>,
    after: &UdpProxy<F, S>,
    has: Option<&UdpSession<S>>,
    other: SocketAddr,
    other_had: Option<&UdpSession<S>>,
    other_has: Option<&UdpSession<S>>,
)
    requires
        *before == *old(proxy),
        call_ensures(UdpProxy::<F, S>::session, (before, client), had),
        call_ensures(UdpProxy::<F, S>::session, (before, other), other_had),
        call_ensures(
            UdpProxy::<F, S>::establish,
            (proxy, client, SessionSetup::Ready(session), m),
            r,
        ),
        *after == *final(proxy),
        call_ensures(UdpProxy::<F, S>::session, (after, client), has),
        call_ensures(UdpProxy::<F, S>::session, (after, other), other_has),
    ensures
        r is Some,
        has == r,
        had is Some ==> has == had && *final(m) == *old(m),
        had is None ==> *has->0 == session && one_connection_more(*old(m), *final(m)),
        other != client ==> other_has == other_had,
        final(proxy).config == old(proxy).config,
        final(proxy).intake == old(proxy).intake,
{
}

/// A client for whom no session could be prepared has the session that it had; where it had none
/// that is an error. Nobody's session changes.
pub proof fn law_unprepared_session_is_an_error<F: Fn(u64, u128, u64, u64) -> Refill, S>(
    proxy: &mut UdpProxy<F, S>,
    client: SocketAddr,
    setup: SessionSetup<S>,
    m: &mut ServiceMetrics,
    r: Option<&UdpSession<S>>,
    before: &UdpProxy<F, S>,
    had: Option<&UdpSession<S>>,
    after: &UdpProxy<F, S>,
    anyone: SocketAddr,
    anyone_had: Option<&UdpSession<S>>,
    anyone_has: Option<&UdpSession<S>>,
)
    requires
        *before == *old(proxy),
        !(setup is Ready),
        call_ensures(UdpProxy::<F, S>::session, (before, client), had),
        call_ensures(UdpProxy::<F, S>::session, (before, anyone), anyone_had),
        call_ensures(UdpProxy::<F, S>::establish, (proxy, client, setup, m), r),
        *after == *final(proxy),
        call_ensures(UdpProxy::<F, S>::session, (after, anyone), anyone_has),
    ensures
        r == had,
        anyone_has == anyone_had,
        had is Some ==> *final(m) == *old(m),
        had is None ==> one_error_more(*old(m), *final(m)),
        final(proxy).config == old(proxy).config,
        final(proxy).intake == old(proxy).intake,
{
}

/// A client whose session was ended has none, which counts one active connection less; the
/// session of every other client is as it was.
pub proof fn law_ended_session_is_gone<F: Fn(u64, u128, u64, u64) -> Refill, S>(
    proxy: &mut UdpProxy<F, S>,
    client: SocketAddr,
    m: &mut ServiceMetrics,
    before: &UdpProxy<F, S>,
    after: &UdpProxy<F, S>,
    has: Option<&UdpSession<S>>,
    other: SocketAddr,
    other_had: Option<&UdpSession<S>>,
    other_has: Option<&UdpSession<S>>,
)
    requires
        *before == *old(proxy),
        call_ensures(UdpProxy::<F, S>::session, (before, other), other_had),
        call_ensures(UdpProxy::<F, S>::close_session, (proxy, client, m), ()),
        *after == *final(proxy),
        call_ensures(UdpProxy::<F, S>::session, (after, client), has),
        call_ensures(UdpProxy::<F, S>::session, (after, other), other_has),
    ensures
        has is None,
        other != client ==> other_has == other_had,
        one_connection_less(*old(m), *final(m)),
        final(proxy).config == old(proxy).config,
        final(proxy).intake == old(proxy).intake,
{
}

/// In a new service nobody has a session.
pub proof fn law_new_service_has_no_sessions<F: Fn(u64, u128, u64, u64) -> Refill, S>(
    config: ServiceConfig,
    lb: LoadBalancer,
    arith: F,
    proxy: &UdpProxy<F, S>,
    client: SocketAddr,
    has: Option<&UdpSession<S>>,
)
    requires
        call_ensures(UdpProxy::<F, S>::new, (config, lb, arith), *proxy),
        call_ensures(UdpProxy::<F, S>::session, (proxy, client), has),
    ensures
        has is None,
        proxy.config == config,
        proxy.intake.balancer() == lb,
        limited_as(config.rate_limit, arith, proxy.intake.limiter()),
{
}

/// An answer goes back to the client exactly where it comes from the backend of the session;
/// one from elsewhere is ignored; the session ends where waiting failed or took too long. Only a
/// failure counts, as one error.
pub proof fn law_answers_go_back<F: Fn(u64, u128, u64, u64) -> Refill, S>(
    proxy: &UdpProxy<F, S>,
    backend: SocketAddr,
    answer: Answer,
    m: &mut ServiceMetrics,
    r: UdpNext,
)
    requires
        call_ensures(UdpProxy::<F, S>::answered, (proxy, backend, answer, m), r),
    ensures
        r is SendBack <==> answer == (Answer::Received { from: backend }),
        r is Close <==> answer is Failed || answer is TimedOut,
        answer is Failed ==> one_error_more(*old(m), *final(m)),
        !(answer is Failed) ==> *final(m) == *old(m),
{
}

/// An answer that was sent counts its bytes as sent, and one that was not counts as one error.
pub proof fn law_sent_answers_count<F: Fn(u64, u128, u64, u64) -> Refill, S>(
    proxy: &UdpProxy<F, S>,
    len: usize,
    sent: bool,
    m: &mut ServiceMetrics,
)
    requires
        call_ensures(UdpProxy::<F, S>::sent_back, (proxy, len, sent, m), ()),
    ensures
        sent ==> counted_on(
            old(m).bytes_tx as int,
            len as int,
            u64::MAX as int,
            final(m).bytes_tx as int,
        ) && *final(m) == (ServiceMetrics { bytes_tx: final(m).bytes_tx, ..*old(m) }),
        !sent ==> one_error_more(*old(m), *final(m)),
{
}

/// A packet that could not be received counts as one error.
pub proof fn law_failed_receipt_counts<F: Fn(u64, u128, u64, u64) -> Refill, S>(
    proxy: &UdpProxy<F, S>,
    m: &mut ServiceMetrics,
)
    requires
        call_ensures(UdpProxy::<F, S>::receive_failed, (proxy, m), ()),
    ensures
        one_error_more(*old(m), *final(m)),
{
}

/// A packet that is let in counts its bytes as received and counts as one request; one that is
/// rejected counts as one error. Neither opens or ends a session. What lets it in or rejects it
/// are the filters, asked for the IP address that it comes from.
pub proof fn law_packets_count<F: Fn(u64, u128, u64, u64) -> Refill, S>(
    proxy: &mut UdpProxy<F, S>,
    client: SocketAddr,
    len: usize,
    m: &mut ServiceMetrics,
    r: Result<String, &'static str>,
    before: &UdpProxy<F, S>,
    after: &UdpProxy<F, S>,
    anyone: SocketAddr,
    had: Option<&UdpSession<S>>,
    has: Option<&UdpSession<S>>,
)
    requires
        *before == *old(proxy),
        call_ensures(UdpProxy::<F, S>::session, (before, anyone), had),
        call_ensures(UdpProxy::<F, S>::received, (proxy, client, len, m), r),
        *after == *final(proxy),
        call_ensures(UdpProxy::<F, S>::session, (after, anyone), has),
    ensures
        has == had,
        final(proxy).config == old(proxy).config,
        r is Ok ==> counted_on(
            old(m).bytes_rx as int,
            len as int,
            u64::MAX as int,
            final(m).bytes_rx as int,
        ) && counted_on(
            old(m).total_requests as int,
            1,
            u64::MAX as int,
            final(m).total_requests as int,
        ) && *final(m) == (ServiceMetrics {
            bytes_rx: final(m).bytes_rx,
            total_requests: final(m).total_requests,
            ..*old(m)
        }),
        r is Err ==> one_error_more(*old(m), *final(m)),
        ({
            let ip = match client {
                SocketAddr::V4 { ip, .. } => IpAddr::V4(ip),
                SocketAddr::V6 { ip, .. } => IpAddr::V6(ip),
            };
            may_enter(
                old(proxy).intake,
                ip,
                final(proxy).intake,
                match r {
                    Ok(backend) => Ok(backend@),
                    Err(name) => Err(name@),
                },
            )
        }),
{
    lemma_enter(
        proxy.intake,
        client.host(),
        final(proxy).intake,
        match r {
            Ok(backend) => Ok(backend@),
            Err(name) => Err(name@),
        },
    );
}

/// A packet that reached its backend is a success of that backend; one that did not is a failure
/// and counts as one error. No session changes.
pub proof fn law_forwarding_is_recorded<F: Fn(u64, u128, u64, u64) -> Refill, S>(
    proxy: &mut UdpProxy<F, S>,
    address: &str,
    sent: bool,
    m: &mut ServiceMetrics,
    before: &UdpProxy<F, S>,
    after: &UdpProxy<F, S>,
    anyone: SocketAddr,
    had: Option<&UdpSession<S>>,
    has: Option<&UdpSession<S>>,
)
    requires
        *before == *old(proxy),
        call_ensures(UdpProxy::<F, S>::session, (before, anyone), had),
        call_ensures(UdpProxy::<F, S>::forwarded, (proxy, address, sent, m), ()),
        *after == *final(proxy),
        call_ensures(UdpProxy::<F, S>::session, (after, anyone), has),
    ensures
        has == had,
        final(proxy).config == old(proxy).config,
        final(proxy).intake.limiter() == old(proxy).intake.limiter(),
        sent ==> *final(m) == *old(m) && success_recorded(
            old(proxy).intake.balancer(),
            address@,
            final(proxy).intake.balancer(),
        ),
        !sent ==> one_error_more(*old(m), *final(m)) && exists|now: u128| #[trigger]
            old(proxy).intake.balancer().clock.shows(now) && failure_recorded(
                old(proxy).intake.balancer(),
                address@,
                now,
                final(proxy).intake.balancer(),
            ),
{
    let (pre, post) = (proxy.intake.balancer(), final(proxy).intake.balancer());
    if sent {
        lemma_success_recorded(pre, address@, post);
    } else {
        let now = choose|now: u128|
            pre.clock.shows(now) && post@ == #[trigger] pre@.failed(address@, now);
        lemma_failure_recorded(pre, address@, now, post);
        assert(pre.clock.shows(now));
    }
}

} // verus!
