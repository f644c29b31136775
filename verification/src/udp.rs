//! Forwarding of UDP packets. The sockets are the caller's; a session carries the socket over
//! which the packets of one client go to its backend.
use crate::addr::SocketAddr;
use crate::config::ServiceConfig;
use crate::keyed::{
    keyed, keys_unique, lemma_keyed, lemma_keyed_len, lemma_keyed_push, lemma_keyed_remove,
};
use crate::metrics::ServiceMetrics;
use crate::middleware::intake::Intake;
use crate::middleware::load_balancer::LoadBalancer;
use crate::middleware::rate_limiter::{asked_for, Refill};
use vstd::prelude::*;

verus! {

/// A session ends when its backend has been silent for this many seconds.
pub const SESSION_TIMEOUT_SECS: u64 = 30;

/// The size of the largest packet, in bytes.
pub const MAX_DATAGRAM_SIZE: usize = 65507;

/// The way from one client to its backend.
#[derive(Debug)]
pub struct UdpSession<S> {
    pub backend_socket: S,
    pub backend_addr: SocketAddr,
}

/// What came of the preparations for a session.
#[derive(Debug)]
pub enum SessionSetup<S> {
    /// The address of the backend is none.
    BadAddress,
    /// No socket could be bound.
    BindFailed,
    /// Everything is there.
    Ready(UdpSession<S>),
}

/// What came of waiting for an answer from a backend.
#[derive(Debug, Clone, Copy, PartialEq, Eq, Structural)]
pub enum Answer {
    Received { from: SocketAddr },
    Failed,
    TimedOut,
}

/// What is to be done next in a session.
#[derive(Debug, Clone, Copy, PartialEq, Eq, Structural)]
pub enum UdpNext {
    /// Drop what was received and go on waiting.
    Ignore,
    /// Send what was received to the client.
    SendBack,
    /// End the session.
    Close,
}

/// What follows an answer in a session with the given backend: packets from anywhere else are
/// ignored.
pub open spec fn next_after_answer(backend_addr: SocketAddr, answer: Answer) -> UdpNext {
    match answer {
        Answer::Received { from } => if from == backend_addr {
            UdpNext::SendBack
        } else {
            UdpNext::Ignore
        },
        Answer::Failed => UdpNext::Close,
        Answer::TimedOut => UdpNext::Close,
    }
}

/// The counters after an answer.
pub open spec fn after_answer(m: ServiceMetrics, answer: Answer) -> ServiceMetrics {
    if answer is Failed {
        m.failed()
    } else {
        m
    }
}

/// The sessions after the preparations for one: a session that is there already is kept, and
/// otherwise a new one is opened where the preparations succeeded.
pub open spec fn after_setup<S>(
    sessions: Map<SocketAddr, UdpSession<S>>,
    client: SocketAddr,
    setup: SessionSetup<S>,
) -> Map<SocketAddr, UdpSession<S>> {
    match setup {
        SessionSetup::Ready(session) => if sessions.contains_key(client) {
            sessions
        } else {
            sessions.insert(client, session)
        },
        _ => sessions,
    }
}

/// The counters after the preparations for a session, where the client had one already
/// (`known`) or not.
pub open spec fn counted_setup<S>(
    m: ServiceMetrics,
    known: bool,
    setup: SessionSetup<S>,
) -> ServiceMetrics {
    if known {
        m
    } else if setup is Ready {
        m.opened()
    } else {
        m.failed()
    }
}

/// A UDP service.
pub struct UdpProxy<F, S> {
    pub config: ServiceConfig,
    pub intake: Intake<F>,
    pub sessions: Vec<(SocketAddr, UdpSession<S>)>,
}

impl<F, S> View for UdpProxy<F, S> {
    type V = Map<SocketAddr, UdpSession<S>>;

    open spec fn view(&self) -> Map<SocketAddr, UdpSession<S>> {
        keyed(self.sessions@)
    }
}

impl<F: Fn(u64, u128, u64, u64) -> Refill, S> UdpProxy<F, S> {
    /// The filters are in order, and no client has two sessions.
    pub open spec fn wf(&self) -> bool {
        self.intake.wf() && keys_unique(self.sessions@)
    }

    /// A service with the given configuration and backends, without sessions.
    pub fn new(config: ServiceConfig, lb: LoadBalancer, arith: F) -> (r: Self)
        requires
            lb.wf(),
            forall|tokens: u64, elapsed: u128, rate: u64, max: u64|
                call_requires(arith, (tokens, elapsed, rate, max)),
        ensures
            r.wf(),
            r@ == Map::<SocketAddr, UdpSession<S>>::empty(),
            r.config == config,
            r.intake.balancer() == lb,
            asked_for(config.rate_limit, arith, r.intake.limiter()),
    {
        let intake = Intake::new(config.rate_limit, lb, arith);
        UdpProxy { config, intake, sessions: Vec::new() }
    }

    /// A packet could not be received.
    pub fn receive_failed(&self, metrics: &mut ServiceMetrics)
        ensures
            *final(metrics) == old(metrics).failed(),
    {
        metrics.inc_errors();
    }

    /// A packet of `len` bytes was received from `client`: the result is the backend for a new
    /// session, or the filter that rejects the packet.
    pub fn received(
        &mut self,
        client: SocketAddr,
        len: usize,
        metrics: &mut ServiceMetrics,
    ) -> (r: Result<String, &'static str>)
        requires
            old(self).wf(),
        ensures
            final(self).wf(),
            final(self).config == old(self).config,
            final(self)@ == old(self)@,
            match r {
                Ok(backend) => old(self).intake.lets_in(
                    client.host(),
                    final(self).intake,
                    Ok(backend@),
                ) && *final(metrics) == old(metrics).received(len as u64).requested(),
                Err(name) => old(self).intake.lets_in(client.host(), final(self).intake, Err(name@))
                    && *final(metrics) == old(metrics).failed(),
            },
    {
        match self.intake.enter(client.ip()) {
            Ok(backend) => {
                metrics.add_rx(len as u64);
                metrics.inc_requests();
                Ok(backend)
            },
            Err(name) => {
                metrics.inc_errors();
                Err(name)
            },
        }
    }

    fn position(&self, client: SocketAddr) -> (r: Option<usize>)
        requires
            self.wf(),
        ensures
            match r {
                Some(i) => i < self.sessions.len() && self.sessions[i as int].0 == client
                    && self@.contains_key(client) && self@[client] == self.sessions[i as int].1,
                None => !self@.contains_key(client),
            },
    {
        proof {
            lemma_keyed(self.sessions@);
        }
        for i in 0..self.sessions.len()
            invariant
                forall|j: int| 0 <= j < i ==> #[trigger] self.sessions[j].0 != client,
                forall|j: int|
                    0 <= j < self.sessions.len() ==> self@.contains_key(
                        #[trigger] self.sessions[j].0,
                    ) && self@[self.sessions[j].0] == self.sessions[j].1,
        {
            if self.sessions[i].0 == client {
                return Some(i);
            }
        }
        None
    }

    /// The session of a client, where it has one.
    pub fn session(&self, client: SocketAddr) -> (r: Option<&UdpSession<S>>)
        requires
            self.wf(),
        ensures
            match r {
                Some(s) => self@.contains_key(client) && *s == self@[client],
                None => !self@.contains_key(client),
            },
    {
        match self.position(client) {
            Some(i) => Some(&self.sessions[i].1),
            None => None,
        }
    }

    /// Opens a session for a client after the preparations for one, and gives the session that
    /// the client has then.
    pub fn establish(
        &mut self,
        client: SocketAddr,
        setup: SessionSetup<S>,
        metrics: &mut ServiceMetrics,
    ) -> (r: Option<&UdpSession<S>>)
        requires
            old(self).wf(),
        ensures
            final(self).wf(),
            final(self).config == old(self).config,
            final(self).intake == old(self).intake,
            final(self)@ == after_setup(old(self)@, client, setup),
            *final(metrics) == counted_setup(
                *old(metrics),
                old(self)@.contains_key(client),
                setup,
            ),
            match r {
                Some(s) => final(self)@.contains_key(client) && *s == final(self)@[client],
                None => !final(self)@.contains_key(client),
            },
    {
        if let Some(i) = self.position(client) {
            return Some(&self.sessions[i].1);
        }
        match setup {
            SessionSetup::Ready(session) => {
                proof {
                    lemma_keyed_push(self.sessions@, client, session);
                }
                self.sessions.push((client, session));
                metrics.inc_active_connections();
                let last = self.sessions.len() - 1;
                Some(&self.sessions[last].1)
            },
            _ => {
                metrics.inc_errors();
                None
            },
        }
    }

    /// A packet was sent to the backend `address`, or could not be.
    pub fn forwarded(&mut self, address: &str, sent: bool, metrics: &mut ServiceMetrics)
        requires
            old(self).wf(),
        ensures
            final(self).wf(),
            final(self).config == old(self).config,
            final(self)@ == old(self)@,
            sent ==> *final(metrics) == *old(metrics) && old(self).intake.notes_success(
                address@,
                final(self).intake,
            ),
            !sent ==> *final(metrics) == old(metrics).failed() && old(self).intake.notes_failure(
                address@,
                final(self).intake,
            ),
    {
        if sent {
            self.intake.record_success(address);
        } else {
            self.intake.record_failure(address);
            metrics.inc_errors();
        }
    }

    /// Something came of waiting for an answer in a session with the backend `backend_addr`.
    pub fn answered(
        &self,
        backend_addr: SocketAddr,
        answer: Answer,
        metrics: &mut ServiceMetrics,
    ) -> (r: UdpNext)
        ensures
            r == next_after_answer(backend_addr, answer),
            *final(metrics) == after_answer(*old(metrics), answer),
    {
        match answer {
            Answer::Received { from } => if from == backend_addr {
                UdpNext::SendBack
            } else {
                UdpNext::Ignore
            },
            Answer::Failed => {
                metrics.inc_errors();
                UdpNext::Close
            },
            Answer::TimedOut => UdpNext::Close,
        }
    }

    /// An answer of `len` bytes was sent to the client, or could not be.
    pub fn sent_back(&self, len: usize, sent: bool, metrics: &mut ServiceMetrics)
        ensures
            *final(metrics) == if sent {
                old(metrics).sent(len as u64)
            } else {
                old(metrics).failed()
            },
    {
        if sent {
            metrics.add_tx(len as u64);
        } else {
            metrics.inc_errors();
        }
    }

    /// Ends the session of a client.
    pub fn close_session(&mut self, client: SocketAddr, metrics: &mut ServiceMetrics)
        requires
            old(self).wf(),
        ensures
            final(self).wf(),
            final(self).config == old(self).config,
            final(self).intake == old(self).intake,
            final(self)@ == old(self)@.remove(client),
            *final(metrics) == old(metrics).closed(),
    {
        match self.position(client) {
            Some(i) => {
                proof {
                    lemma_keyed_remove(self.sessions@, i as int);
                }
                self.sessions.remove(i);
            },
            None => {
                assert(self@.remove(client) =~= self@);
            },
        }
        metrics.dec_active_connections();
    }
}

/// Opening and ending sessions keeps the number of active connections in step with the number
/// of sessions, and ending a session undoes its opening.
pub proof fn law_active_connections_follow_sessions<F: Fn(u64, u128, u64, u64) -> Refill, S>(
    proxy: UdpProxy<F, S>,
    client: SocketAddr,
    session: UdpSession<S>,
    m: ServiceMetrics,
)
    requires
        proxy.wf(),
        !proxy@.contains_key(client),
        m.active_connections < usize::MAX,
    ensures
        proxy@.dom().finite(),
        proxy@.insert(client, session).dom().len() - m.opened().active_connections
            == proxy@.dom().len() - m.active_connections,
        proxy@.insert(client, session).remove(client) == proxy@,
        m.opened().closed().active_connections == m.active_connections,
{
    lemma_keyed_len(proxy.sessions@);
    assert(proxy@.insert(client, session).dom() =~= proxy@.dom().insert(client));
    assert(proxy@.insert(client, session).remove(client) =~= proxy@);
}

/// A client that has a session keeps it, whatever is prepared for it, and no other client's
/// session is touched; so all packets of a client go to one backend until its session ends.
pub proof fn law_sessions_stay<S>(
    sessions: Map<SocketAddr, UdpSession<S>>,
    client: SocketAddr,
    setup: SessionSetup<S>,
    other: SocketAddr,
)
    requires
        sessions.contains_key(other),
    ensures
        after_setup(sessions, client, setup).contains_key(other),
        after_setup(sessions, client, setup)[other] == sessions[other],
        other != client ==> sessions.remove(client).contains_key(other) && sessions.remove(
            client,
        )[other] == sessions[other],
{
}

/// A packet that does not come from the backend of the session never reaches the client.
pub proof fn law_only_the_backend_answers(backend_addr: SocketAddr, answer: Answer)
    ensures
        next_after_answer(backend_addr, answer) is SendBack <==> answer == (Answer::Received {
            from: backend_addr,
        }),
{
}

} // verus!
