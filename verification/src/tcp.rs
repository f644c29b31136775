//! Forwarding of TCP connections. The sockets are the caller's: each function here takes what
//! came of the last operation on them and says what is to be done next.
use crate::addr::IpAddr;
use crate::config::ServiceConfig;
use crate::metrics::ServiceMetrics;
use crate::middleware::intake::Intake;
use crate::middleware::load_balancer::LoadBalancer;
use crate::middleware::rate_limiter::{asked_for, Refill};
use vstd::prelude::*;

verus! {

/// How long connecting to a backend may take, in seconds.
pub const CONNECT_TIMEOUT_SECS: u64 = 10;

/// How long the handshake with a client may take, in seconds.
pub const HANDSHAKE_TIMEOUT_SECS: u64 = 10;

/// What came of connecting to a backend.
#[derive(Debug, Clone, Copy, PartialEq, Eq, Structural)]
pub enum Connect {
    Established,
    Failed,
    TimedOut,
}

/// What came of the handshake with a client.
#[derive(Debug, Clone, Copy, PartialEq, Eq, Structural)]
pub enum Handshake {
    Done,
    Failed,
    TimedOut,
}

/// What came of copying between a client and a backend: the bytes that came from the client
/// and those that came from the backend.
#[derive(Debug, Clone, Copy, PartialEq, Eq, Structural)]
pub enum Transfer {
    Done { rx: u64, tx: u64 },
    Failed,
}

/// What is to be done next with a connection.
#[derive(Debug, Clone, Copy, PartialEq, Eq, Structural)]
pub enum TcpNext {
    /// Do the handshake with the client.
    Handshake,
    /// Copy between client and backend.
    Forward,
    /// Close both ends.
    Close,
}

/// The counters after an attempt to connect to a backend.
pub open spec fn after_connect(m: ServiceMetrics, outcome: Connect) -> ServiceMetrics {
    if outcome is Established {
        m
    } else {
        m.failed().closed()
    }
}

/// What follows an attempt to connect to a backend.
pub open spec fn next_after_connect(encrypted: bool, outcome: Connect) -> TcpNext {
    if outcome is Established {
        if encrypted {
            TcpNext::Handshake
        } else {
            TcpNext::Forward
        }
    } else {
        TcpNext::Close
    }
}

/// The counters after a handshake.
pub open spec fn after_handshake(m: ServiceMetrics, outcome: Handshake) -> ServiceMetrics {
    if outcome is Done {
        m
    } else {
        m.failed().closed()
    }
}

/// What follows a handshake.
pub open spec fn next_after_handshake(outcome: Handshake) -> TcpNext {
    if outcome is Done {
        TcpNext::Forward
    } else {
        TcpNext::Close
    }
}

/// The counters after client and backend have finished.
pub open spec fn after_transfer(m: ServiceMetrics, outcome: Transfer) -> ServiceMetrics {
    match outcome {
        Transfer::Done { rx, tx } => m.received(rx).sent(tx).closed(),
        Transfer::Failed => m.failed().closed(),
    }
}

/// A connection on its way to a backend.
#[derive(Debug)]
pub struct TcpConnection {
    pub backend: String,
}

/// A TCP service.
pub struct TcpProxy<F> {
    pub config: ServiceConfig,
    pub intake: Intake<F>,
}

impl<F: Fn(u64, u128, u64, u64) -> Refill> TcpProxy<F> {
    /// The filters of the service are in order.
    pub open spec fn wf(&self) -> bool {
        self.intake.wf()
    }

    /// A service with the given configuration and backends.
    pub fn new(config: ServiceConfig, lb: LoadBalancer, arith: F) -> (r: Self)
        requires
            lb.wf(),
            forall|tokens: u64, elapsed: u128, rate: u64, max: u64|
                call_requires(arith, (tokens, elapsed, rate, max)),
        ensures
            r.wf(),
            r.config == config,
            r.intake.balancer() == lb,
            asked_for(config.rate_limit, arith, r.intake.limiter()),
    {
        let intake = Intake::new(config.rate_limit, lb, arith);
        TcpProxy { config, intake }
    }

    /// A connection could not be accepted.
    pub fn accept_failed(&self, metrics: &mut ServiceMetrics)
        ensures
            *final(metrics) == old(metrics).failed(),
    {
        metrics.inc_errors();
    }

    /// A connection was accepted: it goes to the backend in the result, or is rejected by the
    /// filter that the result names.
    pub fn accepted(&mut self, client_ip: IpAddr, metrics: &mut ServiceMetrics) -> (r: Result<
        TcpConnection,
        &'static str,
    >)
        requires
            old(self).wf(),
        ensures
            final(self).wf(),
            final(self).config == old(self).config,
            match r {
                Ok(conn) => old(self).intake.lets_in(client_ip, final(self).intake, Ok(conn.backend@))
                    && *final(metrics) == old(metrics).opened(),
                Err(name) => old(self).intake.lets_in(client_ip, final(self).intake, Err(name@))
                    && *final(metrics) == old(metrics).failed(),
            },
    {
        match self.intake.enter(client_ip) {
            Ok(backend) => {
                metrics.inc_active_connections();
                Ok(TcpConnection { backend })
            },
            Err(name) => {
                metrics.inc_errors();
                Err(name)
            },
        }
    }

    /// The backend of `conn` was connected to, or was not.
    pub fn connected(
        &mut self,
        conn: &TcpConnection,
        outcome: Connect,
        metrics: &mut ServiceMetrics,
    ) -> (r: TcpNext)
        requires
            old(self).wf(),
        ensures
            final(self).wf(),
            final(self).config == old(self).config,
            *final(metrics) == after_connect(*old(metrics), outcome),
            r == next_after_connect(old(self).config.encrypted(), outcome),
            outcome is Established ==> old(self).intake.notes_success(
                conn.backend@,
                final(self).intake,
            ),
            !(outcome is Established) ==> old(self).intake.notes_failure(
                conn.backend@,
                final(self).intake,
            ),
    {
        match outcome {
            Connect::Established => {
                self.intake.record_success(conn.backend.as_str());
                if self.config.is_encrypted() {
                    TcpNext::Handshake
                } else {
                    TcpNext::Forward
                }
            },
            _ => {
                self.intake.record_failure(conn.backend.as_str());
                metrics.inc_errors();
                metrics.dec_active_connections();
                TcpNext::Close
            },
        }
    }

    /// The handshake with the client was done, or was not.
    pub fn shook_hands(&self, outcome: Handshake, metrics: &mut ServiceMetrics) -> (r: TcpNext)
        ensures
            *final(metrics) == after_handshake(*old(metrics), outcome),
            r == next_after_handshake(outcome),
    {
        match outcome {
            Handshake::Done => TcpNext::Forward,
            _ => {
                metrics.inc_errors();
                metrics.dec_active_connections();
                TcpNext::Close
            },
        }
    }

    /// Client and backend have finished.
    pub fn forwarded(&self, outcome: Transfer, metrics: &mut ServiceMetrics)
        ensures
            *final(metrics) == after_transfer(*old(metrics), outcome),
    {
        match outcome {
            Transfer::Done { rx, tx } => {
                metrics.add_rx(rx);
                metrics.add_tx(tx);
            },
            Transfer::Failed => {
                metrics.inc_errors();
            },
        }
        metrics.dec_active_connections();
    }
}

/// The counters after the whole of a connection that was let in: connecting, the handshake
/// where the service is encrypted, and the transfer, as far as it comes to them.
pub open spec fn after_connection(
    m: ServiceMetrics,
    encrypted: bool,
    connect: Connect,
    handshake: Handshake,
    transfer: Transfer,
) -> ServiceMetrics {
    let connected = after_connect(m.opened(), connect);
    match next_after_connect(encrypted, connect) {
        TcpNext::Close => connected,
        TcpNext::Forward => after_transfer(connected, transfer),
        TcpNext::Handshake => {
            let shaken = after_handshake(connected, handshake);
            match next_after_handshake(handshake) {
                TcpNext::Forward => after_transfer(shaken, transfer),
                _ => shaken,
            }
        },
    }
}

/// However a connection goes, it is no longer counted as active when it is over; it is counted
/// once; and either it transferred its bytes or exactly one error was counted for it.
pub proof fn law_connection_is_accounted_for(
    m: ServiceMetrics,
    encrypted: bool,
    connect: Connect,
    handshake: Handshake,
    transfer: Transfer,
)
    ensures
        ({
            let after = after_connection(m, encrypted, connect, handshake, transfer);
            let ended_well = connect is Established && (encrypted ==> handshake is Done)
                && transfer is Done;
            &&& after.active_connections == m.active_connections
            &&& after.total_connections == m.total_connections.wrapping_add(1)
            &&& after.total_requests == m.total_requests
            &&& ended_well ==> after.total_errors == m.total_errors && after.bytes_rx
                == m.bytes_rx.wrapping_add(transfer->rx) && after.bytes_tx
                == m.bytes_tx.wrapping_add(transfer->tx)
            &&& !ended_well ==> after.total_errors == m.total_errors.wrapping_add(1)
                && after.bytes_rx == m.bytes_rx && after.bytes_tx == m.bytes_tx
        }),
{
}

} // verus!
