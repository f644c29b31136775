//! From a configuration to running services, again at every change of the configuration.
use crate::config::{texts, Config, Protocol, ServiceConfig};
use crate::http::{configured, in_order, made_from, HttpProxy};
use crate::metrics::{counters, MetricsTracker, ServiceMetrics};
use crate::middleware::load_balancer::{fresh_nodes, BalancerView, LoadBalancer};
use crate::middleware::rate_limiter::{asked_for, Refill};
use crate::tcp::TcpProxy;
use crate::udp::UdpProxy;
use crate::ui::TuiServiceInfo;
use vstd::prelude::*;

verus! {

/// A service that is ready to run.
pub enum Proxy<F, S> {
    Tcp(TcpProxy<F>),
    Udp(UdpProxy<F, S>),
    Http(HttpProxy<F>),
}

/// All services of a configuration.
pub struct Launch<F, S> {
    /// What the dashboard is to know of them.
    pub infos: Vec<TuiServiceInfo>,
    pub proxies: Vec<Proxy<F, S>>,
}

/// The state in which the load balancer of a service starts.
pub open spec fn starting_balancer(config: ServiceConfig) -> BalancerView {
    BalancerView {
        nodes: fresh_nodes(texts(config.backends@)),
        mode: config.load_balance,
        counter: 0,
    }
}

impl<F: Fn(u64, u128, u64, u64) -> Refill, S> Proxy<F, S> {
    /// Whether this is the service that `config` describes, as it is before its first client.
    pub open spec fn starts(&self, config: ServiceConfig, arith: F) -> bool {
        match self {
            Proxy::Tcp(p) => {
                &&& config.protocol is Tcp
                &&& p.wf()
                &&& p.config == config
                &&& p.intake.balancer()@ == starting_balancer(config)
                &&& asked_for(config.rate_limit, arith, p.intake.limiter())
            },
            Proxy::Udp(p) => {
                &&& config.protocol is Udp
                &&& p.wf()
                &&& p.config == config
                &&& p@.dom().is_empty()
                &&& p.intake.balancer()@ == starting_balancer(config)
                &&& asked_for(config.rate_limit, arith, p.intake.limiter())
            },
            Proxy::Http(p) => {
                &&& config.protocol is Http
                &&& p.wf()
                &&& p.config == config
                &&& p.default_lb@ == starting_balancer(config)
                &&& asked_for(config.rate_limit, arith, p.limiter())
                &&& exists|order: Seq<int>| #[trigger]
                    in_order(configured(config), order) && forall|k: int|
                        0 <= k < order.len() ==> made_from(
                            #[trigger] p.routes@[k],
                            configured(config)[order[k]],
                            config,
                        )
                &&& p.routes@.len() == configured(config).len()
            },
        }
    }

    /// The service that `config` describes.
    pub fn new(config: ServiceConfig, arith: F) -> (r: Self)
        requires
            forall|tokens: u64, elapsed: u128, rate: u64, max: u64|
                call_requires(arith, (tokens, elapsed, rate, max)),
        ensures
            r.starts(config, arith),
    {
        let mut backends: Vec<String> = Vec::new();
        for i in 0..config.backends.len()
            invariant
                backends@.len() == i,
                forall|j: int| 0 <= j < i ==> (#[trigger] backends@[j])@ == config.backends@[j]@,
        {
            backends.push(config.backends[i].clone());
        }
        assert(texts(backends@) =~= texts(config.backends@));
        let lb = LoadBalancer::new(backends, config.load_balance);
        match config.protocol {
            Protocol::Tcp => Proxy::Tcp(TcpProxy::new(config, lb, arith)),
            Protocol::Udp => Proxy::Udp(UdpProxy::new(config, lb, arith)),
            Protocol::Http => Proxy::Http(HttpProxy::new(config, lb, arith)),
        }
    }
}

/// Whether `info` is what the dashboard is to know of the service that `config` describes.
pub open spec fn describes(info: TuiServiceInfo, config: ServiceConfig) -> bool {
    &&& info.name@ == config.name@
    &&& info.protocol@ == config.label()
    &&& info.listen_addr@ == config.listen_addr@
}

/// What the dashboard is to know of a service.
pub fn service_info(config: &ServiceConfig) -> (r: TuiServiceInfo)
    ensures
        describes(r, *config),
{
    TuiServiceInfo {
        name: config.name.clone(),
        protocol: config.protocol_label(),
        listen_addr: config.listen_addr.clone(),
    }
}

/// The names of services.
pub open spec fn names(services: Seq<ServiceConfig>) -> Seq<Seq<char>> {
    services.map_values(|s: ServiceConfig| s.name@)
}

/// The names of the services in a configuration.
pub fn service_names(config: &Config) -> (r: Vec<String>)
    ensures
        texts(r@) == names(config.services@),
{
    let mut r: Vec<String> = Vec::new();
    for i in 0..config.services.len()
        invariant
            r@.len() == i,
            forall|j: int| 0 <= j < i ==> (#[trigger] r@[j])@ == config.services@[j].name@,
    {
        r.push(config.services[i].name.clone());
    }
    assert(texts(r@) =~= names(config.services@));
    r
}

/// The counters after each of `listed` was registered where it was not before.
pub open spec fn registered(
    metrics: Map<Seq<char>, ServiceMetrics>,
    listed: Seq<Seq<char>>,
) -> Map<Seq<char>, ServiceMetrics>
    decreases listed.len(),
{
    if listed.len() == 0 {
        metrics
    } else {
        let earlier = registered(metrics, listed.drop_last());
        earlier.insert(listed.last(), counters(earlier, listed.last()))
    }
}

/// The services of a configuration, each registered with its counters. A service that has
/// counters keeps them.
pub fn launch<F: Fn(u64, u128, u64, u64) -> Refill + Copy, S>(
    config: Config,
    metrics: &mut MetricsTracker,
    arith: F,
) -> (r: Launch<F, S>)
    requires
        old(metrics).wf(),
        forall|tokens: u64, elapsed: u128, rate: u64, max: u64|
            call_requires(arith, (tokens, elapsed, rate, max)),
    ensures
        final(metrics).wf(),
        final(metrics)@ == registered(old(metrics)@, names(config.services@)),
        r.infos@.len() == config.services@.len(),
        r.proxies@.len() == config.services@.len(),
        forall|i: int|
            0 <= i < config.services@.len() ==> describes(
                #[trigger] r.infos@[i],
                config.services@[i],
            ),
        forall|i: int|
            0 <= i < config.services@.len() ==> (#[trigger] r.proxies@[i]).starts(
                config.services@[i],
                arith,
            ),
{
    let mut infos: Vec<TuiServiceInfo> = Vec::new();
    let mut proxies: Vec<Proxy<F, S>> = Vec::new();
    let ghost all = config.services@;
    let ghost before = metrics@;
    for service in rest: config.services
        invariant
            rest.seq() == all,
            metrics.wf(),
            metrics@ == registered(before, names(all).take(rest.index())),
            infos@.len() == rest.index(),
            proxies@.len() == rest.index(),
            forall|tokens: u64, elapsed: u128, rate: u64, max: u64|
                call_requires(arith, (tokens, elapsed, rate, max)),
            forall|i: int| 0 <= i < infos@.len() ==> describes(#[trigger] infos@[i], all[i]),
            forall|i: int|
                0 <= i < proxies@.len() ==> (#[trigger] proxies@[i]).starts(all[i], arith),
    {
        let ghost k = rest.index();
        assert(names(all).take(k + 1).drop_last() =~= names(all).take(k));
        let _ = metrics.get(service.name.as_str());
        infos.push(service_info(&service));
        proxies.push(Proxy::new(service, arith));
    }
    assert(names(all).take(all.len() as int) =~= names(all));
    Launch { infos, proxies }
}

/// Registering services leaves every counter as it is, makes all listed services known and no
/// others, and starts those that were not known with all counters at zero.
pub proof fn law_registering_keeps_counters(
    metrics: Map<Seq<char>, ServiceMetrics>,
    listed: Seq<Seq<char>>,
)
    ensures
        forall|name: Seq<char>| #[trigger]
            registered(metrics, listed).contains_key(name) <==> metrics.contains_key(name)
                || listed.contains(name),
        forall|name: Seq<char>| #[trigger]
            registered(metrics, listed).contains_key(name) ==> registered(metrics, listed)[name]
                == counters(metrics, name),
    decreases listed.len(),
{
    if listed.len() > 0 {
        law_registering_keeps_counters(metrics, listed.drop_last());
        let earlier = registered(metrics, listed.drop_last());
        let now = registered(metrics, listed);
        let last = listed.last();
        assert(now == earlier.insert(last, counters(earlier, last)));
        assert forall|name: Seq<char>| #[trigger]
            now.contains_key(name) <==> metrics.contains_key(name) || listed.contains(name) by {
            assert(now.contains_key(name) == (earlier.contains_key(name) || name == last));
            assert(listed[listed.len() - 1] == last);
            if listed.contains(name) && name != last {
                let i = listed.index_of(name);
                assert(listed.drop_last()[i] == name);
            }
            if listed.drop_last().contains(name) {
                let i = listed.drop_last().index_of(name);
                assert(listed[i] == name);
            }
        }
        assert forall|name: Seq<char>| #[trigger] now.contains_key(name) implies now[name]
            == counters(metrics, name) by {
            assert(earlier.contains_key(name) || name == last);
            assert(!earlier.contains_key(name) ==> !metrics.contains_key(name));
        }
    }
}

/// Loading the same configuration again changes no counter.
pub proof fn law_reload_changes_no_counter(
    metrics: Map<Seq<char>, ServiceMetrics>,
    listed: Seq<Seq<char>>,
)
    ensures
        registered(registered(metrics, listed), listed) == registered(metrics, listed),
{
    let once = registered(metrics, listed);
    let twice = registered(once, listed);
    law_registering_keeps_counters(metrics, listed);
    law_registering_keeps_counters(once, listed);
    assert forall|name: Seq<char>| #[trigger] twice.dom().contains(name) <==> once.dom().contains(
        name,
    ) by {
        assert(twice.contains_key(name) <==> once.contains_key(name) || listed.contains(name));
        assert(once.contains_key(name) <==> metrics.contains_key(name) || listed.contains(name));
    }
    assert(twice =~= once);
}

/// Watches when the configuration file was modified, as nanoseconds from a fixed moment on.
#[derive(Debug, Clone, Copy, PartialEq, Eq, Structural)]
pub struct ModificationWatch {
    pub last_modified: i128,
}

impl ModificationWatch {
    /// Whether a file that was modified at `modified`, where that is known, is to be loaded.
    pub open spec fn newer(self, modified: Option<i128>) -> bool {
        modified matches Some(m) && m > self.last_modified
    }

    /// The watch after it saw `modified`.
    pub open spec fn saw(self, modified: Option<i128>) -> Self {
        if self.newer(modified) {
            ModificationWatch { last_modified: modified->0 }
        } else {
            self
        }
    }

    /// A watch on a file that was modified at `modified`.
    pub fn new(modified: i128) -> (r: Self)
        ensures
            r.last_modified == modified,
    {
        ModificationWatch { last_modified: modified }
    }

    /// Looks at the time at which the file was modified, where that is known, and says whether
    /// to load it.
    pub fn observe(&mut self, modified: Option<i128>) -> (r: bool)
        ensures
            r == old(self).newer(modified),
            *final(self) == old(self).saw(modified),
    {
        match modified {
            Some(m) => {
                if m > self.last_modified {
                    self.last_modified = m;
                    true
                } else {
                    false
                }
            },
            None => false,
        }
    }
}

/// A modification is acted on once: no later look at the same file, or at an older one, is.
pub proof fn law_modification_is_loaded_once(
    watch: ModificationWatch,
    modified: i128,
    again: i128,
)
    requires
        again <= modified,
    ensures
        !watch.saw(Some(modified)).newer(Some(again)),
{
}

} // verus!
