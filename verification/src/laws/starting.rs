//! Laws of configurations and of the services that are made from them.
use crate::addr::{IpAddr, SocketAddr};
use crate::clock::{nanos_between, span_since, Clock};
use crate::config::{texts, Config, LoadBalanceMode, ServiceConfig, TlsMode};
use crate::laws::balancing::lemma_nodes;
use crate::laws::connections::limited_as;
use crate::laws::requests::{lemma_ordered, ordered};
use crate::metrics::{MetricsTracker, ServiceMetrics};
use crate::middleware::load_balancer::LoadBalancer;
use crate::middleware::rate_limiter::Refill;
use crate::services::{
    launch, law_registering_keeps_counters, names, service_info, service_names, Launch,
    ModificationWatch, Proxy,
};
use crate::tls::{
    acme_contact, alpn_protocols, bytes_of, certificates, certificates_in, key_in, private_key,
    require_certificates, require_private_key, TlsError,
};
use crate::ui::TuiServiceInfo;
use rustls_pki_types::PrivateKeyDer;
use vstd::prelude::*;
use vstd::utf8::*;

verus! {

/// A service is encrypted by a domain or by both files, a domain alone deciding where it is
/// named; what it is presented as goes by the domain or the certificate alone.
pub proof fn law_encryption_is_configured(
    config: &ServiceConfig,
    encrypted: bool,
    mode: TlsMode,
    refusal: Option<&'static str>,
)
    requires
        call_ensures(ServiceConfig::is_encrypted, (config,), encrypted),
        call_ensures(ServiceConfig::tls_mode, (config,), mode),
        call_ensures(TlsMode::h3_refusal, (&mode,), refusal),
    ensures
        config.acme_domain is Some ==> encrypted,
        config.cert_path is Some && config.key_path is Some ==> encrypted,
        config.acme_domain is None && config.cert_path is None ==> !encrypted,
        config.acme_domain is None && config.key_path is None ==> !encrypted,
        mode is Acme <==> config.acme_domain is Some,
        mode is Static <==> config.acme_domain is None && config.cert_path is Some
            && config.key_path is Some,
        mode matches TlsMode::Acme { domain, email } ==> {
            &&& domain@ == config.acme_domain->0@
            &&& config.acme_email matches Some(e) ==> email@ == e@
            &&& config.acme_email is None ==> email@ == "admin@example.com"@
        },
        mode matches TlsMode::Static { cert_path, key_path } ==> cert_path@
            == config.cert_path->0@ && key_path@ == config.key_path->0@,
        encrypted ==> refusal is None,
        !encrypted ==> refusal is Some && refusal->0@
            == "HTTP/3 engine requires certs/keys or acme_domain parameters"@,
{
}

/// The label names the protocol, with an S for an encrypted one where there is a certificate or a
/// domain; the protocol of UDP has no such form.
pub open spec fn labels(config: ServiceConfig, label: Seq<char>) -> bool {
    let presented = config.cert_path is Some || config.acme_domain is Some;
    &&& config.protocol is Udp ==> label == "udp"@
    &&& config.protocol is Tcp && presented ==> label == "tcps"@
    &&& config.protocol is Tcp && !presented ==> label == "tcp"@
    &&& config.protocol is Http && presented ==> label == "https"@
    &&& config.protocol is Http && !presented ==> label == "http"@
}

/// What the dashboard knows of a service is its name, its address and its label.
pub proof fn law_services_are_described(
    config: &ServiceConfig,
    label: String,
    info: TuiServiceInfo,
)
    requires
        call_ensures(ServiceConfig::protocol_label, (config,), label),
        call_ensures(service_info, (config,), info),
    ensures
        labels(*config, label@),
        info.protocol@ == label@,
        info.name@ == config.name@,
        info.listen_addr@ == config.listen_addr@,
{
}

/// The names of the services are listed in the order of the configuration.
pub proof fn law_names_are_listed(config: &Config, r: Vec<String>, i: int)
    requires
        call_ensures(service_names, (config,), r),
    ensures
        r@.len() == config.services@.len(),
        0 <= i < r@.len() ==> r@[i]@ == config.services@[i].name@,
{
    assert(texts(r@).len() == names(config.services@).len());
    if 0 <= i < r@.len() {
        assert(texts(r@)[i] == r@[i]@);
    }
}

/// `lb` has the backends of `config`, all of them healthy, chosen as it says from the first one
/// on.
pub open spec fn balances(lb: LoadBalancer, config: ServiceConfig) -> bool {
    &&& lb.mode == config.load_balance
    &&& lb.counter == 0
    &&& lb.nodes@.len() == config.backends@.len()
    &&& forall|b: int|
        0 <= b < config.backends@.len() ==> {
            let node = #[trigger] lb.nodes@[b];
            &&& node.address@ == config.backends@[b]@
            &&& node.state is Closed
            &&& node.consecutive_failures == 0
        }
}

/// `proxy` is the service that `config` describes, before its first client.
pub open spec fn is_service<F: Fn(u64, u128, u64, u64) -> Refill, S>(
    proxy: Proxy<F, S>,
    config: ServiceConfig,
    arith: F,
) -> bool {
    &&& config.protocol is Tcp ==> proxy is Tcp
    &&& config.protocol is Udp ==> proxy is Udp
    &&& config.protocol is Http ==> proxy is Http
    &&& proxy matches Proxy::Tcp(p) ==> {
        &&& p.config == config
        &&& balances(p.intake.balancer(), config)
        &&& limited_as(config.rate_limit, arith, p.intake.limiter())
    }
    &&& proxy matches Proxy::Udp(p) ==> {
        &&& p.config == config
        &&& balances(p.intake.balancer(), config)
        &&& limited_as(config.rate_limit, arith, p.intake.limiter())
        &&& forall|client: SocketAddr| !(#[trigger] p@.contains_key(client))
    }
    &&& proxy matches Proxy::Http(p) ==> {
        &&& p.config == config
        &&& balances(p.default_lb, config)
        &&& limited_as(config.rate_limit, arith, p.limiter())
        &&& ordered(config, p.routes@)
    }
}

proof fn lemma_balances(lb: LoadBalancer, config: ServiceConfig)
    requires
        lb@ == crate::services::starting_balancer(config),
    ensures
        balances(lb, config),
{
    lemma_nodes(lb);
    assert(lb@.nodes.len() == texts(config.backends@).len());
    assert forall|b: int| 0 <= b < config.backends@.len() implies ({
        let node = #[trigger] lb.nodes@[b];
        &&& node.address@ == config.backends@[b]@
        &&& node.state is Closed
        &&& node.consecutive_failures == 0
    }) by {
        assert(texts(config.backends@)[b] == config.backends@[b]@);
    }
}

proof fn lemma_is_service<F: Fn(u64, u128, u64, u64) -> Refill, S>(
    proxy: Proxy<F, S>,
    config: ServiceConfig,
    arith: F,
)
    requires
        proxy.starts(config, arith),
    ensures
        is_service(proxy, config, arith),
{
    match proxy {
        Proxy::Tcp(p) => {
            lemma_balances(p.intake.balancer(), config);
        },
        Proxy::Udp(p) => {
            lemma_balances(p.intake.balancer(), config);
            assert forall|client: SocketAddr| !(#[trigger] p@.contains_key(client)) by {
                assert(!p@.dom().contains(client));
            }
        },
        Proxy::Http(p) => {
            lemma_balances(p.default_lb, config);
            lemma_ordered(p, config);
        },
    }
}

/// A service is made as its configuration says: for its protocol, with its backends, its limit and
/// its routes.
pub proof fn law_new_services<F: Fn(u64, u128, u64, u64) -> Refill, S>(
    config: ServiceConfig,
    arith: F,
    proxy: Proxy<F, S>,
)
    requires
        call_ensures(Proxy::<F, S>::new, (config, arith), proxy),
    ensures
        is_service(proxy, config, arith),
{
    lemma_is_service(proxy, config, arith);
}

/// A configuration is launched as one service for each that it describes, in order, with what the
/// dashboard is to know of it.
pub proof fn law_all_services_are_launched<F: Fn(u64, u128, u64, u64) -> Refill + Copy, S>(
    config: Config,
    metrics: &mut MetricsTracker,
    arith: F,
    r: Launch<F, S>,
    i: int,
)
    requires
        call_ensures(launch::<F, S>, (config, metrics, arith), r),
    ensures
        r.infos@.len() == config.services@.len(),
        r.proxies@.len() == config.services@.len(),
        0 <= i < config.services@.len() ==> {
            let service = config.services@[i];
            &&& is_service(r.proxies@[i], service, arith)
            &&& r.infos@[i].name@ == service.name@
            &&& r.infos@[i].listen_addr@ == service.listen_addr@
            &&& labels(service, r.infos@[i].protocol@)
        },
{
    if 0 <= i < config.services@.len() {
        assert(crate::services::describes(r.infos@[i], config.services@[i]));
        assert(r.proxies@[i].starts(config.services@[i], arith));
        lemma_is_service(r.proxies@[i], config.services@[i], arith);
    }
}

/// Launching makes the services of the configuration known to the tracker, with zeros where they
/// were not known, and changes no counter that there is.
pub proof fn law_launching_keeps_counters<F: Fn(u64, u128, u64, u64) -> Refill + Copy, S>(
    config: Config,
    metrics: &mut MetricsTracker,
    arith: F,
    r: Launch<F, S>,
    name: Seq<char>,
)
    requires
        call_ensures(launch::<F, S>, (config, metrics, arith), r),
    ensures
        old(metrics)@.contains_key(name) ==> final(metrics)@.contains_key(name)
            && final(metrics)@[name] == old(metrics)@[name],
        !old(metrics)@.contains_key(name) ==> {
            let listed = exists|i: int|
                0 <= i < config.services@.len() && #[trigger] config.services@[i].name@ == name;
            &&& final(metrics)@.contains_key(name) <==> listed
            &&& listed ==> final(metrics)@[name] == (ServiceMetrics {
                active_connections: 0,
                total_connections: 0,
                bytes_rx: 0,
                bytes_tx: 0,
                total_requests: 0,
                total_errors: 0,
            })
        },
{
    let listed = names(config.services@);
    law_registering_keeps_counters(metrics@, listed);
    assert(final(metrics)@.contains_key(name) <==> metrics@.contains_key(name) || listed.contains(
        name,
    ));
    if listed.contains(name) {
        let i = listed.index_of(name);
        assert(config.services@[i].name@ == name);
    }
    if exists|i: int|
        0 <= i < config.services@.len() && #[trigger] config.services@[i].name@ == name {
        let i = choose|i: int|
            0 <= i < config.services@.len() && #[trigger] config.services@[i].name@ == name;
        assert(listed[i] == name);
    }
}

/// A file is loaded exactly where it is known to be modified later than any that was loaded, and
/// from then on only a still later one is.
pub proof fn law_later_files_are_loaded(watch: &mut ModificationWatch, modified: i128, r: bool)
    requires
        call_ensures(ModificationWatch::observe, (watch, Some(modified)), r),
    ensures
        r <==> modified > old(watch).last_modified,
        final(watch).last_modified >= modified,
        final(watch).last_modified == modified || final(watch).last_modified
            == old(watch).last_modified,
        final(watch).last_modified >= old(watch).last_modified,
{
}

/// A file of which nothing is known is not loaded, and the watch starts with the time that it is
/// given.
pub proof fn law_unknown_files_are_not_loaded(
    first: i128,
    new: ModificationWatch,
    watch: &mut ModificationWatch,
    r: bool,
)
    requires
        call_ensures(ModificationWatch::new, (first,), new),
        call_ensures(ModificationWatch::observe, (watch, None), r),
    ensures
        new.last_modified == first,
        !r,
        final(watch).last_modified == old(watch).last_modified,
{
}

/// A clock that was started at one moment shows at another how long that is ago.
pub proof fn law_clock_shows_time_since_start(
    origin: std::time::Instant,
    now: std::time::Instant,
    clock: &Clock,
    r: u128,
)
    requires
        call_ensures(Clock::starting_at, (origin,), *clock),
        call_ensures(Clock::read_at, (clock, now), r),
    ensures
        r == nanos_between(origin, now),
        r / 1_000_000_000 <= u64::MAX,
{
}

/// What a clock shows whenever it is read is the time from its start to some moment.
pub proof fn law_clock_shows_some_moment(origin: std::time::Instant, clock: &Clock, r: u128)
    requires
        call_ensures(Clock::starting_at, (origin,), *clock),
        call_ensures(Clock::read, (clock,), r),
    ensures
        exists|moment: std::time::Instant| r == #[trigger] nanos_between(origin, moment),
        r / 1_000_000_000 <= u64::MAX,
{
}

/// The span from one reading to a later one makes up the later one; there is none to an earlier.
pub proof fn law_spans_make_up_readings(now: u128, earlier: u128, span: u128)
    requires
        call_ensures(span_since, (now, earlier), span),
    ensures
        earlier <= now ==> earlier + span == now,
        now <= earlier ==> span == 0,
{
}

/// The IP address of a socket address is the one it is written with, of the same version.
pub proof fn law_addresses_have_hosts(addr: &SocketAddr, r: IpAddr)
    requires
        call_ensures(SocketAddr::ip, (addr,), r),
    ensures
        r is V4 <==> addr is V4,
        *addr matches SocketAddr::V4 { ip, .. } ==> r->V4_0 == ip,
        *addr matches SocketAddr::V6 { ip, .. } ==> r->V6_0 == ip,
{
}

/// A file is good for a service exactly where it can be read and holds a certificate, and the
/// service then has all that it holds; what is missing otherwise is told.
pub proof fn law_certificates_are_required(pem: &[u8], r: Result<Vec<Vec<u8>>, TlsError>, i: int)
    requires
        call_ensures(certificates, (pem,), r),
    ensures
        r is Ok <==> certificates_in(pem@) is Some && certificates_in(pem@)->0.len() > 0,
        r matches Ok(list) ==> list@.len() == certificates_in(pem@)->0.len(),
        r matches Ok(list) ==> (0 <= i < list@.len() ==> list@[i]@ == certificates_in(pem@)->0[i]),
        certificates_in(pem@) is None ==> r is Err && r->Err_0 is Unreadable,
        certificates_in(pem@) is Some && certificates_in(pem@)->0.len() == 0 ==> r is Err
            && r->Err_0 is NoCertificates,
{
    if let Ok(list) = r {
        assert(bytes_of(list@).len() == list@.len());
        if 0 <= i < list@.len() {
            assert(bytes_of(list@)[i] == list@[i]@);
        }
    }
}

/// A file is good for a service exactly where it can be read and holds a private key, and the
/// service then has that key; what is missing otherwise is told.
pub proof fn law_private_key_is_required(
    pem: &[u8],
    r: Result<PrivateKeyDer<'static>, TlsError>,
)
    requires
        call_ensures(private_key, (pem,), r),
    ensures
        r is Ok <==> key_in(pem@) is Some && key_in(pem@)->0 is Some,
        r matches Ok(key) ==> key_in(pem@)->0 == Some(key),
        key_in(pem@) is None ==> r is Err && r->Err_0 is Unreadable,
        key_in(pem@) is Some && key_in(pem@)->0 is None ==> r is Err && r->Err_0 is NoPrivateKey,
{
}

/// Certificates that were found are taken over unless there are none, and so is a key; an error
/// of reading is kept as it is.
pub proof fn law_what_was_found_is_kept(
    list: Result<Vec<Vec<u8>>, std::io::Error>,
    certs: Result<Vec<Vec<u8>>, TlsError>,
    found: Result<Option<PrivateKeyDer<'static>>, std::io::Error>,
    key: Result<PrivateKeyDer<'static>, TlsError>,
)
    requires
        call_ensures(require_certificates, (list,), certs),
        call_ensures(require_private_key, (found,), key),
    ensures
        certs is Ok <==> list is Ok && list->Ok_0@.len() > 0,
        certs is Ok ==> certs->Ok_0 == list->Ok_0,
        list is Ok && list->Ok_0@.len() == 0 ==> certs->Err_0 is NoCertificates,
        list is Err ==> certs->Err_0 is Unreadable && certs->Err_0->Unreadable_0 == list->Err_0,
        key is Ok <==> found is Ok && found->Ok_0 is Some,
        key is Ok ==> key->Ok_0 == found->Ok_0->0,
        found is Ok && found->Ok_0 is None ==> key->Err_0 is NoPrivateKey,
        found is Err ==> key->Err_0 is Unreadable && key->Err_0->Unreadable_0 == found->Err_0,
{
}

/// Every error but that of reading is told in words of its own.
pub proof fn law_tls_errors_are_told(e: &TlsError, text: Option<&'static str>)
    requires
        call_ensures(TlsError::text, (e,), text),
    ensures
        text is None <==> e is Unreadable,
        e is NoCertificates ==> text->0@ == "Certificate file contains no certificates"@,
        e is NoPrivateKey ==> text->0@ == "No private key found in key file"@,
{
}

/// An encrypted service offers HTTP/3, HTTP/2 and HTTP/1.1, in this order, and its contact is a
/// mail address.
pub proof fn law_protocols_are_offered(
    r: Vec<Vec<u8>>,
    email: &str,
    contact: String,
    mode: LoadBalanceMode,
)
    requires
        call_ensures(alpn_protocols, (), r),
        call_ensures(acme_contact, (email,), contact),
        call_ensures(LoadBalanceMode::default, (), mode),
    ensures
        r@.len() == 3,
        r@[0]@ == encode_utf8("h3"@),
        r@[1]@ == encode_utf8("h2"@),
        r@[2]@ == encode_utf8("http/1.1"@),
        contact@ == "mailto:"@ + email@,
        mode is RoundRobin,
{
    assert(bytes_of(r@).len() == r@.len());
    assert(bytes_of(r@)[0] == r@[0]@);
    assert(bytes_of(r@)[1] == r@[1]@);
    assert(bytes_of(r@)[2] == r@[2]@);
}

} // verus!
