//! What the dashboard shows.
use crate::clock::{since, span_since, Clock, MAX_SPAN, NANOS_PER_SEC};
use crate::metrics::{
    counters, lemma_named, named, names_unique, MetricsTracker, ServiceMetrics,
    ServiceMetricsSnapshot,
};
use crate::text::{decimal, decimal_text, same_text, two_places, two_places_text};
use vstd::prelude::*;
use vstd::string::*;

verus! {

/// How long the dashboard waits between two ticks, in nanoseconds.
pub const TICK_RATE: u128 = 250_000_000;

/// Numbers of bytes from here on keep only their leading 53 bits.
pub const EXACT_LIMIT: u64 = 9_007_199_254_740_992;

/// How many times `unit` goes into `n`, rounded to the nearest whole number; to the even one
/// where two are equally near.
pub open spec fn nearest(n: nat, unit: nat) -> nat {
    let q = n / unit;
    let r = n % unit;
    if 2 * r < unit || (2 * r == unit && q % 2 == 0) {
        q
    } else {
        q + 1
    }
}

/// The step between the numbers of 53 bits that are about as large as `n`.
pub open spec fn step(n: nat) -> nat
    decreases n,
{
    if n < EXACT_LIMIT {
        1
    } else {
        2 * step(n / 2)
    }
}

/// `n` rounded to its leading 53 bits.
pub open spec fn rounded(n: nat) -> nat {
    nearest(n, step(n)) * step(n)
}

/// The size of the unit in which `bytes` bytes are shown: the largest that goes into it.
pub open spec fn unit_size(bytes: nat) -> nat {
    if bytes < 1024 {
        1
    } else if bytes < 1_048_576 {
        1024
    } else if bytes < 1_073_741_824 {
        1_048_576
    } else if bytes < 1_099_511_627_776 {
        1_073_741_824
    } else {
        1_099_511_627_776
    }
}

/// The name of the unit in which `bytes` bytes are shown.
pub open spec fn unit_name(bytes: nat) -> Seq<char> {
    if bytes < 1024 {
        "B"@
    } else if bytes < 1_048_576 {
        "KB"@
    } else if bytes < 1_073_741_824 {
        "MB"@
    } else if bytes < 1_099_511_627_776 {
        "GB"@
    } else {
        "TB"@
    }
}

/// The hundredths of its unit that `bytes` bytes are shown as.
pub open spec fn hundredths(bytes: nat) -> nat {
    nearest(100 * rounded(bytes), unit_size(bytes))
}

/// How `bytes` bytes are shown.
pub open spec fn byte_text(bytes: nat) -> Seq<char> {
    if bytes == 0 {
        "0 B"@
    } else {
        decimal(hundredths(bytes) / 100) + "."@ + two_places(hundredths(bytes) % 100) + " "@
            + unit_name(bytes)
    }
}

/// How a span of `secs` seconds is shown: hours, minutes and seconds.
pub open spec fn duration_text(secs: nat) -> Seq<char> {
    two_places(secs / 3600) + ":"@ + two_places(secs % 3600 / 60) + ":"@ + two_places(secs % 60)
}

/// Below the limit a number of bytes is not rounded before its unit is chosen.
pub proof fn law_counts_below_the_limit_are_exact(bytes: nat)
    requires
        bytes < EXACT_LIMIT,
    ensures
        rounded(bytes) == bytes,
{
    assert(nearest(bytes, 1) == bytes);
    assert(bytes * step(bytes) == bytes) by (nonlinear_arith)
        requires
            step(bytes) == 1,
    ;
}

/// How many times `unit` goes into `n`, rounded.
fn nearest_of(n: u128, unit: u128) -> (r: u128)
    requires
        0 < unit < 0x1_0000_0000_0000_0000,
        n < 0x1_0000_0000_0000_0000_0000_0000,
    ensures
        r == nearest(n as nat, unit as nat),
{
    let q: u128 = n / unit;
    let r: u128 = n % unit;
    if 2 * r < unit || (2 * r == unit && q % 2 == 0) {
        q
    } else {
        assert(q <= n) by (nonlinear_arith)
            requires
                q == n / unit,
                unit > 0,
        ;
        q + 1
    }
}

/// The step between the numbers of 53 bits that are about as large as `n`.
fn step_of(n: u64) -> (r: u64)
    ensures
        r == step(n as nat),
        1 <= r,
        n >= EXACT_LIMIT ==> r * (EXACT_LIMIT / 2) <= n,
        n < EXACT_LIMIT ==> r == 1,
    decreases n,
{
    if n < EXACT_LIMIT {
        1
    } else {
        2 * step_of(n / 2)
    }
}

/// Writes a number of bytes, in the largest unit that goes into it and with two decimals.
pub fn format_bytes(bytes: u64) -> (r: String)
    ensures
        r@ == byte_text(bytes as nat),
{
    if bytes == 0 {
        return "0 B".to_string();
    }
    let step: u64 = step_of(bytes);
    let whole: u128 = nearest_of(bytes as u128, step as u128);
    assert(whole * step <= bytes + step) by (nonlinear_arith)
        requires
            whole <= bytes / step + 1,
            step >= 1,
    ;
    let value: u128 = whole * (step as u128);
    assert(value == rounded(bytes as nat));
    proof {
        if bytes < EXACT_LIMIT {
            law_counts_below_the_limit_are_exact(bytes as nat);
        }
    }
    let (size, name): (u128, &str) = if bytes < 1024 {
        (1, "B")
    } else if bytes < 1_048_576 {
        (1024, "KB")
    } else if bytes < 1_073_741_824 {
        (1_048_576, "MB")
    } else if bytes < 1_099_511_627_776 {
        (1_073_741_824, "GB")
    } else {
        (1_099_511_627_776, "TB")
    };
    let hundredths: u128 = nearest_of(100 * value, size);
    assert(hundredths / 100 <= u64::MAX) by (nonlinear_arith)
        requires
            hundredths <= (100 * value) / size as int + 1,
            value <= 2 * u64::MAX,
            value < 1024 || size >= 1024,
            size >= 1,
    ;
    let mut r = decimal_text((hundredths / 100) as u64);
    r.append(".");
    r.append(two_places_text((hundredths % 100) as u64).as_str());
    r.append(" ");
    r.append(name);
    r
}

/// Writes a span of time as hours, minutes and seconds.
pub fn format_duration(secs: u64) -> (r: String)
    ensures
        r@ == duration_text(secs as nat),
{
    let mut r = two_places_text(secs / 3600);
    r.append(":");
    r.append(two_places_text(secs % 3600 / 60).as_str());
    r.append(":");
    r.append(two_places_text(secs % 60).as_str());
    r
}

/// What the dashboard knows of a service besides its counters.
#[derive(Debug, Clone)]
pub struct TuiServiceInfo {
    pub name: String,
    pub protocol: String,
    pub listen_addr: String,
}

/// The color in which a protocol is shown.
#[derive(Debug, Clone, Copy, PartialEq, Eq, Structural)]
pub enum ProtocolColor {
    LightGreen,
    LightBlue,
    Magenta,
    White,
}

/// The color of the protocol with the given label in lower case.
pub open spec fn color_of(label: Seq<char>) -> ProtocolColor {
    if label == "http"@ || label == "https"@ {
        ProtocolColor::LightGreen
    } else if label == "tcp"@ || label == "tcps"@ {
        ProtocolColor::LightBlue
    } else if label == "udp"@ {
        ProtocolColor::Magenta
    } else {
        ProtocolColor::White
    }
}

/// The row of one service.
#[derive(Debug)]
pub struct ServiceRow {
    pub name: String,
    pub protocol: String,
    pub protocol_color: ProtocolColor,
    pub listen_addr: String,
    pub active: String,
    /// Whether there are open connections, which the row stresses.
    pub is_active: bool,
    pub total: String,
    pub requests: String,
    pub received: String,
    pub sent: String,
    pub errors: String,
    /// Whether there were errors, which the row stresses.
    pub has_errors: bool,
}

/// What a row shows.
pub struct RowView {
    pub name: Seq<char>,
    pub protocol: Seq<char>,
    pub protocol_color: ProtocolColor,
    pub listen_addr: Seq<char>,
    pub active: Seq<char>,
    pub is_active: bool,
    pub total: Seq<char>,
    pub requests: Seq<char>,
    pub received: Seq<char>,
    pub sent: Seq<char>,
    pub errors: Seq<char>,
    pub has_errors: bool,
}

impl View for ServiceRow {
    type V = RowView;

    open spec fn view(&self) -> RowView {
        RowView {
            name: self.name@,
            protocol: self.protocol@,
            protocol_color: self.protocol_color,
            listen_addr: self.listen_addr@,
            active: self.active@,
            is_active: self.is_active,
            total: self.total@,
            requests: self.requests@,
            received: self.received@,
            sent: self.sent@,
            errors: self.errors@,
            has_errors: self.has_errors,
        }
    }
}

/// The lower case form of a text, as the standard library defines it.
pub uninterp spec fn lower_case(s: Seq<char>) -> Seq<char>;

/// The upper case form of a text, as the standard library defines it.
pub uninterp spec fn upper_case(s: Seq<char>) -> Seq<char>;

/// Trusted: `str::to_lowercase`. Its result is a matter of the text alone, and has a name here.
#[verifier::external_body]
fn to_lower_case(s: &str) -> (r: String)
    ensures
        r@ == lower_case(s@),
{
    s.to_lowercase()
}

/// Trusted: `str::to_uppercase`. Its result is a matter of the text alone, and has a name here.
#[verifier::external_body]
fn to_upper_case(s: &str) -> (r: String)
    ensures
        r@ == upper_case(s@),
{
    s.to_uppercase()
}

/// The row of a service with the given counters, whose protocol has the label `lower` in lower
/// case and `upper` in upper case.
pub open spec fn row_of(
    info: TuiServiceInfo,
    m: ServiceMetricsSnapshot,
    lower: Seq<char>,
    upper: Seq<char>,
) -> RowView {
    RowView {
        name: info.name@,
        protocol: upper,
        protocol_color: color_of(lower),
        listen_addr: info.listen_addr@,
        active: decimal(m.active_connections as nat),
        is_active: m.active_connections != 0,
        total: decimal(m.total_connections as nat),
        requests: decimal(m.total_requests as nat),
        received: byte_text(m.bytes_rx as nat),
        sent: byte_text(m.bytes_tx as nat),
        errors: decimal(m.total_errors as nat),
        has_errors: m.total_errors != 0,
    }
}

/// The color of the protocol with the given label in lower case.
pub fn protocol_color(label: &str) -> (r: ProtocolColor)
    ensures
        r == color_of(label@),
{
    if same_text(label, "http") || same_text(label, "https") {
        ProtocolColor::LightGreen
    } else if same_text(label, "tcp") || same_text(label, "tcps") {
        ProtocolColor::LightBlue
    } else if same_text(label, "udp") {
        ProtocolColor::Magenta
    } else {
        ProtocolColor::White
    }
}

/// The snapshot of the service `name`, all counters at zero where there is none.
fn snapshot_of(snapshots: &[(String, ServiceMetricsSnapshot)], name: &str) -> (r:
    ServiceMetricsSnapshot)
    requires
        names_unique(snapshots@),
    ensures
        r == if named(snapshots@).contains_key(name@) {
            named(snapshots@)[name@]
        } else {
            ServiceMetricsSnapshot::of(ServiceMetrics::zero())
        },
{
    proof {
        lemma_named(snapshots@);
    }
    for i in 0..snapshots.len()
        invariant
            forall|j: int| 0 <= j < i ==> #[trigger] snapshots@[j].0@ != name@,
            forall|j: int|
                0 <= j < snapshots@.len() ==> named(snapshots@).contains_key(
                    #[trigger] snapshots@[j].0@,
                ) && named(snapshots@)[snapshots@[j].0@] == snapshots@[j].1,
    {
        if same_text(snapshots[i].0.as_str(), name) {
            return snapshots[i].1;
        }
    }
    ServiceMetricsSnapshot {
        active_connections: 0,
        total_connections: 0,
        bytes_rx: 0,
        bytes_tx: 0,
        total_requests: 0,
        total_errors: 0,
    }
}

/// The row of a service whose protocol has the label `lower` in lower case and `upper` in upper
/// case.
pub fn service_row(
    info: &TuiServiceInfo,
    m: &ServiceMetricsSnapshot,
    lower: &str,
    upper: String,
) -> (r: ServiceRow)
    ensures
        r@ == row_of(*info, *m, lower@, upper@),
{
    ServiceRow {
        name: info.name.clone(),
        protocol: upper,
        protocol_color: protocol_color(lower),
        listen_addr: info.listen_addr.clone(),
        active: decimal_text(m.active_connections as u64),
        is_active: m.active_connections != 0,
        total: decimal_text(m.total_connections),
        requests: decimal_text(m.total_requests),
        received: format_bytes(m.bytes_rx),
        sent: format_bytes(m.bytes_tx),
        errors: decimal_text(m.total_errors),
        has_errors: m.total_errors != 0,
    }
}

/// The rows of the dashboard, one for each service and in the same order.
pub fn service_rows(services: &[TuiServiceInfo], metrics: &MetricsTracker) -> (r: Vec<ServiceRow>)
    requires
        metrics.wf(),
    ensures
        r@.len() == services@.len(),
        forall|i: int|
            0 <= i < r@.len() ==> (#[trigger] r@[i])@ == row_of(
                services@[i],
                ServiceMetricsSnapshot::of(counters(metrics@, services@[i].name@)),
                lower_case(services@[i].protocol@),
                upper_case(services@[i].protocol@),
            ),
{
    let snapshots = metrics.get_all_snapshots();
    let mut r: Vec<ServiceRow> = Vec::new();
    for k in 0..services.len()
        invariant
            r@.len() == k,
            names_unique(snapshots@),
            named(snapshots@).dom() == metrics@.dom(),
            forall|name: Seq<char>| #[trigger]
                metrics@.contains_key(name) ==> named(snapshots@)[name]
                    == ServiceMetricsSnapshot::of(metrics@[name]),
            forall|i: int|
                0 <= i < k ==> (#[trigger] r@[i])@ == row_of(
                    services@[i],
                    ServiceMetricsSnapshot::of(counters(metrics@, services@[i].name@)),
                    lower_case(services@[i].protocol@),
                    upper_case(services@[i].protocol@),
                ),
    {
        let info = &services[k];
        let m = snapshot_of(snapshots.as_slice(), info.name.as_str());
        assert(named(snapshots@).dom().contains(info.name@) == metrics@.dom().contains(
            info.name@,
        ));
        assert(ServiceMetricsSnapshot::of(counters(metrics@, info.name@)) == m);
        let lower = to_lower_case(info.protocol.as_str());
        let upper = to_upper_case(info.protocol.as_str());
        r.push(service_row(info, &m, lower.as_str(), upper));
    }
    r
}

/// The title of the dashboard after it has run for `nanos` nanoseconds.
pub open spec fn title(nanos: nat) -> Seq<char> {
    " SPECTRA PROXY // TELEMETRY CENTER | Uptime: "@ + duration_text(nanos / NANOS_PER_SEC as nat)
        + " | Config: config.toml"@
}

/// The dashboard.
#[derive(Debug)]
pub struct TuiDashboard {
    /// Counts the time since the dashboard was made.
    pub clock: Clock,
}

impl TuiDashboard {
    /// A dashboard that starts to count the time it runs.
    pub fn new() -> (r: Self) {
        TuiDashboard::with_clock(Clock::start())
    }

    /// A dashboard that counts the time it runs by the given clock.
    pub fn with_clock(clock: Clock) -> (r: Self)
        ensures
            r.clock == clock,
    {
        TuiDashboard { clock }
    }

    /// The title after the dashboard has run for `now` nanoseconds.
    pub fn title_at(&self, now: u128) -> (r: String)
        requires
            now <= MAX_SPAN,
        ensures
            r@ == title(now as nat),
    {
        let mut r = " SPECTRA PROXY // TELEMETRY CENTER | Uptime: ".to_string();
        r.append(format_duration((now / NANOS_PER_SEC) as u64).as_str());
        r.append(" | Config: config.toml");
        r
    }

    /// The title now.
    pub fn title(&self) -> (r: String)
        ensures
            exists|now: u128| self.clock.shows(now) && r@ == #[trigger] title(now as nat),
    {
        let now: u128 = self.clock.read();
        self.title_at(now)
    }
}

/// Decides how long to wait for a key, so that the dashboard is drawn at every tick.
#[derive(Debug, Clone, Copy, PartialEq, Eq, Structural)]
pub struct Ticker {
    pub last_tick: u128,
}

impl Ticker {
    /// What is left at `now` until the next tick.
    pub open spec fn left(self, now: u128) -> u128 {
        if since(now, self.last_tick) <= TICK_RATE {
            (TICK_RATE - since(now, self.last_tick)) as u128
        } else {
            0
        }
    }

    /// The ticker after it was asked at `now` to tick if the time has come.
    pub open spec fn ticked(self, now: u128) -> Ticker {
        if since(now, self.last_tick) >= TICK_RATE {
            Ticker { last_tick: now }
        } else {
            self
        }
    }

    /// A ticker whose last tick was at `now`.
    pub fn new(now: u128) -> (r: Self)
        ensures
            r.last_tick == now,
    {
        Ticker { last_tick: now }
    }

    /// How long to wait for a key from `now` on, in nanoseconds.
    pub fn timeout(&self, now: u128) -> (r: u128)
        ensures
            r == self.left(now),
    {
        let elapsed: u128 = span_since(now, self.last_tick);
        if elapsed <= TICK_RATE {
            TICK_RATE - elapsed
        } else {
            0
        }
    }

    /// Ticks at `now` if the time has come.
    pub fn tick(&mut self, now: u128)
        ensures
            *final(self) == old(self).ticked(now),
    {
        if span_since(now, self.last_tick) >= TICK_RATE {
            self.last_tick = now;
        }
    }
}

/// Once the wait for a key is over, the ticker ticks.
pub proof fn law_tick_follows_wait(ticker: Ticker, now: u128, later: u128)
    requires
        ticker.last_tick <= now,
        now + ticker.left(now) <= later,
    ensures
        ticker.ticked(later).last_tick == later,
{
}

/// Whether a key ends the program.
pub fn quits(key: char) -> (r: bool)
    ensures
        r == (key == 'q' || key == 'Q'),
{
    key == 'q' || key == 'Q'
}

} // verus!
