//! Laws of what the dashboard shows.
use crate::clock::Clock;
use crate::metrics::{MetricsTracker, ServiceMetricsSnapshot};
use crate::text::{
    decimal, decimal_text, digit, last_segment_text, law_last_segment, same_text, starts_with,
    text_bytes, two_places, two_places_text,
};
use crate::ui::{
    byte_text, duration_text, format_bytes, format_duration, hundredths, nearest, protocol_color,
    quits, rounded, service_row, service_rows, step, title, unit_name, unit_size, EXACT_LIMIT,
    ProtocolColor, ServiceRow, Ticker, TuiDashboard, TuiServiceInfo,
};
use vstd::arithmetic::power2::{lemma2_to64, lemma_pow2_unfold, pow2};
use vstd::prelude::*;
use vstd::string::*;
use vstd::utf8::*;

verus! {

/// The number that a text reads as.
pub open spec fn reads_as(text: Seq<char>) -> int
    decreases text.len(),
{
    if text.len() == 0 {
        0
    } else {
        10 * reads_as(text.drop_last()) + (text.last() as int - '0' as int)
    }
}

/// Whether a text consists of digits.
pub open spec fn is_digits(text: Seq<char>) -> bool {
    forall|i: int| 0 <= i < text.len() ==> '0' <= #[trigger] text[i] <= '9'
}

/// `text` is `n` in digits, with no zero to begin with but for zero itself.
pub open spec fn writes(text: Seq<char>, n: int) -> bool {
    &&& is_digits(text)
    &&& reads_as(text) == n
    &&& text.len() > 0
    &&& text.len() > 1 ==> text[0] != '0'
}

/// `text` is `n` in digits, two of them at least, with no zero to begin with but for filling up
/// two places.
pub open spec fn writes_two(text: Seq<char>, n: int) -> bool {
    &&& is_digits(text)
    &&& reads_as(text) == n
    &&& text.len() > 1
    &&& text.len() > 2 ==> text[0] != '0'
}

proof fn lemma_decimal(n: nat)
    ensures
        writes(decimal(n), n as int),
        n >= 10 ==> decimal(n).len() > 1,
        n > 0 ==> decimal(n)[0] != '0',
    decreases n,
{
    let text = decimal(n);
    if n < 10 {
        assert(text.drop_last() =~= Seq::<char>::empty());
        assert(reads_as(Seq::<char>::empty()) == 0);
        assert(digit(n) as int == 48 + n);
    } else {
        lemma_decimal(n / 10);
        assert(text.drop_last() =~= decimal(n / 10));
        assert(digit(n % 10) as int == 48 + n % 10);
        assert(text[0] == decimal(n / 10)[0]);
    }
}

proof fn lemma_two_places(n: nat)
    ensures
        writes_two(two_places(n), n as int),
        n < 100 ==> two_places(n).len() == 2,
{
    let text = two_places(n);
    lemma_decimal(n);
    if n < 10 {
        assert(text.drop_last() =~= seq!['0']);
        assert(seq!['0'].drop_last() =~= Seq::<char>::empty());
        assert(reads_as(Seq::<char>::empty()) == 0);
        assert(reads_as(seq!['0']) == 0);
        assert(digit(n) as int == 48 + n);
    } else if n < 100 {
        assert(decimal(n / 10).len() == 1);
    }
}

/// A number is written in digits that read as that number, with no zero to begin with; in two
/// places, with one where there would be a single digit.
pub proof fn law_numbers_are_written(n: u64, plain: String, padded: String)
    requires
        call_ensures(decimal_text, (n,), plain),
        call_ensures(two_places_text, (n,), padded),
    ensures
        writes(plain@, n as int),
        writes_two(padded@, n as int),
        n < 100 ==> padded@.len() == 2,
        n >= 10 ==> padded@ == plain@,
{
    lemma_decimal(n as nat);
    lemma_two_places(n as nat);
}

/// A span of time is written as hours, minutes and seconds that make up the span, with less than
/// sixty minutes and seconds and two places each at least.
pub open spec fn shows_span(text: Seq<char>, secs: int) -> bool {
    exists|h: Seq<char>, m: Seq<char>, s: Seq<char>|
        #![trigger reads_as(h), reads_as(m), reads_as(s)]
        {
            &&& text == h + ":"@ + m + ":"@ + s
            &&& 3600 * reads_as(h) + 60 * reads_as(m) + reads_as(s) == secs
            &&& 0 <= reads_as(m) < 60
            &&& 0 <= reads_as(s) < 60
            &&& writes_two(h, reads_as(h))
            &&& writes_two(m, reads_as(m)) && m.len() == 2
            &&& writes_two(s, reads_as(s)) && s.len() == 2
        }
}

proof fn lemma_span(secs: nat)
    ensures
        shows_span(duration_text(secs), secs as int),
{
    let h = two_places(secs / 3600);
    let m = two_places(secs % 3600 / 60);
    let s = two_places(secs % 60);
    lemma_two_places(secs / 3600);
    lemma_two_places(secs % 3600 / 60);
    lemma_two_places(secs % 60);
    assert(reads_as(h) == secs / 3600 && reads_as(m) == secs % 3600 / 60 && reads_as(s) == secs
        % 60);
}

/// A span of time is shown so that hours, minutes and seconds add up to it.
pub proof fn law_spans_add_up(secs: u64, r: String)
    requires
        call_ensures(format_duration, (secs,), r),
    ensures
        shows_span(r@, secs as int),
{
    lemma_span(secs as nat);
}

/// The title shows for how many whole seconds the dashboard has run.
pub proof fn law_title_shows_uptime(
    dashboard: &TuiDashboard,
    now: u128,
    r: String,
    secs: int,
)
    requires
        call_ensures(TuiDashboard::title_at, (dashboard, now), r),
        1_000_000_000 * secs <= now < 1_000_000_000 * (secs + 1),
    ensures
        exists|span: Seq<char>| #[trigger]
            shows_span(span, secs) && r@ == " SPECTRA PROXY // TELEMETRY CENTER | Uptime: "@ + span
                + " | Config: config.toml"@,
{
    assert(now as nat / 1_000_000_000 == secs);
    lemma_span(secs as nat);
    assert(shows_span(duration_text(secs as nat), secs));
}

/// The title is made by what the clock of the dashboard shows, and that is the clock that the
/// dashboard was given.
pub proof fn law_title_goes_by_the_clock(clock: Clock, dashboard: &TuiDashboard, r: String)
    requires
        call_ensures(TuiDashboard::with_clock, (clock,), *dashboard),
        call_ensures(TuiDashboard::title, (dashboard,), r),
    ensures
        exists|now: u128, span: Seq<char>| #[trigger]
            clock.shows(now) && #[trigger] shows_span(span, now as int / 1_000_000_000) && r@
                == " SPECTRA PROXY // TELEMETRY CENTER | Uptime: "@ + span
                + " | Config: config.toml"@,
{
    let now = choose|now: u128| dashboard.clock.shows(now) && r@ == #[trigger] title(now as nat);
    lemma_span(now as nat / 1_000_000_000);
    assert(shows_span(duration_text(now as nat / 1_000_000_000), now as int / 1_000_000_000));
}

/// `q` units are as near to `n` as any whole number of them; where two are, `q` is even.
pub open spec fn is_nearest(n: int, unit: int, q: int) -> bool {
    &&& -unit <= 2 * (n - q * unit) <= unit
    &&& 2 * (n - q * unit) == unit || 2 * (n - q * unit) == -unit ==> q % 2 == 0
}

/// `value` is `n` to the nearest number of 53 bits: `n` itself where it has no more, and else the
/// nearest multiple of the power of two that `n` has 53 bits of.
pub open spec fn leading_bits(n: int, value: int) -> bool {
    &&& n < 9_007_199_254_740_992 ==> value == n
    &&& n >= 9_007_199_254_740_992 ==> exists|e: nat|
        {
            &&& 4_503_599_627_370_496 * #[trigger] pow2(e) <= n < 9_007_199_254_740_992 * pow2(e)
            &&& value % (pow2(e) as int) == 0
            &&& is_nearest(n, pow2(e) as int, value / (pow2(e) as int))
        }
}

/// The unit with the given name is the largest that goes into `bytes` bytes: there are bytes and
/// units of them by factors of 1024.
pub open spec fn is_unit(bytes: int, unit: int, name: Seq<char>) -> bool {
    &&& unit == 1 || unit <= bytes
    &&& name == "TB"@ || bytes < 1024 * unit
    &&& {
        ||| name == "B"@ && unit == 1
        ||| name == "KB"@ && unit == 1024
        ||| name == "MB"@ && unit == 1024 * 1024
        ||| name == "GB"@ && unit == 1024 * 1024 * 1024
        ||| name == "TB"@ && unit == 1024 * 1024 * 1024 * 1024
    }
}

/// A number of bytes is shown in the largest unit that goes into it, to the nearest hundredth;
/// none are shown as such.
pub open spec fn shows_bytes(text: Seq<char>, bytes: int) -> bool {
    &&& bytes == 0 ==> text == "0 B"@
    &&& bytes > 0 ==> exists|
        whole: Seq<char>,
        part: Seq<char>,
        unit: int,
        name: Seq<char>,
        value: int,
    |
        {
            &&& #[trigger] is_unit(bytes, unit, name)
            &&& #[trigger] leading_bits(bytes, value)
            &&& text == whole + "."@ + part + " "@ + name
            &&& is_nearest(
                100 * value,
                unit,
                100 * #[trigger] reads_as(whole) + #[trigger] reads_as(part),
            )
            &&& writes(whole, reads_as(whole))
            &&& writes_two(part, reads_as(part)) && part.len() == 2
        }
}

proof fn lemma_nearest(n: nat, unit: nat)
    requires
        unit > 0,
    ensures
        is_nearest(n as int, unit as int, nearest(n, unit) as int),
{
    let q = n / unit;
    let r = n % unit;
    assert(n == q * unit + r && r < unit) by (nonlinear_arith)
        requires
            unit > 0,
            q == n / unit,
            r == n % unit,
    ;
    assert((q + 1) * unit == q * unit + unit) by (nonlinear_arith);
}

proof fn lemma_step(n: nat)
    ensures
        n < EXACT_LIMIT ==> step(n) == 1,
        n >= EXACT_LIMIT ==> exists|e: nat|
            step(n) == #[trigger] pow2(e) && 4_503_599_627_370_496 * pow2(e) <= n
                < 9_007_199_254_740_992 * pow2(e),
    decreases n,
{
    lemma2_to64();
    if n >= EXACT_LIMIT {
        lemma_step(n / 2);
        if n / 2 < EXACT_LIMIT {
            lemma_pow2_unfold(1);
            assert(step(n) == pow2(1));
        } else {
            let e = choose|e: nat|
                step(n / 2) == #[trigger] pow2(e) && 4_503_599_627_370_496 * pow2(e) <= n / 2
                    < 9_007_199_254_740_992 * pow2(e);
            lemma_pow2_unfold(e + 1);
            assert(step(n) == pow2(e + 1));
        }
    }
}

proof fn lemma_rounded(n: nat)
    ensures
        leading_bits(n as int, rounded(n) as int),
{
    lemma_step(n);
    if n < EXACT_LIMIT {
        crate::ui::law_counts_below_the_limit_are_exact(n);
    } else {
        let e = choose|e: nat|
            step(n) == #[trigger] pow2(e) && 4_503_599_627_370_496 * pow2(e) <= n
                < 9_007_199_254_740_992 * pow2(e);
        let p = pow2(e);
        let q = nearest(n, p);
        vstd::arithmetic::power2::lemma_pow2_pos(e);
        lemma_nearest(n, p);
        assert((q * p) % p == 0 && (q * p) / p == q) by {
            vstd::arithmetic::div_mod::lemma_mod_multiples_basic(q as int, p as int);
            vstd::arithmetic::div_mod::lemma_div_by_multiple(q as int, p as int);
        }
        assert(rounded(n) == q * p);
    }
}

proof fn lemma_bytes(bytes: nat)
    ensures
        shows_bytes(byte_text(bytes), bytes as int),
{
    if bytes > 0 {
        let h = hundredths(bytes);
        let whole = decimal(h / 100);
        let part = two_places(h % 100);
        lemma_decimal(h / 100);
        lemma_two_places(h % 100);
        lemma_rounded(bytes);
        lemma_nearest(100 * rounded(bytes), unit_size(bytes));
        assert(is_unit(bytes as int, unit_size(bytes) as int, unit_name(bytes)));
        assert(leading_bits(bytes as int, rounded(bytes) as int));
        assert(100 * reads_as(whole) + reads_as(part) == h);
    }
}

/// A number of bytes is shown in the largest unit that goes into it, to the nearest hundredth.
pub proof fn law_bytes_are_shown(bytes: u64, r: String)
    requires
        call_ensures(format_bytes, (bytes,), r),
    ensures
        shows_bytes(r@, bytes as int),
{
    lemma_bytes(bytes as nat);
}

/// The row of a service with the given counters: its name and address, its protocol in the color
/// that goes with the label, the counts in digits and the volumes in units; open connections and
/// errors are stressed where there are any.
pub open spec fn row_shows(
    row: ServiceRow,
    info: TuiServiceInfo,
    active: int,
    total: int,
    requests: int,
    rx: int,
    tx: int,
    errors: int,
) -> bool {
    &&& row.name@ == info.name@
    &&& row.listen_addr@ == info.listen_addr@
    &&& writes(row.active@, active)
    &&& writes(row.total@, total)
    &&& writes(row.requests@, requests)
    &&& writes(row.errors@, errors)
    &&& shows_bytes(row.received@, rx)
    &&& shows_bytes(row.sent@, tx)
    &&& row.is_active <==> active > 0
    &&& row.has_errors <==> errors > 0
}

/// Labels of HTTP are light green, of TCP light blue, of UDP magenta, and all others white.
pub open spec fn colored(label: Seq<char>, color: ProtocolColor) -> bool {
    &&& color is LightGreen <==> label == "http"@ || label == "https"@
    &&& color is LightBlue <==> label == "tcp"@ || label == "tcps"@
    &&& color is Magenta <==> label == "udp"@
}

proof fn lemma_labels()
    ensures
        "http"@ != "tcp"@,
        "http"@ != "tcps"@,
        "http"@ != "udp"@,
        "https"@ != "tcp"@,
        "https"@ != "tcps"@,
        "https"@ != "udp"@,
        "tcp"@ != "udp"@,
        "tcps"@ != "udp"@,
{
    reveal_strlit("http");
    reveal_strlit("https");
    reveal_strlit("tcp");
    reveal_strlit("tcps");
    reveal_strlit("udp");
    assert("http"@[0] == 'h' && "https"@[0] == 'h' && "tcp"@[0] == 't' && "tcps"@[0] == 't'
        && "udp"@[0] == 'u');
}

/// A label is shown in the color of its protocol.
pub proof fn law_protocols_have_colors(label: &str, color: ProtocolColor)
    requires
        call_ensures(protocol_color, (label,), color),
    ensures
        colored(label@, color),
{
    lemma_labels();
}

proof fn lemma_row(row: ServiceRow, info: TuiServiceInfo, m: ServiceMetricsSnapshot)
    requires
        exists|lower: Seq<char>, upper: Seq<char>|
            row@ == #[trigger] crate::ui::row_of(info, m, lower, upper),
    ensures
        row_shows(
            row,
            info,
            m.active_connections as int,
            m.total_connections as int,
            m.total_requests as int,
            m.bytes_rx as int,
            m.bytes_tx as int,
            m.total_errors as int,
        ),
{
    lemma_decimal(m.active_connections as nat);
    lemma_decimal(m.total_connections as nat);
    lemma_decimal(m.total_requests as nat);
    lemma_decimal(m.total_errors as nat);
    lemma_bytes(m.bytes_rx as nat);
    lemma_bytes(m.bytes_tx as nat);
}

/// A row shows the counters that it is made from.
pub proof fn law_row_shows_counters(
    info: &TuiServiceInfo,
    m: &ServiceMetricsSnapshot,
    lower: &str,
    upper: String,
    row: ServiceRow,
)
    requires
        call_ensures(service_row, (info, m, lower, upper), row),
    ensures
        row_shows(
            row,
            *info,
            m.active_connections as int,
            m.total_connections as int,
            m.total_requests as int,
            m.bytes_rx as int,
            m.bytes_tx as int,
            m.total_errors as int,
        ),
        row.protocol@ == upper@,
        colored(lower@, row.protocol_color),
{
    lemma_labels();
    assert(row@ == crate::ui::row_of(*info, *m, lower@, upper@));
    lemma_row(row, *info, *m);
}

/// There is one row for each service, in the same order, and it shows the counters that the
/// tracker has for the service; zeros where it has none.
pub proof fn law_rows_show_services(
    services: &[TuiServiceInfo],
    metrics: &MetricsTracker,
    rows: Vec<ServiceRow>,
    i: int,
)
    requires
        call_ensures(service_rows, (services, metrics), rows),
    ensures
        rows@.len() == services@.len(),
        0 <= i < services@.len() ==> {
            let row = rows@[i];
            let info = services@[i];
            let label = crate::ui::lower_case(info.protocol@);
            &&& row.protocol@ == crate::ui::upper_case(info.protocol@)
            &&& colored(label, row.protocol_color)
            &&& metrics@.contains_key(info.name@) ==> {
                let m = metrics@[info.name@];
                row_shows(
                    row,
                    info,
                    m.active_connections as int,
                    m.total_connections as int,
                    m.total_requests as int,
                    m.bytes_rx as int,
                    m.bytes_tx as int,
                    m.total_errors as int,
                )
            }
            &&& !metrics@.contains_key(info.name@) ==> row_shows(row, info, 0, 0, 0, 0, 0, 0)
        },
{
    lemma_labels();
    if 0 <= i < services@.len() {
        let info = services@[i];
        let m = ServiceMetricsSnapshot::of(crate::metrics::counters(metrics@, info.name@));
        assert(rows@[i]@ == crate::ui::row_of(
            info,
            m,
            crate::ui::lower_case(info.protocol@),
            crate::ui::upper_case(info.protocol@),
        ));
        lemma_row(rows@[i], info, m);
    }
}

/// The wait for a key ends a quarter of a second after the last tick, and at once where that has
/// passed. A tick comes from that moment on, at the time at which it is asked for, and not before.
pub proof fn law_ticks_come_in_time(ticker: &mut Ticker, now: u128, wait: u128)
    requires
        call_ensures(Ticker::timeout, (&*ticker, now), wait),
        call_ensures(Ticker::tick, (ticker, now), ()),
    ensures
        now < old(ticker).last_tick ==> wait == 250_000_000,
        old(ticker).last_tick <= now <= old(ticker).last_tick + 250_000_000 ==> now + wait
            == old(ticker).last_tick + 250_000_000,
        old(ticker).last_tick + 250_000_000 <= now ==> wait == 0,
        old(ticker).last_tick + 250_000_000 <= now ==> final(ticker).last_tick == now,
        old(ticker).last_tick + 250_000_000 > now ==> final(ticker).last_tick
            == old(ticker).last_tick,
{
}

/// A ticker starts with a tick, and only the letter Q ends the program, small or large.
pub proof fn law_new_ticker_and_keys(now: u128, ticker: Ticker, key: char, r: bool)
    requires
        call_ensures(Ticker::new, (now,), ticker),
        call_ensures(quits, (key,), r),
    ensures
        ticker.last_tick == now,
        key == 'q' || key == 'Q' ==> r,
        r ==> key == 'q' || key == 'Q',
{
}

/// Two texts are the same where each starts with the other, and in no other case; and one starts
/// with another exactly where something can be added to the other that makes it the one.
pub proof fn law_texts_are_compared(a: &str, b: &str, same: bool, starts: bool)
    requires
        call_ensures(same_text, (a, b), same),
        call_ensures(starts_with, (a, b), starts),
    ensures
        same <==> a@ == b@,
        starts <==> (exists|rest: Seq<char>| a@ == #[trigger] (b@ + rest)),
        same ==> starts,
        starts && a@.len() == b@.len() ==> same,
{
    if starts {
        let rest = a@.skip(b@.len() as int);
        assert(a@ =~= b@ + rest);
        if a@.len() == b@.len() {
            assert(a@ =~= b@);
        }
    }
    if exists|rest: Seq<char>| a@ == #[trigger] (b@ + rest) {
        let rest = choose|rest: Seq<char>| a@ == #[trigger] (b@ + rest);
        assert(b@ =~= a@.subrange(0, b@.len() as int));
    }
    if same {
        assert(a@ =~= b@ + Seq::<char>::empty());
    }
}

/// The last segment of a text holds no colon, and the text ends with it, behind a colon or from
/// its start on.
pub proof fn law_last_segment_is_cut_off(s: &str, r: String, bytes: usize)
    requires
        call_ensures(last_segment_text, (s,), r),
        call_ensures(text_bytes, (s,), bytes),
    ensures
        !r@.contains(':'),
        s@ == r@ || (exists|head: Seq<char>| s@ == #[trigger] (head + seq![':']) + r@),
        bytes == encode_utf8(s@).len(),
{
    law_last_segment(s@);
    let n = s@.len() - r@.len();
    if n > 0 {
        let head = s@.take(n - 1);
        assert(s@ =~= (head + seq![':']) + r@);
    } else {
        assert(s@ =~= r@);
    }
}

} // verus!
