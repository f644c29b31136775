//! Laws of the counters.
use crate::metrics::{
    lemma_named, named, names_unique, MetricsTracker, ServiceMetrics, ServiceMetricsSnapshot,
};
use vstd::prelude::*;

verus! {

/// A counter after `more` was added: behind its largest value it starts again at zero.
pub open spec fn counted_on(before: int, more: int, largest: int, after: int) -> bool {
    after == before + more || (before + more > largest && after == before + more - largest - 1)
}

/// Exactly one error more is counted, and nothing else.
pub open spec fn one_error_more(before: ServiceMetrics, after: ServiceMetrics) -> bool {
    &&& counted_on(
        before.total_errors as int,
        1,
        u64::MAX as int,
        after.total_errors as int,
    )
    &&& after == (ServiceMetrics { total_errors: after.total_errors, ..before })
}

/// Exactly one connection more is counted, as active and in all, and nothing else.
pub open spec fn one_connection_more(before: ServiceMetrics, after: ServiceMetrics) -> bool {
    &&& counted_on(
        before.active_connections as int,
        1,
        usize::MAX as int,
        after.active_connections as int,
    )
    &&& counted_on(
        before.total_connections as int,
        1,
        u64::MAX as int,
        after.total_connections as int,
    )
    &&& after == (ServiceMetrics {
        active_connections: after.active_connections,
        total_connections: after.total_connections,
        ..before
    })
}

/// Exactly one active connection less is counted, and nothing else.
pub open spec fn one_connection_less(before: ServiceMetrics, after: ServiceMetrics) -> bool {
    &&& counted_on(
        after.active_connections as int,
        1,
        usize::MAX as int,
        before.active_connections as int,
    )
    &&& after == (ServiceMetrics { active_connections: after.active_connections, ..before })
}

/// A connection that is opened counts one more active connection and one more in all.
pub proof fn law_opening_counts(m: &mut ServiceMetrics)
    requires
        call_ensures(ServiceMetrics::inc_active_connections, (m,), ()),
    ensures
        counted_on(
            old(m).active_connections as int,
            1,
            usize::MAX as int,
            final(m).active_connections as int,
        ),
        counted_on(
            old(m).total_connections as int,
            1,
            u64::MAX as int,
            final(m).total_connections as int,
        ),
        final(m).bytes_rx == old(m).bytes_rx,
        final(m).bytes_tx == old(m).bytes_tx,
        final(m).total_requests == old(m).total_requests,
        final(m).total_errors == old(m).total_errors,
{
}

/// A connection that is closed counts one active connection less and changes nothing else; it
/// undoes what opening did to the active connections.
pub proof fn law_closing_counts(m: &mut ServiceMetrics, earlier: &mut ServiceMetrics)
    requires
        call_ensures(ServiceMetrics::dec_active_connections, (m,), ()),
        call_ensures(ServiceMetrics::inc_active_connections, (earlier,), ()),
    ensures
        counted_on(
            final(m).active_connections as int,
            1,
            usize::MAX as int,
            old(m).active_connections as int,
        ),
        final(m).total_connections == old(m).total_connections,
        final(m).bytes_rx == old(m).bytes_rx,
        final(m).bytes_tx == old(m).bytes_tx,
        final(m).total_requests == old(m).total_requests,
        final(m).total_errors == old(m).total_errors,
        *old(m) == *final(earlier) ==> final(m).active_connections
            == old(earlier).active_connections,
{
}

/// Bytes that come in are counted as received and as nothing else.
pub proof fn law_received_bytes_count(m: &mut ServiceMetrics, bytes: u64)
    requires
        call_ensures(ServiceMetrics::add_rx, (m, bytes), ()),
    ensures
        counted_on(
            old(m).bytes_rx as int,
            bytes as int,
            u64::MAX as int,
            final(m).bytes_rx as int,
        ),
        *final(m) == (ServiceMetrics { bytes_rx: final(m).bytes_rx, ..*old(m) }),
{
}

/// Bytes that go out are counted as sent and as nothing else.
pub proof fn law_sent_bytes_count(m: &mut ServiceMetrics, bytes: u64)
    requires
        call_ensures(ServiceMetrics::add_tx, (m, bytes), ()),
    ensures
        counted_on(
            old(m).bytes_tx as int,
            bytes as int,
            u64::MAX as int,
            final(m).bytes_tx as int,
        ),
        *final(m) == (ServiceMetrics { bytes_tx: final(m).bytes_tx, ..*old(m) }),
{
}

/// A request is counted as one request and as nothing else.
pub proof fn law_requests_count(m: &mut ServiceMetrics)
    requires
        call_ensures(ServiceMetrics::inc_requests, (m,), ()),
    ensures
        counted_on(
            old(m).total_requests as int,
            1,
            u64::MAX as int,
            final(m).total_requests as int,
        ),
        *final(m) == (ServiceMetrics { total_requests: final(m).total_requests, ..*old(m) }),
{
}

/// An error is counted as one error and as nothing else.
pub proof fn law_errors_count(m: &mut ServiceMetrics)
    requires
        call_ensures(ServiceMetrics::inc_errors, (m,), ()),
    ensures
        counted_on(
            old(m).total_errors as int,
            1,
            u64::MAX as int,
            final(m).total_errors as int,
        ),
        *final(m) == (ServiceMetrics { total_errors: final(m).total_errors, ..*old(m) }),
{
}

/// All six counters stand at zero.
pub open spec fn all_zero(m: ServiceMetrics) -> bool {
    &&& m.active_connections == 0
    &&& m.total_connections == 0
    &&& m.bytes_rx == 0
    &&& m.bytes_tx == 0
    &&& m.total_requests == 0
    &&& m.total_errors == 0
}

/// New counters stand at zero.
pub proof fn law_new_counters(m: ServiceMetrics, by_default: ServiceMetrics)
    requires
        call_ensures(ServiceMetrics::new, (), m),
        call_ensures(ServiceMetrics::default, (), by_default),
    ensures
        all_zero(m),
        all_zero(by_default),
{
}

/// What was left in the counters of a name is read when they are got again, also after those of
/// another name were got and changed in between; and the other name never reads it.
pub proof fn law_names_have_their_own_counters(
    one: &mut MetricsTracker,
    name: &str,
    first: &mut ServiceMetrics,
    two: &mut MetricsTracker,
    other: &str,
    between: &mut ServiceMetrics,
    three: &mut MetricsTracker,
    again: &mut ServiceMetrics,
    zero: &mut MetricsTracker,
    apart: &mut ServiceMetrics,
)
    requires
        call_ensures(MetricsTracker::get, (one, name), first),
        *old(two) == *final(one),
        call_ensures(MetricsTracker::get, (two, other), between),
        *old(three) == *final(two),
        call_ensures(MetricsTracker::get, (three, name), again),
        *old(zero) == *old(one),
        call_ensures(MetricsTracker::get, (zero, other), apart),
        name@ != other@,
    ensures
        *old(again) == *final(first),
        *old(between) == *old(apart),
{
}

/// What was left in the counters of a name is read when they are got again at once.
pub proof fn law_counters_are_kept(
    one: &mut MetricsTracker,
    name: &str,
    first: &mut ServiceMetrics,
    two: &mut MetricsTracker,
    again: &mut ServiceMetrics,
)
    requires
        call_ensures(MetricsTracker::get, (one, name), first),
        *old(two) == *final(one),
        call_ensures(MetricsTracker::get, (two, name), again),
    ensures
        *old(again) == *final(first),
{
}

/// In a new tracker every name has counters at zero, whether it was listed or not.
pub proof fn law_new_tracker(
    listed: &[String],
    tracker: &mut MetricsTracker,
    name: &str,
    counters: &mut ServiceMetrics,
)
    requires
        call_ensures(MetricsTracker::new, (listed,), *old(tracker)),
        call_ensures(MetricsTracker::get, (tracker, name), counters),
    ensures
        all_zero(*old(counters)),
{
}

/// What was left in the counters of a name is what the snapshots show of it, and they show it
/// once.
pub proof fn law_snapshots_show_counters(
    tracker: &mut MetricsTracker,
    name: &str,
    counters: &mut ServiceMetrics,
    after: &MetricsTracker,
    r: Vec<(String, ServiceMetricsSnapshot)>,
)
    requires
        call_ensures(MetricsTracker::get, (tracker, name), counters),
        *after == *final(tracker),
        call_ensures(MetricsTracker::get_all_snapshots, (after,), r),
    ensures
        exists|i: int| 0 <= i < r@.len() && (#[trigger] r@[i]).0@ == name@,
        forall|i: int|
            0 <= i < r@.len() && (#[trigger] r@[i]).0@ == name@ ==> {
                let shown = r@[i].1;
                &&& shown.active_connections == final(counters).active_connections
                &&& shown.total_connections == final(counters).total_connections
                &&& shown.bytes_rx == final(counters).bytes_rx
                &&& shown.bytes_tx == final(counters).bytes_tx
                &&& shown.total_requests == final(counters).total_requests
                &&& shown.total_errors == final(counters).total_errors
            },
        forall|i: int, j: int|
            0 <= i < j < r@.len() ==> (#[trigger] r@[i]).0@ != (#[trigger] r@[j]).0@,
{
    assert(names_unique(r@));
    lemma_named(r@);
    assert(after@.dom().contains(name@));
    assert(named(r@).contains_key(name@));
    assert(after@.contains_key(name@));
}

/// The snapshots of a new tracker show the listed names and no others, with all counters at
/// zero.
pub proof fn law_snapshots_of_a_new_tracker(
    listed: &[String],
    tracker: &MetricsTracker,
    r: Vec<(String, ServiceMetricsSnapshot)>,
    i: int,
)
    requires
        call_ensures(MetricsTracker::new, (listed,), *tracker),
        call_ensures(MetricsTracker::get_all_snapshots, (tracker,), r),
    ensures
        0 <= i < r@.len() ==> exists|k: int|
            0 <= k < listed@.len() && (#[trigger] listed@[k])@ == r@[i].0@,
        0 <= i < r@.len() ==> r@[i].1.total_connections == 0 && r@[i].1.total_errors == 0
            && r@[i].1.bytes_rx == 0 && r@[i].1.bytes_tx == 0 && r@[i].1.total_requests == 0
            && r@[i].1.active_connections == 0,
        0 <= i < listed@.len() ==> exists|k: int|
            0 <= k < r@.len() && (#[trigger] r@[k]).0@ == listed@[i]@,
{
    lemma_named(r@);
    if 0 <= i < r@.len() {
        assert(named(r@).dom().contains(r@[i].0@));
        assert(tracker@.dom().contains(r@[i].0@));
        assert(tracker@.contains_key(r@[i].0@));
    }
    if 0 <= i < listed@.len() {
        assert(tracker@.contains_key(listed@[i]@));
        assert(named(r@).dom().contains(listed@[i]@));
        assert(named(r@).contains_key(listed@[i]@));
    }
}

} // verus!
