//! Traffic counters of the proxied services.
use crate::text::same_text;
use vstd::prelude::*;

verus! {

/// The counters of one service. A counter that passes its largest value starts again at zero.
#[derive(Debug, Clone, Copy, PartialEq, Eq, Structural)]
pub struct ServiceMetrics {
    pub active_connections: usize,
    pub total_connections: u64,
    pub bytes_rx: u64,
    pub bytes_tx: u64,
    pub total_requests: u64,
    pub total_errors: u64,
}

impl Default for ServiceMetrics {
    fn default() -> (r: Self)
        ensures
            r == ServiceMetrics::zero(),
    {
        ServiceMetrics {
            active_connections: 0,
            total_connections: 0,
            bytes_rx: 0,
            bytes_tx: 0,
            total_requests: 0,
            total_errors: 0,
        }
    }
}

impl ServiceMetrics {
    /// All counters at zero.
    pub open spec fn zero() -> Self {
        ServiceMetrics {
            active_connections: 0,
            total_connections: 0,
            bytes_rx: 0,
            bytes_tx: 0,
            total_requests: 0,
            total_errors: 0,
        }
    }

    /// These counters after a connection was opened.
    pub open spec fn opened(self) -> Self {
        ServiceMetrics {
            active_connections: self.active_connections.wrapping_add(1),
            total_connections: self.total_connections.wrapping_add(1),
            ..self
        }
    }

    /// These counters after a connection was closed.
    pub open spec fn closed(self) -> Self {
        ServiceMetrics { active_connections: self.active_connections.wrapping_sub(1), ..self }
    }

    /// These counters after `bytes` bytes came in.
    pub open spec fn received(self, bytes: u64) -> Self {
        ServiceMetrics { bytes_rx: self.bytes_rx.wrapping_add(bytes), ..self }
    }

    /// These counters after `bytes` bytes went out.
    pub open spec fn sent(self, bytes: u64) -> Self {
        ServiceMetrics { bytes_tx: self.bytes_tx.wrapping_add(bytes), ..self }
    }

    /// These counters after a request.
    pub open spec fn requested(self) -> Self {
        ServiceMetrics { total_requests: self.total_requests.wrapping_add(1), ..self }
    }

    /// These counters after an error.
    pub open spec fn failed(self) -> Self {
        ServiceMetrics { total_errors: self.total_errors.wrapping_add(1), ..self }
    }

    /// New counters, all at zero.
    pub fn new() -> (r: Self)
        ensures
            r == ServiceMetrics::zero(),
    {
        ServiceMetrics::default()
    }

    /// Counts a connection as opened.
    pub fn inc_active_connections(&mut self)
        ensures
            *final(self) == old(self).opened(),
    {
        self.active_connections = self.active_connections.wrapping_add(1);
        self.total_connections = self.total_connections.wrapping_add(1);
    }

    /// Counts a connection as closed.
    pub fn dec_active_connections(&mut self)
        ensures
            *final(self) == old(self).closed(),
    {
        self.active_connections = self.active_connections.wrapping_sub(1);
    }

    /// Counts bytes received from clients.
    pub fn add_rx(&mut self, bytes: u64)
        ensures
            *final(self) == old(self).received(bytes),
    {
        self.bytes_rx = self.bytes_rx.wrapping_add(bytes);
    }

    /// Counts bytes sent to clients.
    pub fn add_tx(&mut self, bytes: u64)
        ensures
            *final(self) == old(self).sent(bytes),
    {
        self.bytes_tx = self.bytes_tx.wrapping_add(bytes);
    }

    /// Counts a request.
    pub fn inc_requests(&mut self)
        ensures
            *final(self) == old(self).requested(),
    {
        self.total_requests = self.total_requests.wrapping_add(1);
    }

    /// Counts an error.
    pub fn inc_errors(&mut self)
        ensures
            *final(self) == old(self).failed(),
    {
        self.total_errors = self.total_errors.wrapping_add(1);
    }
}

/// The counters of one service at one moment.
#[derive(Debug, Clone, Copy, PartialEq, Eq, Structural)]
pub struct ServiceMetricsSnapshot {
    pub active_connections: usize,
    pub total_connections: u64,
    pub bytes_rx: u64,
    pub bytes_tx: u64,
    pub total_requests: u64,
    pub total_errors: u64,
}

impl ServiceMetricsSnapshot {
    /// What a snapshot of `m` holds.
    pub open spec fn of(m: ServiceMetrics) -> Self {
        ServiceMetricsSnapshot {
            active_connections: m.active_connections,
            total_connections: m.total_connections,
            bytes_rx: m.bytes_rx,
            bytes_tx: m.bytes_tx,
            total_requests: m.total_requests,
            total_errors: m.total_errors,
        }
    }
}

/// The map that a list of named entries stands for, where no name occurs twice.
pub open spec fn named<T>(entries: Seq<(String, T)>) -> Map<Seq<char>, T>
    decreases entries.len(),
{
    if entries.len() == 0 {
        Map::empty()
    } else {
        named(entries.drop_last()).insert(entries.last().0@, entries.last().1)
    }
}

/// No name occurs twice in a list of named entries.
pub open spec fn names_unique<T>(entries: Seq<(String, T)>) -> bool {
    forall|i: int, j: int|
        0 <= i < j < entries.len() ==> #[trigger] entries[i].0@ != #[trigger] entries[j].0@
}

/// Position `i` of a list without repeated names holds the entry of its name, and the map
/// has no other names than those of the list.
pub proof fn lemma_named<T>(entries: Seq<(String, T)>)
    requires
        names_unique(entries),
    ensures
        forall|i: int|
            0 <= i < entries.len() ==> named(entries).contains_key(#[trigger] entries[i].0@)
                && named(entries)[entries[i].0@] == entries[i].1,
        forall|name: Seq<char>| #[trigger]
            named(entries).contains_key(name) ==> exists|i: int|
                0 <= i < entries.len() && #[trigger] entries[i].0@ == name,
    decreases entries.len(),
{
    if entries.len() > 0 {
        let init = entries.drop_last();
        assert(names_unique(init)) by {
            assert forall|i: int, j: int| 0 <= i < j < init.len() implies #[trigger] init[i].0@
                != #[trigger] init[j].0@ by {
                assert(entries[i].0@ != entries[j].0@);
            }
        }
        lemma_named(init);
        assert forall|i: int| 0 <= i < entries.len() implies named(entries).contains_key(
            #[trigger] entries[i].0@,
        ) && named(entries)[entries[i].0@] == entries[i].1 by {
            if i < entries.len() - 1 {
                assert(init[i] == entries[i]);
                assert(entries[i].0@ != entries[entries.len() - 1].0@);
            }
        }
        assert forall|name: Seq<char>| #[trigger] named(entries).contains_key(name) implies exists|
            i: int,
        |
            0 <= i < entries.len() && #[trigger] entries[i].0@ == name by {
            if name != entries.last().0@ {
                assert(named(init).contains_key(name));
                let i = choose|i: int| 0 <= i < init.len() && #[trigger] init[i].0@ == name;
                assert(entries[i].0@ == name);
            } else {
                assert(entries[entries.len() - 1].0@ == name);
            }
        }
    }
}

/// Writing position `i` of a list without repeated names writes the map under that name.
proof fn lemma_named_update<T>(entries: Seq<(String, T)>, i: int, value: T)
    requires
        names_unique(entries),
        0 <= i < entries.len(),
    ensures
        names_unique(entries.update(i, (entries[i].0, value))),
        named(entries.update(i, (entries[i].0, value))) == named(entries).insert(
            entries[i].0@,
            value,
        ),
{
    let after = entries.update(i, (entries[i].0, value));
    assert(names_unique(after)) by {
        assert forall|a: int, b: int| 0 <= a < b < after.len() implies #[trigger] after[a].0@
            != #[trigger] after[b].0@ by {
            assert(entries[a].0@ != entries[b].0@);
        }
    }
    lemma_named(entries);
    lemma_named(after);
    let expected = named(entries).insert(entries[i].0@, value);
    assert forall|name: Seq<char>| #[trigger] named(after).dom().contains(name) implies
        expected.dom().contains(name) && named(after)[name] == expected[name] by {
        assert(named(after).contains_key(name));
        let k = choose|k: int| 0 <= k < after.len() && #[trigger] after[k].0@ == name;
        assert(entries[k].0@ == name);
    }
    assert forall|name: Seq<char>| #[trigger] expected.dom().contains(name) implies named(
        after,
    ).dom().contains(name) by {
        if name == entries[i].0@ {
            assert(after[i].0@ == name);
        } else {
            assert(named(entries).contains_key(name));
            let k = choose|k: int| 0 <= k < entries.len() && #[trigger] entries[k].0@ == name;
            assert(after[k].0@ == name);
        }
    }
    assert(named(after) =~= expected);
}

/// The counters of the service `name`: all at zero where it is not registered.
pub open spec fn counters(
    metrics: Map<Seq<char>, ServiceMetrics>,
    name: Seq<char>,
) -> ServiceMetrics {
    if metrics.contains_key(name) {
        metrics[name]
    } else {
        ServiceMetrics::zero()
    }
}

/// The counters of all services, by the services' names.
#[derive(Debug)]
pub struct MetricsTracker {
    services: Vec<(String, ServiceMetrics)>,
}

impl View for MetricsTracker {
    type V = Map<Seq<char>, ServiceMetrics>;

    closed spec fn view(&self) -> Map<Seq<char>, ServiceMetrics> {
        named(self.services@)
    }
}

impl MetricsTracker {
    /// No service is registered twice.
    pub closed spec fn wf(&self) -> bool {
        names_unique(self.services@)
    }

    /// The position of the service `name`.
    fn position(&self, name: &str) -> (r: Option<usize>)
        requires
            self.wf(),
        ensures
            match r {
                Some(i) => i < self.services.len() && self.services[i as int].0@ == name@
                    && self@.contains_key(name@) && self@[name@] == self.services[i as int].1,
                None => !self@.contains_key(name@) && forall|i: int|
                    0 <= i < self.services.len() ==> #[trigger] self.services[i].0@ != name@,
            },
    {
        proof {
            lemma_named(self.services@);
        }
        for i in 0..self.services.len()
            invariant
                forall|j: int| 0 <= j < i ==> #[trigger] self.services[j].0@ != name@,
                forall|j: int|
                    0 <= j < self.services.len() ==> self@.contains_key(
                        #[trigger] self.services[j].0@,
                    ) && self@[self.services[j].0@] == self.services[j].1,
        {
            if same_text(self.services[i].0.as_str(), name) {
                return Some(i);
            }
        }
        None
    }

    /// A tracker in which each of `service_names` is registered, all counters at zero.
    pub fn new(service_names: &[String]) -> (r: Self)
        ensures
            r.wf(),
            forall|name: Seq<char>| #[trigger]
                r@.contains_key(name) <==> exists|i: int|
                    0 <= i < service_names@.len() && (#[trigger] service_names@[i])@ == name,
            forall|name: Seq<char>| #[trigger]
                r@.contains_key(name) ==> r@[name] == ServiceMetrics::zero(),
    {
        let mut r = MetricsTracker { services: Vec::new() };
        for i in 0..service_names.len()
            invariant
                r.wf(),
                forall|name: Seq<char>| #[trigger]
                    r@.contains_key(name) <==> exists|j: int|
                        0 <= j < i && (#[trigger] service_names@[j])@ == name,
                forall|name: Seq<char>| #[trigger]
                    r@.contains_key(name) ==> r@[name] == ServiceMetrics::zero(),
        {
            let ghost before = r@;
            let handle = r.get(service_names[i].as_str());
            *handle = ServiceMetrics::new();
            assert forall|name: Seq<char>| #[trigger]
                r@.contains_key(name) implies exists|j: int|
                0 <= j < i + 1 && (#[trigger] service_names@[j])@ == name by {
                if name == service_names@[i as int]@ {
                } else {
                    assert(before.contains_key(name));
                }
            }
        }
        r
    }

    /// The counters of the service `name`, which is registered with all counters at zero
    /// where it was not registered before. What is written to the result is written to the
    /// tracker, under that name and no other.
    pub fn get(&mut self, name: &str) -> (r: &mut ServiceMetrics)
        requires
            old(self).wf(),
        ensures
            final(self).wf(),
            *r == counters(old(self)@, name@),
            final(self)@ == old(self)@.insert(name@, *final(r)),
    {
        let at: usize = match self.position(name) {
            Some(i) => i,
            None => {
                let ghost before = self.services@;
                self.services.push((name.to_string(), ServiceMetrics::new()));
                proof {
                    assert(self.services@.drop_last() =~= before);
                    assert(names_unique(self.services@)) by {
                        assert forall|i: int, j: int|
                            0 <= i < j < self.services@.len() implies #[trigger] self.services@[i].0@
                            != #[trigger] self.services@[j].0@ by {
                            if j == self.services@.len() - 1 {
                                assert(before[i].0@ != name@);
                            } else {
                                assert(before[i].0@ != before[j].0@);
                            }
                        }
                    }
                }
                self.services.len() - 1
            },
        };
        let ghost now = self.services@;
        let ghost earlier = old(self)@;
        proof {
            assert forall|v: ServiceMetrics|
                #![trigger now.update(at as int, (now[at as int].0, v))]
                names_unique(now.update(at as int, (now[at as int].0, v))) && named(
                    now.update(at as int, (now[at as int].0, v)),
                ) == earlier.insert(name@, v) by {
                lemma_named_update(now, at as int, v);
                assert(named(now).insert(name@, v) =~= earlier.insert(name@, v));
            }
        }
        &mut self.services[at].1
    }

    /// The counters of every registered service, each service once.
    pub fn get_all_snapshots(&self) -> (r: Vec<(String, ServiceMetricsSnapshot)>)
        requires
            self.wf(),
        ensures
            names_unique(r@),
            named(r@).dom() == self@.dom(),
            forall|name: Seq<char>| #[trigger]
                self@.contains_key(name) ==> named(r@)[name] == ServiceMetricsSnapshot::of(
                    self@[name],
                ),
    {
        let mut r: Vec<(String, ServiceMetricsSnapshot)> = Vec::new();
        for i in 0..self.services.len()
            invariant
                r.len() == i,
                forall|j: int|
                    0 <= j < i ==> (#[trigger] r[j]).0@ == self.services[j].0@ && r[j].1
                        == ServiceMetricsSnapshot::of(self.services[j].1),
        {
            let entry = &self.services[i];
            let m = &entry.1;
            r.push(
                (
                    entry.0.clone(),
                    ServiceMetricsSnapshot {
                        active_connections: m.active_connections,
                        total_connections: m.total_connections,
                        bytes_rx: m.bytes_rx,
                        bytes_tx: m.bytes_tx,
                        total_requests: m.total_requests,
                        total_errors: m.total_errors,
                    },
                ),
            );
        }
        proof {
            assert forall|i: int, j: int| 0 <= i < j < r@.len() implies #[trigger] r@[i].0@
                != #[trigger] r@[j].0@ by {
                assert(self.services@[i].0@ != self.services@[j].0@);
            }
            lemma_named(r@);
            lemma_named(self.services@);
            assert forall|name: Seq<char>| #[trigger]
                self@.contains_key(name) implies named(r@).contains_key(name) && named(r@)[name]
                == ServiceMetricsSnapshot::of(self@[name]) by {
                let k = choose|k: int|
                    0 <= k < self.services@.len() && #[trigger] self.services@[k].0@ == name;
                assert(r@[k].0@ == name);
            }
            assert forall|name: Seq<char>| #[trigger]
                named(r@).contains_key(name) implies self@.contains_key(name) by {
                let k = choose|k: int| 0 <= k < r@.len() && #[trigger] r@[k].0@ == name;
                assert(self.services@[k].0@ == name);
            }
            assert(named(r@).dom() =~= self@.dom());
        }
        r
    }
}

/// What is done with the counters of one service between getting them and letting go of them.
pub struct Use {
    pub name: Seq<char>,
    pub change: spec_fn(ServiceMetrics) -> ServiceMetrics,
}

/// The counters of all services after they were got and changed one behind the other.
pub open spec fn after_uses(
    metrics: Map<Seq<char>, ServiceMetrics>,
    uses: Seq<Use>,
) -> Map<Seq<char>, ServiceMetrics>
    decreases uses.len(),
{
    if uses.len() == 0 {
        metrics
    } else {
        let before = after_uses(metrics, uses.drop_last());
        let last = uses.last();
        before.insert(last.name, (last.change)(counters(before, last.name)))
    }
}

/// One set of counters after the changes under one name alone.
pub open spec fn changed_under(
    name: Seq<char>,
    uses: Seq<Use>,
    start: ServiceMetrics,
) -> ServiceMetrics
    decreases uses.len(),
{
    if uses.len() == 0 {
        start
    } else if uses.last().name == name {
        (uses.last().change)(changed_under(name, uses.drop_last(), start))
    } else {
        changed_under(name, uses.drop_last(), start)
    }
}

/// A name has one set of counters for good: however often the counters of services are got and
/// changed, what is read under a name is what was there at first, changed by all that was done
/// under that name, in order, and by nothing that was done under another. A name is known where
/// it was known at first or its counters were got.
pub proof fn law_a_name_has_one_set_of_counters(
    metrics: Map<Seq<char>, ServiceMetrics>,
    uses: Seq<Use>,
    name: Seq<char>,
)
    ensures
        counters(after_uses(metrics, uses), name) == changed_under(
            name,
            uses,
            counters(metrics, name),
        ),
        after_uses(metrics, uses).contains_key(name) <==> metrics.contains_key(name) || exists|
            k: int,
        |
            0 <= k < uses.len() && (#[trigger] uses[k]).name == name,
    decreases uses.len(),
{
    if uses.len() > 0 {
        let init = uses.drop_last();
        law_a_name_has_one_set_of_counters(metrics, init, name);
        if exists|k: int| 0 <= k < init.len() && (#[trigger] init[k]).name == name {
            let k = choose|k: int| 0 <= k < init.len() && (#[trigger] init[k]).name == name;
            assert(uses[k].name == name);
        }
        if exists|k: int| 0 <= k < uses.len() && (#[trigger] uses[k]).name == name {
            let k = choose|k: int| 0 <= k < uses.len() && (#[trigger] uses[k]).name == name;
            if k < init.len() {
                assert(init[k].name == name);
            }
        }
        assert(uses[uses.len() - 1] == uses.last());
    }
}

} // verus!
