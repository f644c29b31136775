//! Choice of a backend, with a circuit breaker for each of them.
use crate::clock::{Clock, MAX_SPAN};
use crate::config::{opt_text, texts, LoadBalanceMode};
use crate::middleware::{ConnectionContext, Middleware};
use crate::text::same_text;
use rand::Rng;
use vstd::prelude::*;

verus! {

/// How many failures in a row trip a breaker.
pub const MAX_FAILURES: u32 = 3;

/// How long a tripped breaker keeps its backend out, in nanoseconds: ten seconds.
pub const COOLDOWN: u128 = 10_000_000_000;

/// The state of a circuit breaker. Points in time are readings of the node's clock.
#[derive(Debug, Clone, Copy, PartialEq, Eq, Structural)]
pub enum BreakerState {
    /// The backend is healthy.
    Closed,
    /// The backend is kept out until `until`.
    Open { until: u128 },
    /// The backend is tried again.
    HalfOpen,
}

impl BreakerState {
    /// Whether a backend with a breaker in this state may be chosen at `now`.
    pub open spec fn available(self, now: u128) -> bool {
        match self {
            BreakerState::Closed => true,
            BreakerState::HalfOpen => true,
            BreakerState::Open { until } => now >= until,
        }
    }

    /// The state after the breaker was asked at `now` whether it lets requests through.
    pub open spec fn probed(self, now: u128) -> BreakerState {
        if self is Open && self.available(now) {
            BreakerState::HalfOpen
        } else {
            self
        }
    }

    /// The state after a request succeeded.
    pub open spec fn after_success(self) -> BreakerState {
        if self is HalfOpen {
            BreakerState::Closed
        } else {
            self
        }
    }
}

/// What a backend node stands for.
pub struct NodeView {
    pub address: Seq<char>,
    pub state: BreakerState,
    pub failures: u32,
}

impl NodeView {
    /// A node that nothing is known of yet.
    pub open spec fn fresh(address: Seq<char>) -> Self {
        NodeView { address, state: BreakerState::Closed, failures: 0 }
    }

    /// Whether the node may be chosen at `now`.
    pub open spec fn available(self, now: u128) -> bool {
        self.state.available(now)
    }

    /// The node after it was asked at `now` whether it is available.
    pub open spec fn probed(self, now: u128) -> Self {
        NodeView { state: self.state.probed(now), ..self }
    }

    /// The node after a request to it succeeded.
    pub open spec fn succeeded(self) -> Self {
        NodeView { state: self.state.after_success(), failures: 0, ..self }
    }

    /// The node after a request to it failed at `now`: one more failure in a row, and once
    /// there are `max_failures` of them the node is kept out for `cooldown`.
    pub open spec fn failed(self, max_failures: u32, cooldown: u128, now: u128) -> Self {
        let failures = self.failures.wrapping_add(1);
        NodeView {
            state: if failures >= max_failures {
                BreakerState::Open { until: (now + cooldown) as u128 }
            } else {
                self.state
            },
            failures,
            ..self
        }
    }
}

/// A backend and its circuit breaker.
#[derive(Debug)]
pub struct BackendNode {
    pub address: String,
    pub state: BreakerState,
    pub consecutive_failures: u32,
    pub clock: Clock,
}

impl View for BackendNode {
    type V = NodeView;

    open spec fn view(&self) -> NodeView {
        NodeView {
            address: self.address@,
            state: self.state,
            failures: self.consecutive_failures,
        }
    }
}

impl BackendNode {
    /// A healthy node with a clock of its own.
    pub fn new(address: String) -> (r: Self)
        ensures
            r@ == NodeView::fresh(address@),
    {
        BackendNode::with_clock(address, Clock::start())
    }

    /// A healthy node that reads the given clock.
    pub fn with_clock(address: String, clock: Clock) -> (r: Self)
        ensures
            r@ == NodeView::fresh(address@),
            r.clock == clock,
    {
        BackendNode { address, state: BreakerState::Closed, consecutive_failures: 0, clock }
    }

    /// Whether the node may be chosen at `now`. A node whose time out is over is tried again
    /// from now on.
    pub fn is_available_at(&mut self, now: u128) -> (r: bool)
        ensures
            r == old(self)@.available(now),
            final(self)@ == old(self)@.probed(now),
            final(self).clock == old(self).clock,
    {
        match self.state {
            BreakerState::Closed => true,
            BreakerState::HalfOpen => true,
            BreakerState::Open { until } => {
                if now >= until {
                    self.state = BreakerState::HalfOpen;
                    true
                } else {
                    false
                }
            },
        }
    }

    /// Whether the node may be chosen now, by its clock.
    pub fn is_available(&mut self) -> (r: bool)
        ensures
            exists|now: u128|
                old(self).clock.shows(now) && r == #[trigger] old(self)@.available(now)
                    && final(self)@
                    == old(self)@.probed(now),
            !(old(self).state is Open) ==> r,
            final(self).clock == old(self).clock,
    {
        let now = self.clock.read();
        let r = self.is_available_at(now);
        assert(r == old(self)@.available(now));
        r
    }

    /// Records that a request to the node succeeded.
    pub fn record_success(&mut self)
        ensures
            final(self)@ == old(self)@.succeeded(),
            final(self).clock == old(self).clock,
    {
        self.consecutive_failures = 0;
        if self.state == BreakerState::HalfOpen {
            self.state = BreakerState::Closed;
        }
    }

    /// Records that a request to the node failed at `now`.
    pub fn record_failure_at(&mut self, max_failures: u32, cooldown: u128, now: u128)
        requires
            cooldown <= MAX_SPAN,
            now <= MAX_SPAN,
        ensures
            final(self)@ == old(self)@.failed(max_failures, cooldown, now),
            final(self).clock == old(self).clock,
    {
        let fails = self.consecutive_failures.wrapping_add(1);
        self.consecutive_failures = fails;
        if fails >= max_failures {
            self.state = BreakerState::Open { until: now + cooldown };
        }
    }

    /// Records that a request to the node failed now, by its clock. `cooldown` is in
    /// nanoseconds.
    pub fn record_failure(&mut self, max_failures: u32, cooldown: u128)
        requires
            cooldown <= MAX_SPAN,
        ensures
            exists|now: u128|
                old(self).clock.shows(now) && final(self)@ == #[trigger] old(self)@.failed(
                    max_failures,
                    cooldown,
                    now,
                ),
            final(self).clock == old(self).clock,
    {
        let now = self.clock.read();
        self.record_failure_at(max_failures, cooldown, now);
        assert(final(self)@ == old(self)@.failed(max_failures, cooldown, now));
    }
}

/// `x` counted in a `usize` that starts again at zero behind its largest value.
pub open spec fn wrapped(x: int) -> usize {
    if 0 <= x <= usize::MAX {
        x as usize
    } else {
        (x % (usize::MAX + 1)) as usize
    }
}

/// What a load balancer stands for.
#[verifier::ext_equal]
pub struct BalancerView {
    pub nodes: Seq<NodeView>,
    pub mode: LoadBalanceMode,
    pub counter: usize,
}

impl BalancerView {
    /// The node that the choice looks at in step `k` when it goes round.
    pub open spec fn slot(self, k: int) -> int {
        wrapped(self.counter + k) as int % self.nodes.len() as int
    }

    /// The first step at or after `from` in which an available node is looked at; the number
    /// of nodes where there is none.
    pub open spec fn first_hit(self, now: u128, from: nat) -> nat
        decreases self.nodes.len() - from,
    {
        if from >= self.nodes.len() {
            self.nodes.len()
        } else if self.nodes[self.slot(from as int)].available(now) {
            from
        } else {
            self.first_hit(now, from + 1)
        }
    }

    /// The positions below `n` of the nodes that are available, in order.
    pub open spec fn available_below(self, now: u128, n: nat) -> Seq<int>
        decreases n,
    {
        if n == 0 {
            Seq::empty()
        } else if self.nodes[n - 1].available(now) {
            self.available_below(now, (n - 1) as nat).push(n - 1)
        } else {
            self.available_below(now, (n - 1) as nat)
        }
    }

    /// The positions of the nodes that are available, in order.
    pub open spec fn available_nodes(self, now: u128) -> Seq<int> {
        self.available_below(now, self.nodes.len())
    }

    /// Whether `draw` can be drawn where a node is chosen at random.
    pub open spec fn drawable(self, now: u128, draw: usize) -> bool {
        self.mode is Random && self.available_nodes(now).len() > 0 ==> draw
            < self.available_nodes(now).len()
    }

    /// The position of the node that is chosen at `now`, when `draw` was drawn.
    pub open spec fn choice(self, now: u128, draw: usize) -> Option<int> {
        match self.mode {
            LoadBalanceMode::RoundRobin => if self.first_hit(now, 0) < self.nodes.len() {
                Some(self.slot(self.first_hit(now, 0) as int))
            } else {
                None
            },
            LoadBalanceMode::Random => if self.available_nodes(now).len() > 0 {
                Some(self.available_nodes(now)[draw as int])
            } else {
                None
            },
        }
    }

    /// The address of the node that is chosen at `now`, when `draw` was drawn.
    pub open spec fn chosen(self, now: u128, draw: usize) -> Option<Seq<char>> {
        match self.choice(now, draw) {
            Some(i) => Some(self.nodes[i].address),
            None => None,
        }
    }

    /// The balancer after a choice at `now`. Going round, the counter has moved on by one for
    /// each node that was looked at, and the chosen node was probed; at random, every node was
    /// probed.
    pub open spec fn after_choice(self, now: u128) -> Self {
        let n = self.nodes.len();
        match self.mode {
            LoadBalanceMode::RoundRobin => {
                let hit = self.first_hit(now, 0);
                if hit < n {
                    let i = self.slot(hit as int);
                    BalancerView {
                        nodes: self.nodes.update(i, self.nodes[i].probed(now)),
                        counter: wrapped(self.counter + hit + 1),
                        ..self
                    }
                } else {
                    BalancerView { counter: wrapped(self.counter + n), ..self }
                }
            },
            LoadBalanceMode::Random => BalancerView {
                nodes: self.nodes.map_values(|node: NodeView| node.probed(now)),
                ..self
            },
        }
    }

    /// The position at or after `from` of the first node with the given address; the number
    /// of nodes where there is none.
    pub open spec fn find(self, address: Seq<char>, from: nat) -> nat
        decreases self.nodes.len() - from,
    {
        if from >= self.nodes.len() {
            self.nodes.len()
        } else if self.nodes[from as int].address == address {
            from
        } else {
            self.find(address, from + 1)
        }
    }

    /// The balancer with the first node of the given address replaced by `node`; unchanged
    /// where no node has the address.
    pub open spec fn with_node(self, address: Seq<char>, node: NodeView) -> Self {
        let i = self.find(address, 0);
        if i < self.nodes.len() {
            BalancerView { nodes: self.nodes.update(i as int, node), ..self }
        } else {
            self
        }
    }

    /// The balancer after a request to `address` succeeded.
    pub open spec fn succeeded(self, address: Seq<char>) -> Self {
        self.with_node(address, self.nodes[self.find(address, 0) as int].succeeded())
    }

    /// The balancer after a request to `address` failed at `now`.
    pub open spec fn failed(self, address: Seq<char>, now: u128) -> Self {
        self.with_node(
            address,
            self.nodes[self.find(address, 0) as int].failed(MAX_FAILURES, COOLDOWN, now),
        )
    }
}

/// Healthy nodes with the given addresses.
pub open spec fn fresh_nodes(addresses: Seq<Seq<char>>) -> Seq<NodeView> {
    addresses.map_values(|a: Seq<char>| NodeView::fresh(a))
}

/// Trusted: `Rng::gen_range` of the `rand` crate on the generator of the thread, with the
/// range from zero up to `n`. Claimed is only that the number lies in the range; it is a
/// matter of chance which.
#[verifier::external_body]
fn random_below(n: usize) -> (r: usize)
    requires
        n > 0,
    ensures
        r < n,
{
    rand::thread_rng().gen_range(0..n)
}

proof fn lemma_wrapped_step(x: int)
    requires
        0 <= x,
    ensures
        wrapped(x).wrapping_add(1) == wrapped(x + 1),
{
    let m = usize::MAX + 1;
    vstd::arithmetic::div_mod::lemma_add_mod_noop(x, 1, m);
    vstd::arithmetic::div_mod::lemma_small_mod(1, m as nat);
    if x % m + 1 < m {
        vstd::arithmetic::div_mod::lemma_small_mod((x % m + 1) as nat, m as nat);
    } else {
        vstd::arithmetic::div_mod::lemma_mod_self_0(m);
    }
}

/// The positions of available nodes are those of the nodes that are available, each once and
/// in order.
pub proof fn lemma_available_below(view: BalancerView, now: u128, n: nat)
    requires
        n <= view.nodes.len(),
    ensures
        view.available_below(now, n).len() <= n,
        forall|j: int|
            0 <= j < view.available_below(now, n).len() ==> 0 <= #[trigger] view.available_below(
                now,
                n,
            )[j] < n && view.nodes[view.available_below(now, n)[j]].available(now),
        forall|i: int|
            0 <= i < n && view.nodes[i].available(now)
                ==> #[trigger] view.available_below(now, n).contains(i),
        forall|j: int, k: int|
            0 <= j < k < view.available_below(now, n).len() ==> #[trigger] view.available_below(
                now,
                n,
            )[j] < #[trigger] view.available_below(now, n)[k],
    decreases n,
{
    if n > 0 {
        let m = (n - 1) as nat;
        lemma_available_below(view, now, m);
        let shorter = view.available_below(now, m);
        let longer = view.available_below(now, n);
        assert forall|i: int|
            0 <= i < n && view.nodes[i].available(now) implies #[trigger] longer.contains(i) by {
            if i < m {
                assert(shorter.contains(i));
                let j = shorter.index_of(i);
                assert(longer[j] == i);
            } else {
                assert(longer[longer.len() - 1] == i);
            }
        }
    }
}

/// The first hit is available, and nothing before it is.
pub proof fn lemma_first_hit(view: BalancerView, now: u128, from: nat)
    requires
        from <= view.nodes.len(),
    ensures
        from <= view.first_hit(now, from) <= view.nodes.len(),
        view.first_hit(now, from) < view.nodes.len() ==> view.nodes[view.slot(
            view.first_hit(now, from) as int,
        )].available(now),
        forall|k: int|
            from <= k < view.first_hit(now, from) ==> !view.nodes[#[trigger] view.slot(
                k,
            )].available(now),
    decreases view.nodes.len() - from,
{
    if from < view.nodes.len() && !view.nodes[view.slot(from as int)].available(now) {
        lemma_first_hit(view, now, from + 1);
    }
}

/// The first node of an address has the address, and nothing before it does.
pub proof fn lemma_find(view: BalancerView, address: Seq<char>, from: nat)
    requires
        from <= view.nodes.len(),
    ensures
        from <= view.find(address, from) <= view.nodes.len(),
        view.find(address, from) < view.nodes.len() ==> view.nodes[view.find(
            address,
            from,
        ) as int].address == address,
        forall|k: int|
            from <= k < view.find(address, from) ==> (#[trigger] view.nodes[k]).address != address,
    decreases view.nodes.len() - from,
{
    if from < view.nodes.len() && view.nodes[from as int].address != address {
        lemma_find(view, address, from + 1);
    }
}

/// Whether going round the nodes once from here looks at all of them: the counter does not
/// start again at zero on the way, or starts again where a round ends.
pub open spec fn full_round(view: BalancerView) -> bool {
    ||| view.counter + view.nodes.len() <= usize::MAX + 1
    ||| (usize::MAX + 1) % (view.nodes.len() as int) == 0
}

/// No breaker is open.
pub open spec fn healthy(view: BalancerView) -> bool {
    forall|i: int| 0 <= i < view.nodes.len() ==> !((#[trigger] view.nodes[i]).state is Open)
}

/// The balancer after one choice at each of the given times.
pub open spec fn after_choices(view: BalancerView, times: Seq<u128>) -> BalancerView
    decreases times.len(),
{
    if times.len() == 0 {
        view
    } else {
        after_choices(view, times.drop_last()).after_choice(times.last())
    }
}

/// The step in which going round looks at node `i`.
pub open spec fn step_of(view: BalancerView, i: int) -> int {
    (i - view.counter as int) % (view.nodes.len() as int)
}

/// In a full round the node of step `k` is the one `k` places behind the counter.
proof fn lemma_slot(view: BalancerView, k: int)
    requires
        full_round(view),
        0 <= k < view.nodes.len(),
    ensures
        view.slot(k) == (view.counter + k) % (view.nodes.len() as int),
{
    let n = view.nodes.len() as int;
    let c = view.counter as int;
    let m = usize::MAX + 1;
    if c + n > m {
        vstd::arithmetic::div_mod::lemma_fundamental_div_mod(m, n);
        let q = m / n;
        assert(q > 0) by (nonlinear_arith)
            requires
                m == n * q,
                m > 0,
                n > 0,
        ;
        vstd::arithmetic::div_mod::lemma_mod_mod(c + k, n, q);
    }
}

/// A full round looks at each node in exactly one step.
pub proof fn law_round_visits_each_once(view: BalancerView, i: int)
    requires
        full_round(view),
        0 <= i < view.nodes.len(),
    ensures
        0 <= step_of(view, i) < view.nodes.len(),
        view.slot(step_of(view, i)) == i,
        forall|k: int| 0 <= k < view.nodes.len() && #[trigger] view.slot(k) == i ==> k == step_of(
            view,
            i,
        ),
{
    let n = view.nodes.len() as int;
    let c = view.counter as int;
    let s = step_of(view, i);
    assert(0 <= s < n) by {
        vstd::arithmetic::div_mod::lemma_mod_bound(i - c, n);
    }
    assert((c + s) % n == i) by {
        vstd::arithmetic::div_mod::lemma_add_mod_noop_right(c, i - c, n);
        vstd::arithmetic::div_mod::lemma_small_mod(i as nat, n as nat);
    }
    lemma_slot(view, s);
    assert forall|k: int| 0 <= k < n && #[trigger] view.slot(k) == i implies k == s by {
        lemma_slot(view, k);
        vstd::arithmetic::div_mod::lemma_mod_equivalence(c + k, c + s, n);
        assert((c + k) - (c + s) == k - s);
        assert((k - s) % n == 0);
        assert(k == s) by (nonlinear_arith)
            requires
                (k - s) % n == 0,
                -n < k - s < n,
                n > 0,
        ;
    }
}

/// A node that is chosen is available, so a tripped node is never chosen before its time out
/// is over; and there is no choice only where no node is available, provided that going round
/// looks at all of them.
pub proof fn law_choice_is_available(view: BalancerView, now: u128, draw: usize)
    requires
        view.drawable(now, draw),
    ensures
        match view.choice(now, draw) {
            Some(i) => 0 <= i < view.nodes.len() && view.nodes[i].available(now),
            None => (view.mode is RoundRobin ==> full_round(view)) ==> forall|i: int|
                0 <= i < view.nodes.len() ==> !(#[trigger] view.nodes[i]).available(now),
        },
{
    match view.mode {
        LoadBalanceMode::RoundRobin => {
            lemma_first_hit(view, now, 0);
            if view.first_hit(now, 0) < view.nodes.len() {
                vstd::arithmetic::div_mod::lemma_mod_bound(
                    wrapped(view.counter + view.first_hit(now, 0)) as int,
                    view.nodes.len() as int,
                );
            } else if full_round(view) {
                assert forall|i: int| 0 <= i < view.nodes.len() implies !(
                #[trigger] view.nodes[i]).available(now) by {
                    law_round_visits_each_once(view, i);
                    let k = step_of(view, i);
                    assert(!view.nodes[view.slot(k)].available(now));
                }
            }
        },
        LoadBalanceMode::Random => {
            lemma_available_below(view, now, view.nodes.len());
            if view.available_nodes(now).len() == 0 {
                assert forall|i: int| 0 <= i < view.nodes.len() implies !(
                #[trigger] view.nodes[i]).available(now) by {
                    assert(!view.available_nodes(now).contains(i));
                }
            }
        },
    }
}

/// Where no breaker is open, a balancer that goes round chooses the node at the counter and
/// moves on by one; nothing else changes.
pub proof fn law_round_robin_turn(view: BalancerView, now: u128)
    requires
        view.mode is RoundRobin,
        view.nodes.len() > 0,
        healthy(view),
    ensures
        view.choice(now, 0) == Some(view.counter as int % view.nodes.len() as int),
        view.after_choice(now) == (BalancerView { counter: view.counter.wrapping_add(1), ..view }),
{
    let n = view.nodes.len() as int;
    lemma_wrapped_step(view.counter as int);
    vstd::arithmetic::div_mod::lemma_mod_bound(view.counter as int, n);
    let i = view.slot(0);
    assert(0 <= i < n);
    assert(!(view.nodes[i].state is Open));
    assert(view.first_hit(now, 0) == 0);
    assert(view.nodes[i].probed(now) == view.nodes[i]);
    assert(view.after_choice(now).nodes =~= view.nodes);
}

/// Choices that follow one another go through the nodes in turn: where no breaker is open,
/// choice number `times.len()` from here is the node that many steps further round.
pub proof fn law_round_robin_in_turn(view: BalancerView, times: Seq<u128>, now: u128)
    requires
        view.mode is RoundRobin,
        view.nodes.len() > 0,
        healthy(view),
    ensures
        after_choices(view, times) == (BalancerView {
            counter: wrapped(view.counter + times.len()),
            ..view
        }),
        after_choices(view, times).choice(now, 0) == Some(view.slot(times.len() as int)),
    decreases times.len(),
{
    if times.len() > 0 {
        law_round_robin_in_turn(view, times.drop_last(), times.last());
        law_round_robin_turn(after_choices(view, times.drop_last()), times.last());
        lemma_wrapped_step(view.counter + times.len() - 1);
    }
    law_round_robin_turn(after_choices(view, times), now);
}

/// As many choices as there are nodes choose each node exactly once, where no breaker is open:
/// of the choices that a round makes at `times`, the one that falls on node `i` is number
/// `step_of(view, i)` and no other.
pub proof fn law_each_backend_gets_one_turn(
    view: BalancerView,
    times: Seq<u128>,
    i: int,
    k: int,
)
    requires
        view.mode is RoundRobin,
        healthy(view),
        full_round(view),
        0 <= i < view.nodes.len(),
        times.len() == view.nodes.len(),
        0 <= k < times.len(),
    ensures
        after_choices(view, times.take(k)).choice(times[k], 0) == Some(i) <==> k == step_of(
            view,
            i,
        ),
{
    law_round_robin_in_turn(view, times.take(k), times[k]);
    law_round_visits_each_once(view, i);
}

/// A healthy node is kept out by the third failure in a row, until ten seconds have passed
/// since then, and not by the first two.
pub proof fn law_third_failure_trips(
    address: Seq<char>,
    first: u128,
    second: u128,
    third: u128,
    now: u128,
)
    requires
        third <= MAX_SPAN,
    ensures
        ({
            let one = NodeView::fresh(address).failed(MAX_FAILURES, COOLDOWN, first);
            let two = one.failed(MAX_FAILURES, COOLDOWN, second);
            let three = two.failed(MAX_FAILURES, COOLDOWN, third);
            &&& one.available(now)
            &&& two.available(now)
            &&& three.available(now) == (now >= third + COOLDOWN)
        }),
{
}

/// Two balancers with the same addresses find the same node for an address.
proof fn lemma_find_by_addresses(
    view: BalancerView,
    other: BalancerView,
    address: Seq<char>,
    from: nat,
)
    requires
        view.nodes.len() == other.nodes.len(),
        forall|k: int|
            0 <= k < view.nodes.len() ==> (#[trigger] view.nodes[k]).address
                == other.nodes[k].address,
    ensures
        view.find(address, from) == other.find(address, from),
    decreases view.nodes.len() - from,
{
    if from < view.nodes.len() {
        assert(view.nodes[from as int].address == other.nodes[from as int].address);
        lemma_find_by_addresses(view, other, address, from + 1);
    }
}

/// A failure is recorded with the first node of its address.
proof fn lemma_failed(view: BalancerView, address: Seq<char>, now: u128)
    requires
        view.find(address, 0) < view.nodes.len(),
    ensures
        view.failed(address, now).find(address, 0) == view.find(address, 0),
        view.failed(address, now).nodes.len() == view.nodes.len(),
        view.failed(address, now).nodes[view.find(address, 0) as int]
            == view.nodes[view.find(address, 0) as int].failed(MAX_FAILURES, COOLDOWN, now),
{
    lemma_find(view, address, 0);
    lemma_find_by_addresses(view, view.failed(address, now), address, 0);
}

/// A backend that has failed three times in a row is not chosen before ten seconds have passed
/// since then, whatever state it was in before.
pub proof fn law_three_failures_keep_a_backend_out(
    view: BalancerView,
    address: Seq<char>,
    first: u128,
    second: u128,
    third: u128,
    now: u128,
    draw: usize,
)
    requires
        view.find(address, 0) < view.nodes.len(),
        view.nodes[view.find(address, 0) as int].failures + 3 <= u32::MAX,
        third <= MAX_SPAN,
        now < third + COOLDOWN,
        view.failed(address, first).failed(address, second).failed(address, third).drawable(
            now,
            draw,
        ),
    ensures
        view.failed(address, first).failed(address, second).failed(address, third).choice(now, draw)
            != Some(view.find(address, 0) as int),
{
    let one = view.failed(address, first);
    let two = one.failed(address, second);
    let three = two.failed(address, third);
    lemma_failed(view, address, first);
    lemma_failed(one, address, second);
    lemma_failed(two, address, third);
    law_choice_is_available(three, now, draw);
}

/// A node whose time out is over is tried again: it is available, half open from then on, and
/// a success restores it to the state of a new node.
pub proof fn law_recovery(node: NodeView, until: u128, now: u128)
    requires
        node.state == (BreakerState::Open { until }),
        now >= until,
    ensures
        node.available(now),
        node.probed(now).state is HalfOpen,
        node.probed(now).succeeded() == NodeView::fresh(node.address),
{
}

/// A node that was tripped and is tried again is kept out anew by the next failure.
pub proof fn law_failed_trial_trips_again(node: NodeView, until: u128, now: u128, later: u128)
    requires
        node.state == (BreakerState::Open { until }),
        MAX_FAILURES <= node.failures + 1 <= u32::MAX,
        until <= now,
        later <= MAX_SPAN,
    ensures
        node.probed(now).failed(MAX_FAILURES, COOLDOWN, later).state == (BreakerState::Open {
            until: (later + COOLDOWN) as u128,
        }),
{
}

/// A success alone does not let a tripped node back in.
pub proof fn law_success_leaves_tripped(node: NodeView, until: u128)
    requires
        node.state == (BreakerState::Open { until }),
    ensures
        node.succeeded().state == node.state,
{
}

/// What is recorded for one address leaves the nodes of every other address as they were.
pub proof fn law_records_stay_with_address(
    view: BalancerView,
    address: Seq<char>,
    now: u128,
    i: int,
)
    requires
        0 <= i < view.nodes.len(),
        view.nodes[i].address != address,
    ensures
        view.succeeded(address).nodes[i] == view.nodes[i],
        view.failed(address, now).nodes[i] == view.nodes[i],
{
    lemma_find(view, address, 0);
}

/// What is recorded for an address that no node has changes nothing.
pub proof fn law_unknown_address_changes_nothing(
    view: BalancerView,
    address: Seq<char>,
    now: u128,
)
    requires
        forall|k: int|
            0 <= k < view.nodes.len() ==> (#[trigger] view.nodes[k]).address != address,
    ensures
        view.succeeded(address) == view,
        view.failed(address, now) == view,
{
    lemma_find(view, address, 0);
}

/// The backends of a service, and the choice among them.
#[derive(Debug)]
pub struct LoadBalancer {
    pub nodes: Vec<BackendNode>,
    pub mode: LoadBalanceMode,
    pub counter: usize,
    pub clock: Clock,
}

impl View for LoadBalancer {
    type V = BalancerView;

    open spec fn view(&self) -> BalancerView {
        BalancerView {
            nodes: self.nodes@.map_values(|n: BackendNode| n@),
            mode: self.mode,
            counter: self.counter,
        }
    }
}

impl LoadBalancer {
    /// All nodes read the clock of the balancer.
    pub open spec fn wf(&self) -> bool {
        forall|i: int| 0 <= i < self.nodes@.len() ==> (#[trigger] self.nodes@[i]).clock == self.clock
    }

    /// A balancer over healthy nodes.
    pub fn new(backends: Vec<String>, mode: LoadBalanceMode) -> (r: Self)
        ensures
            r.wf(),
            r@ == (BalancerView { nodes: fresh_nodes(texts(backends@)), mode, counter: 0 }),
    {
        let clock = Clock::start();
        let nodes = LoadBalancer::make_nodes(backends, clock);
        let r = LoadBalancer { nodes, mode, counter: 0, clock };
        assert(r@.nodes =~= fresh_nodes(texts(backends@)));
        r
    }

    fn make_nodes(backends: Vec<String>, clock: Clock) -> (r: Vec<BackendNode>)
        ensures
            r.len() == backends.len(),
            forall|i: int|
                0 <= i < r.len() ==> (#[trigger] r[i])@ == NodeView::fresh(backends[i]@)
                    && r[i].clock == clock,
    {
        let mut r: Vec<BackendNode> = Vec::new();
        for i in 0..backends.len()
            invariant
                r.len() == i,
                forall|j: int|
                    0 <= j < r.len() ==> (#[trigger] r[j])@ == NodeView::fresh(backends[j]@)
                        && r[j].clock == clock,
        {
            r.push(BackendNode::with_clock(backends[i].clone(), clock));
        }
        r
    }

    /// How many nodes are available at `now`.
    pub fn count_available(&self, now: u128) -> (r: usize)
        ensures
            r == self@.available_nodes(now).len(),
    {
        let mut r: usize = 0;
        for i in 0..self.nodes.len()
            invariant
                r == self@.available_below(now, i as nat).len(),
                r <= i,
        {
            let available = match self.nodes[i].state {
                BreakerState::Open { until } => now >= until,
                _ => true,
            };
            assert(self@.nodes[i as int] == self.nodes@[i as int]@);
            if available {
                r = r + 1;
            }
        }
        r
    }

    /// Chooses a backend at `now`, where `draw` was drawn below the number of available nodes.
    /// Tripped nodes are passed over; there is no choice where all are tripped.
    pub fn select_at(&mut self, now: u128, draw: usize) -> (r: Option<String>)
        requires
            old(self).wf(),
            old(self)@.drawable(now, draw),
        ensures
            final(self).wf(),
            opt_text(r) == old(self)@.chosen(now, draw),
            final(self)@ == old(self)@.after_choice(now),
            final(self).clock == old(self).clock,
    {
        match self.mode {
            LoadBalanceMode::RoundRobin => self.select_round_robin(now),
            LoadBalanceMode::Random => self.select_drawn(now, draw),
        }
    }

    fn select_round_robin(&mut self, now: u128) -> (r: Option<String>)
        requires
            old(self).wf(),
            old(self).mode == LoadBalanceMode::RoundRobin,
        ensures
            final(self).wf(),
            opt_text(r) == old(self)@.chosen(now, 0),
            final(self)@ == old(self)@.after_choice(now),
            final(self).clock == old(self).clock,
    {
        let ghost before = self@;
        let len = self.nodes.len();
        let mut k: usize = 0;
        while k < len
            invariant
                k <= len,
                len == self.nodes.len(),
                self.wf(),
                self.mode == LoadBalanceMode::RoundRobin,
                self.clock == old(self).clock,
                before == old(self)@,
                before.mode == self.mode,
                self@.nodes == before.nodes,
                before.nodes.len() == len,
                self.counter == wrapped(before.counter + k),
                before.first_hit(now, 0) == before.first_hit(now, k as nat),
            decreases len - k,
        {
            let idx = self.counter;
            self.counter = self.counter.wrapping_add(1);
            proof {
                lemma_wrapped_step(before.counter + k);
            }
            let at = idx % len;
            let ghost here = self.nodes@;
            assert(at == before.slot(k as int));
            assert(before.nodes[at as int] == here[at as int]@);
            if self.nodes[at].is_available_at(now) {
                let address = self.nodes[at].address.clone();
                proof {
                    assert(before.first_hit(now, k as nat) == k);
                    assert(address@ == before.nodes[at as int].address);
                    assert(self@.nodes =~= before.nodes.update(
                        at as int,
                        before.nodes[at as int].probed(now),
                    ));
                }
                return Some(address);
            }
            proof {
                assert(here[at as int]@.probed(now) == here[at as int]@);
                assert(self@.nodes =~= before.nodes);
            }
            k = k + 1;
        }
        None
    }

    fn select_drawn(&mut self, now: u128, draw: usize) -> (r: Option<String>)
        requires
            old(self).wf(),
            old(self).mode == LoadBalanceMode::Random,
            old(self)@.drawable(now, draw),
        ensures
            final(self).wf(),
            opt_text(r) == old(self)@.chosen(now, draw),
            final(self)@ == old(self)@.after_choice(now),
            final(self).clock == old(self).clock,
    {
        let ghost before = self@;
        let mut available: Vec<usize> = Vec::new();
        let len = self.nodes.len();
        let mut i: usize = 0;
        while i < len
            invariant
                i <= len,
                len == self.nodes.len(),
                before.nodes.len() == len,
                self.wf(),
                self.mode == LoadBalanceMode::Random,
                before.mode == self.mode,
                before.counter == self.counter,
                self.clock == old(self).clock,
                forall|j: int|
                    0 <= j < i ==> (#[trigger] self.nodes@[j])@ == before.nodes[j].probed(now),
                forall|j: int| i <= j < len ==> (#[trigger] self.nodes@[j])@ == before.nodes[j],
                available.len() == before.available_below(now, i as nat).len(),
                forall|j: int|
                    0 <= j < available.len() ==> #[trigger] available[j]
                        == before.available_below(now, i as nat)[j],
            decreases len - i,
        {
            if self.nodes[i].is_available_at(now) {
                available.push(i);
            }
            i = i + 1;
        }
        assert(self@.nodes =~= before.nodes.map_values(|node: NodeView| node.probed(now)));
        if available.is_empty() {
            return None;
        }
        proof {
            lemma_available_below(before, now, before.nodes.len());
            assert(before.available_nodes(now)[draw as int] == available[draw as int]);
        }
        let at = available[draw];
        let address = self.nodes[at].address.clone();
        assert(self.nodes@[at as int]@.address == before.nodes[at as int].address);
        Some(address)
    }

    /// Chooses a backend now. Tripped nodes are passed over; there is no choice where all are
    /// tripped.
    pub fn select(&mut self) -> (r: Option<String>)
        requires
            old(self).wf(),
        ensures
            final(self).wf(),
            exists|now: u128, draw: usize|
                old(self).clock.shows(now) && old(self)@.drawable(now, draw) && opt_text(r)
                    == #[trigger] old(self)@.chosen(now, draw) && final(self)@
                    == old(self)@.after_choice(now),
            final(self).clock == old(self).clock,
    {
        let now = self.clock.read();
        let draw: usize = match self.mode {
            LoadBalanceMode::RoundRobin => 0,
            LoadBalanceMode::Random => {
                let count = self.count_available(now);
                if count > 0 {
                    random_below(count)
                } else {
                    0
                }
            },
        };
        let r = self.select_at(now, draw);
        assert(opt_text(r) == old(self)@.chosen(now, draw));
        r
    }

    fn position(&self, address: &str) -> (r: usize)
        ensures
            r == self@.find(address@, 0),
            r <= self.nodes.len(),
    {
        let mut i: usize = 0;
        while i < self.nodes.len()
            invariant
                i <= self.nodes.len(),
                self@.find(address@, 0) == self@.find(address@, i as nat),
            decreases self.nodes.len() - i,
        {
            assert(self@.nodes[i as int] == self.nodes@[i as int]@);
            if same_text(self.nodes[i].address.as_str(), address) {
                return i;
            }
            i = i + 1;
        }
        i
    }

    /// Records that a request to the backend `address` succeeded.
    pub fn record_success(&mut self, address: &str)
        requires
            old(self).wf(),
        ensures
            final(self).wf(),
            final(self)@ == old(self)@.succeeded(address@),
            final(self).clock == old(self).clock,
    {
        let i = self.position(address);
        if i < self.nodes.len() {
            self.nodes[i].record_success();
        }
        assert(self@ =~= old(self)@.succeeded(address@));
    }

    /// Records that a request to the backend `address` failed at `now`.
    pub fn record_failure_at(&mut self, address: &str, now: u128)
        requires
            old(self).wf(),
            now <= MAX_SPAN,
        ensures
            final(self).wf(),
            final(self)@ == old(self)@.failed(address@, now),
            final(self).clock == old(self).clock,
    {
        let i = self.position(address);
        if i < self.nodes.len() {
            self.nodes[i].record_failure_at(MAX_FAILURES, COOLDOWN, now);
        }
        assert(self@ =~= old(self)@.failed(address@, now));
    }

    /// Records that a request to the backend `address` failed now.
    pub fn record_failure(&mut self, address: &str)
        requires
            old(self).wf(),
        ensures
            final(self).wf(),
            exists|now: u128|
                old(self).clock.shows(now) && final(self)@ == #[trigger] old(self)@.failed(
                    address@,
                    now,
                ),
            final(self).clock == old(self).clock,
    {
        let now = self.clock.read();
        self.record_failure_at(address, now);
        assert(self@ == old(self)@.failed(address@, now));
    }

    /// The addresses of the backends, in order.
    pub fn get_backends(&self) -> (r: Vec<String>)
        ensures
            texts(r@) == self@.nodes.map_values(|n: NodeView| n.address),
    {
        let mut r: Vec<String> = Vec::new();
        for i in 0..self.nodes.len()
            invariant
                r.len() == i,
                forall|j: int| 0 <= j < i ==> (#[trigger] r[j])@ == self.nodes@[j].address@,
        {
            r.push(self.nodes[i].address.clone());
        }
        assert(texts(r@) =~= self@.nodes.map_values(|n: NodeView| n.address));
        r
    }

    /// Replaces the backends by new, healthy ones.
    pub fn update_backends(&mut self, new_backends: Vec<String>)
        requires
            old(self).wf(),
        ensures
            final(self).wf(),
            final(self)@ == (BalancerView {
                nodes: fresh_nodes(texts(new_backends@)),
                ..old(self)@
            }),
            final(self).clock == old(self).clock,
    {
        self.nodes = LoadBalancer::make_nodes(new_backends, self.clock);
        assert(self@.nodes =~= fresh_nodes(texts(new_backends@)));
    }
}

impl Middleware for LoadBalancer {
    open spec fn ready(&self) -> bool {
        self.wf()
    }

    open spec fn label(&self) -> Seq<char> {
        "LoadBalancer"@
    }

    open spec fn handles(
        pre: Self,
        before: ConnectionContext,
        post: Self,
        after: ConnectionContext,
        accepted: bool,
    ) -> bool {
        post.clock == pre.clock && exists|now: u128, draw: usize|
            pre.clock.shows(now) && pre@.drawable(now, draw) && post@ == pre@.after_choice(now) && (
            match #[trigger] pre@.chosen(now, draw) {
                Some(address) => accepted && after.client_ip == before.client_ip && opt_text(
                    after.target_backend,
                ) == Some(address),
                None => !accepted && after == before,
            })
    }

    fn name(&self) -> (r: &'static str) {
        "LoadBalancer"
    }

    fn handle(&mut self, ctx: &mut ConnectionContext) -> (r: bool) {
        if let Some(backend) = self.select() {
            ctx.target_backend = Some(backend);
            true
        } else {
            false
        }
    }
}

} // verus!
