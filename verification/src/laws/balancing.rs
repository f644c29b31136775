//! Laws of the choice of a backend and of circuit breaking.
use crate::clock::{Clock, MAX_SPAN};
use crate::config::{opt_text, texts, LoadBalanceMode};
use crate::laws::counting::counted_on;
use crate::middleware::load_balancer::{
    law_choice_is_available, law_round_robin_turn, law_round_visits_each_once,
    lemma_available_below, lemma_find, lemma_first_hit, step_of, wrapped, BackendNode,
    BalancerView, BreakerState, LoadBalancer,
};
use crate::middleware::{ConnectionContext, Middleware};
use vstd::prelude::*;

verus! {

/// Whether a breaker keeps its backend out at `now`.
pub open spec fn keeps_out(state: BreakerState, now: u128) -> bool {
    state matches BreakerState::Open { until } && now < until
}

/// Node `i` is the first one with the given address.
pub open spec fn is_first(nodes: Seq<BackendNode>, address: Seq<char>, i: int) -> bool {
    &&& 0 <= i < nodes.len()
    &&& nodes[i].address@ == address
    &&& forall|j: int| 0 <= j < i ==> (#[trigger] nodes[j]).address@ != address
}

/// Two balancers with the same backends, the same mode and the same clock.
pub open spec fn same_backends(a: LoadBalancer, b: LoadBalancer) -> bool {
    &&& a.mode == b.mode
    &&& a.clock == b.clock
    &&& a.nodes@.len() == b.nodes@.len()
    &&& forall|i: int|
        #![trigger a.nodes@[i]]
        #![trigger b.nodes@[i]]
        0 <= i < a.nodes@.len() ==> a.nodes@[i].address@ == b.nodes@[i].address@
}

pub proof fn lemma_nodes(lb: LoadBalancer)
    ensures
        lb@.nodes.len() == lb.nodes@.len(),
        forall|i: int|
            #![trigger lb.nodes@[i]]
            #![trigger lb@.nodes[i]]
            0 <= i < lb.nodes@.len() ==> lb@.nodes[i].address == lb.nodes@[i].address@
                && lb@.nodes[i].state == lb.nodes@[i].state && lb@.nodes[i].failures
                == lb.nodes@[i].consecutive_failures,
{
}

proof fn lemma_is_first(lb: LoadBalancer, address: Seq<char>, i: int)
    requires
        is_first(lb.nodes@, address, i),
    ensures
        lb@.find(address, 0) == i,
{
    lemma_nodes(lb);
    lemma_find(lb@, address, 0);
    let k = lb@.find(address, 0) as int;
    if k < i {
        assert(lb@.nodes[k].address == lb.nodes@[k].address@);
    } else if k > i {
        assert(lb@.nodes[i].address == lb.nodes@[i].address@);
    }
}

/// `post` is `pre` after a success was recorded for `address`: the first backend of that address
/// has no failures in a row and is healthy where it was on trial, and all else is as it was.
pub open spec fn success_recorded(
    pre: LoadBalancer,
    address: Seq<char>,
    post: LoadBalancer,
) -> bool {
    &&& same_backends(post, pre)
    &&& post.counter == pre.counter
    &&& forall|i: int|
        0 <= i < pre.nodes@.len() ==> {
            let (before, after) = (pre.nodes@[i], #[trigger] post.nodes@[i]);
            if is_first(pre.nodes@, address, i) {
                &&& after.consecutive_failures == 0
                &&& after.state == if before.state is HalfOpen {
                    BreakerState::Closed
                } else {
                    before.state
                }
            } else {
                &&& after.consecutive_failures == before.consecutive_failures
                &&& after.state == before.state
            }
        }
}

/// `post` is `pre` after a failure at `now` was recorded for `address`: the first backend of that
/// address has one more failure in a row, and from the third on is kept out until ten seconds
/// after `now`; all else is as it was.
pub open spec fn failure_recorded(
    pre: LoadBalancer,
    address: Seq<char>,
    now: u128,
    post: LoadBalancer,
) -> bool {
    &&& same_backends(post, pre)
    &&& post.counter == pre.counter
    &&& forall|i: int|
        0 <= i < pre.nodes@.len() ==> {
            let (before, after) = (pre.nodes@[i], #[trigger] post.nodes@[i]);
            if is_first(pre.nodes@, address, i) {
                before.consecutive_failures < u32::MAX ==> {
                    &&& after.consecutive_failures == before.consecutive_failures + 1
                    &&& after.state == if before.consecutive_failures >= 2 {
                        BreakerState::Open { until: (now + 10_000_000_000) as u128 }
                    } else {
                        before.state
                    }
                }
            } else {
                &&& after.consecutive_failures == before.consecutive_failures
                &&& after.state == before.state
            }
        }
}

proof fn lemma_other_nodes(pre: LoadBalancer, address: Seq<char>, i: int)
    requires
        0 <= i < pre.nodes@.len(),
        !is_first(pre.nodes@, address, i),
    ensures
        pre@.find(address, 0) != i,
{
    lemma_nodes(pre);
    lemma_find(pre@, address, 0);
    if pre@.find(address, 0) == i {
        assert forall|j: int| 0 <= j < i implies (#[trigger] pre.nodes@[j]).address@
            != address by {
            assert(pre@.nodes[j].address != address);
        }
        assert(pre@.nodes[i].address == address);
    }
}

pub proof fn lemma_success_recorded(pre: LoadBalancer, address: Seq<char>, post: LoadBalancer)
    requires
        post@ == pre@.succeeded(address),
        post.clock == pre.clock,
    ensures
        success_recorded(pre, address, post),
{
    lemma_nodes(pre);
    lemma_nodes(post);
    lemma_find(pre@, address, 0);
    assert(post@.nodes.len() == pre@.nodes.len());
    assert forall|i: int| 0 <= i < pre.nodes@.len() implies ({
        let (before, after) = (pre.nodes@[i], #[trigger] post.nodes@[i]);
        &&& after.address@ == before.address@
        &&& if is_first(pre.nodes@, address, i) {
            &&& after.consecutive_failures == 0
            &&& after.state == if before.state is HalfOpen {
                BreakerState::Closed
            } else {
                before.state
            }
        } else {
            &&& after.consecutive_failures == before.consecutive_failures
            &&& after.state == before.state
        }
    }) by {
        if is_first(pre.nodes@, address, i) {
            lemma_is_first(pre, address, i);
            assert(post@.nodes[i] == pre@.nodes[i].succeeded());
        } else {
            lemma_other_nodes(pre, address, i);
            assert(post@.nodes[i] == pre@.nodes[i]);
        }
    }
}

pub proof fn lemma_failure_recorded(
    pre: LoadBalancer,
    address: Seq<char>,
    now: u128,
    post: LoadBalancer,
)
    requires
        post@ == pre@.failed(address, now),
        post.clock == pre.clock,
    ensures
        failure_recorded(pre, address, now, post),
{
    lemma_nodes(pre);
    lemma_nodes(post);
    lemma_find(pre@, address, 0);
    assert(post@.nodes.len() == pre@.nodes.len());
    assert forall|i: int| 0 <= i < pre.nodes@.len() implies ({
        let (before, after) = (pre.nodes@[i], #[trigger] post.nodes@[i]);
        &&& after.address@ == before.address@
        &&& if is_first(pre.nodes@, address, i) {
            before.consecutive_failures < u32::MAX ==> {
                &&& after.consecutive_failures == before.consecutive_failures + 1
                &&& after.state == if before.consecutive_failures >= 2 {
                    BreakerState::Open { until: (now + 10_000_000_000) as u128 }
                } else {
                    before.state
                }
            }
        } else {
            &&& after.consecutive_failures == before.consecutive_failures
            &&& after.state == before.state
        }
    }) by {
        if is_first(pre.nodes@, address, i) {
            lemma_is_first(pre, address, i);
            assert(post@.nodes[i] == pre@.nodes[i].failed(3, 10_000_000_000, now));
        } else {
            lemma_other_nodes(pre, address, i);
            assert(post@.nodes[i] == pre@.nodes[i]);
        }
    }
}

/// A success that is recorded for an address leaves the first backend of that address with no
/// failures in a row, and healthy where it was on trial; a breaker that is open or closed stays
/// so. Every other backend stays as it was.
pub proof fn law_success_clears_failures(lb: &mut LoadBalancer, address: &str)
    requires
        call_ensures(LoadBalancer::record_success, (lb, address), ()),
    ensures
        success_recorded(*old(lb), address@, *final(lb)),
{
    lemma_success_recorded(*lb, address@, *final(lb));
}

/// A failure that is recorded for an address counts one more failure in a row for the first
/// backend of that address. With the third one it is kept out until ten seconds after, and with
/// fewer its breaker stays as it was. Every other backend stays as it was.
pub proof fn law_failure_counts(lb: &mut LoadBalancer, address: &str, now: u128)
    requires
        call_ensures(LoadBalancer::record_failure_at, (lb, address, now), ()),
    ensures
        failure_recorded(*old(lb), address@, now, *final(lb)),
{
    lemma_failure_recorded(*lb, address@, now, *final(lb));
}

/// A failure that is recorded by the clock counts like one at some moment that the clock shows.
pub proof fn law_failure_counts_by_the_clock(lb: &mut LoadBalancer, address: &str)
    requires
        call_ensures(LoadBalancer::record_failure, (lb, address), ()),
    ensures
        exists|now: u128| #[trigger]
            old(lb).clock.shows(now) && failure_recorded(*old(lb), address@, now, *final(lb)),
{
    let (pre, post) = (*lb, *final(lb));
    let now = choose|now: u128|
        pre.clock.shows(now) && post@ == #[trigger] pre@.failed(address@, now);
    lemma_failure_recorded(pre, address@, now, post);
    assert(pre.clock.shows(now));
}

/// Failures must be in a row: a healthy backend that failed twice, answered and failed once more
/// is still healthy, whatever the times.
pub proof fn law_success_breaks_a_row_of_failures(
    one: &mut LoadBalancer,
    two: &mut LoadBalancer,
    three: &mut LoadBalancer,
    four: &mut LoadBalancer,
    address: &str,
    first: u128,
    second: u128,
    third: u128,
    i: int,
)
    requires
        is_first(old(one).nodes@, address@, i),
        old(one).nodes@[i].state is Closed,
        old(one).nodes@[i].consecutive_failures == 0,
        call_ensures(LoadBalancer::record_failure_at, (one, address, first), ()),
        *old(two) == *final(one),
        call_ensures(LoadBalancer::record_failure_at, (two, address, second), ()),
        *old(three) == *final(two),
        call_ensures(LoadBalancer::record_success, (three, address), ()),
        *old(four) == *final(three),
        call_ensures(LoadBalancer::record_failure_at, (four, address, third), ()),
    ensures
        final(four).nodes@[i].state is Closed,
        final(four).nodes@[i].consecutive_failures == 1,
{
    law_failure_counts(one, address, first);
    lemma_first_stays(*one, *two, address@, i);
    law_failure_counts(two, address, second);
    lemma_first_stays(*two, *three, address@, i);
    law_success_clears_failures(three, address);
    lemma_first_stays(*three, *four, address@, i);
    law_failure_counts(four, address, third);
    assert(final(four).nodes@[i].state is Closed);
}

proof fn lemma_first_stays(a: LoadBalancer, b: LoadBalancer, address: Seq<char>, i: int)
    requires
        same_backends(b, a),
        is_first(a.nodes@, address, i),
    ensures
        is_first(b.nodes@, address, i),
{
    assert forall|j: int| 0 <= j < i implies (#[trigger] b.nodes@[j]).address@ != address by {
        assert(a.nodes@[j].address@ != address);
    }
    assert(a.nodes@[i].address@ == b.nodes@[i].address@);
}

/// Going round, a balancer takes the first backend from its counter on that is not kept out, and
/// the counter moves on behind it; nobody who may be chosen is passed over. A backend whose time
/// out is over goes on trial when it is taken. All other breakers stay as they were.
pub proof fn law_round_robin_choice(
    lb: &mut LoadBalancer,
    now: u128,
    draw: usize,
    r: Option<String>,
)
    requires
        call_ensures(LoadBalancer::select_at, (lb, now, draw), r),
        old(lb).mode is RoundRobin,
        old(lb).nodes@.len() > 0,
        old(lb).counter + old(lb).nodes@.len() <= usize::MAX,
    ensures
        same_backends(*final(lb), *old(lb)),
        r matches Some(address) ==> exists|k: int|
            #![trigger old(lb).nodes@[k]]
            {
                let n = old(lb).nodes@.len() as int;
                let steps = final(lb).counter - old(lb).counter;
                &&& 0 <= k < n
                &&& 1 <= steps <= n
                &&& k == (final(lb).counter - 1) % n
                &&& address@ == old(lb).nodes@[k].address@
                &&& !keeps_out(old(lb).nodes@[k].state, now)
                &&& final(lb).nodes@[k].state == if old(lb).nodes@[k].state is Open {
                    BreakerState::HalfOpen
                } else {
                    old(lb).nodes@[k].state
                }
                &&& forall|j: int|
                    old(lb).counter <= j < final(lb).counter - 1 ==> keeps_out(
                        (#[trigger] old(lb).nodes@[j % n]).state,
                        now,
                    )
                &&& forall|j: int|
                    0 <= j < n && j != k ==> (#[trigger] final(lb).nodes@[j]).state
                        == old(lb).nodes@[j].state
            },
        r is None ==> final(lb).counter == old(lb).counter + old(lb).nodes@.len() && forall|j: int|
            0 <= j < old(lb).nodes@.len() ==> keeps_out((#[trigger] old(lb).nodes@[j]).state, now)
                && final(lb).nodes@[j].state == old(lb).nodes@[j].state,
        forall|j: int|
            0 <= j < old(lb).nodes@.len() ==> (#[trigger] final(lb).nodes@[j]).consecutive_failures
                == old(lb).nodes@[j].consecutive_failures,
{
    let (pre, post) = (*lb, *final(lb));
    let view = pre@;
    let n = pre.nodes@.len() as int;
    let c = pre.counter as int;
    lemma_nodes(pre);
    lemma_nodes(post);
    lemma_first_hit(view, now, 0);
    let hit = view.first_hit(now, 0) as int;
    assert forall|k: int| 0 <= k < n implies view.slot(k) == #[trigger] ((c + k) % n) by {}
    assert(post@.nodes.len() == n);
    assert forall|j: int| 0 <= j < n implies #[trigger] post.nodes@[j].address@
        == pre.nodes@[j].address@ && post.nodes@[j].consecutive_failures
        == pre.nodes@[j].consecutive_failures by {
        assert(post@.nodes[j].address == view.nodes[j].address);
    }
    assert forall|j: int| c <= j < c + hit implies keeps_out(
        (#[trigger] pre.nodes@[j % n]).state,
        now,
    ) by {
        vstd::arithmetic::div_mod::lemma_mod_bound(j, n);
        assert((c + (j - c)) % n == j % n);
        assert(view.slot(j - c) == j % n);
        assert(!view.nodes[view.slot(j - c)].available(now));
    }
    if hit < n {
        let k = (c + hit) % n;
        vstd::arithmetic::div_mod::lemma_mod_bound(c + hit, n);
        assert(view.slot(hit) == k);
        assert(pre.nodes@[k].address@ == view.nodes[k].address);
        assert(post.counter - 1 == c + hit);
        assert(post@.nodes[k] == view.nodes[k].probed(now));
        assert forall|j: int| 0 <= j < n && j != k implies (#[trigger] post.nodes@[j]).state
            == pre.nodes@[j].state by {
            assert(post@.nodes[j] == view.nodes[j]);
        }
    } else {
        assert forall|j: int| 0 <= j < n implies keeps_out((#[trigger] pre.nodes@[j]).state, now)
            && post.nodes@[j].state == pre.nodes@[j].state by {
            law_round_visits_each_once(view, j);
            let k = step_of(view, j);
            assert(!view.nodes[view.slot(k)].available(now));
            assert(post@.nodes[j] == view.nodes[j]);
        }
    }
}

/// The backends that are not kept out at `now`, in order.
pub open spec fn let_in(nodes: Seq<BackendNode>, now: u128) -> Seq<BackendNode> {
    nodes.filter(|node: BackendNode| !keeps_out(node.state, now))
}

proof fn lemma_let_in(lb: LoadBalancer, now: u128, n: nat)
    requires
        n <= lb.nodes@.len(),
    ensures
        let_in(lb.nodes@.take(n as int), now).len() == lb@.available_below(now, n).len(),
        forall|j: int|
            0 <= j < lb@.available_below(now, n).len() ==> {
                let at = #[trigger] lb@.available_below(now, n)[j];
                &&& 0 <= at < n
                &&& !keeps_out(lb.nodes@[at].state, now)
                &&& let_in(lb.nodes@.take(at), now).len() == j
            },
    decreases n,
{
    reveal(Seq::filter);
    lemma_nodes(lb);
    if n > 0 {
        let m = (n - 1) as nat;
        lemma_let_in(lb, now, m);
        assert(lb.nodes@.take(n as int).drop_last() =~= lb.nodes@.take(m as int));
        assert(lb.nodes@.take(n as int).last() == lb.nodes@[m as int]);
        assert(lb@.nodes[m as int].state == lb.nodes@[m as int].state);
    } else {
        assert(lb.nodes@.take(0) =~= Seq::<BackendNode>::empty());
    }
}

/// Choosing at random, a balancer takes the backend with the number that was drawn among those
/// that are not kept out, so each of them can be drawn and by one draw only; there is no choice
/// exactly where all are kept out. Every backend whose time out is over goes on trial.
pub proof fn law_random_choice(lb: &mut LoadBalancer, now: u128, draw: usize, r: Option<String>)
    requires
        call_ensures(LoadBalancer::select_at, (lb, now, draw), r),
        old(lb).mode is Random,
        draw < let_in(old(lb).nodes@, now).len() || let_in(old(lb).nodes@, now).len() == 0,
    ensures
        same_backends(*final(lb), *old(lb)),
        final(lb).counter == old(lb).counter,
        r is None <==> let_in(old(lb).nodes@, now).len() == 0,
        r matches Some(address) ==> exists|k: int|
            #![trigger old(lb).nodes@[k]]
            0 <= k < old(lb).nodes@.len() && address@ == old(lb).nodes@[k].address@
                && !keeps_out(old(lb).nodes@[k].state, now) && let_in(
                old(lb).nodes@.take(k),
                now,
            ).len() == draw,
        forall|j: int|
            0 <= j < old(lb).nodes@.len() ==> (#[trigger] final(lb).nodes@[j]).consecutive_failures
                == old(lb).nodes@[j].consecutive_failures && {
                let before = old(lb).nodes@[j].state;
                &&& before is Open && !keeps_out(before, now) ==> final(lb).nodes@[j].state
                    is HalfOpen
                &&& !(before is Open) || keeps_out(before, now) ==> final(lb).nodes@[j].state
                    == before
            },
{
    let (pre, post) = (*lb, *final(lb));
    let view = pre@;
    let n = pre.nodes@.len();
    lemma_nodes(pre);
    lemma_nodes(post);
    lemma_let_in(pre, now, n);
    assert(pre.nodes@.take(n as int) =~= pre.nodes@);
    lemma_available_below(view, now, n);
    assert(post@.nodes.len() == n);
    assert forall|j: int| 0 <= j < n implies (#[trigger] post.nodes@[j]).consecutive_failures
        == pre.nodes@[j].consecutive_failures && post.nodes@[j].address@ == pre.nodes@[j].address@
        && post.nodes@[j].state == (if pre.nodes@[j].state is Open && !keeps_out(
        pre.nodes@[j].state,
        now,
    ) {
        BreakerState::HalfOpen
    } else {
        pre.nodes@[j].state
    }) by {
        assert(post@.nodes[j] == view.nodes[j].probed(now));
    }
    if view.available_nodes(now).len() > 0 {
        let k = view.available_nodes(now)[draw as int];
        assert(view.nodes[k].address == pre.nodes@[k].address@);
    }
}

/// The position among `n` that a counter stands at once it has counted up to `j`, starting again
/// at zero behind its largest value.
pub open spec fn at_turn(n: int, j: int) -> int {
    (if j > usize::MAX {
        j - usize::MAX - 1
    } else {
        j
    }) % n
}

/// `pre` goes round at `now` and takes `backend`, becoming `post`: from the counter on, the first
/// backend that is not kept out; it goes on trial where its breaker was open, the counter moves
/// past it, and no other backend changes. It takes none where it finds all of them kept out, and
/// all of them are unless the counter starts again at zero on the way.
pub open spec fn goes_round(
    pre: LoadBalancer,
    now: u128,
    backend: Option<Seq<char>>,
    post: LoadBalancer,
) -> bool {
    let n = pre.nodes@.len() as int;
    let c = pre.counter as int;
    match backend {
        Some(address) => exists|steps: int|
            0 <= steps < n && {
                let k = #[trigger] at_turn(n, c + steps);
                &&& address == pre.nodes@[k].address@
                &&& !keeps_out(pre.nodes@[k].state, now)
                &&& post.nodes@[k].state == if pre.nodes@[k].state is Open {
                    BreakerState::HalfOpen
                } else {
                    pre.nodes@[k].state
                }
                &&& counted_on(c, steps + 1, usize::MAX as int, post.counter as int)
                &&& forall|s: int|
                    0 <= s < steps ==> keeps_out(
                        pre.nodes@[#[trigger] at_turn(n, c + s)].state,
                        now,
                    )
                &&& forall|j: int|
                    0 <= j < n && j != k ==> (#[trigger] post.nodes@[j]).state
                        == pre.nodes@[j].state
            },
        None => {
            &&& counted_on(c, n, usize::MAX as int, post.counter as int)
            &&& forall|s: int|
                0 <= s < n ==> keeps_out(pre.nodes@[#[trigger] at_turn(n, c + s)].state, now)
            &&& c + n <= usize::MAX ==> forall|j: int|
                0 <= j < n ==> keeps_out((#[trigger] pre.nodes@[j]).state, now)
            &&& forall|j: int|
                0 <= j < n ==> (#[trigger] post.nodes@[j]).state == pre.nodes@[j].state
        },
    }
}

/// `pre` takes `backend` at `now` by drawing `draw`, becoming `post`: the one with that number
/// among those that are not kept out, and none exactly where all are. Every backend whose time
/// out is over goes on trial.
pub open spec fn draws(
    pre: LoadBalancer,
    now: u128,
    draw: usize,
    backend: Option<Seq<char>>,
    post: LoadBalancer,
) -> bool {
    &&& post.counter == pre.counter
    &&& backend is None <==> let_in(pre.nodes@, now).len() == 0
    &&& backend matches Some(address) ==> draw < let_in(pre.nodes@, now).len() && exists|k: int|
        #![trigger pre.nodes@[k]]
        0 <= k < pre.nodes@.len() && address == pre.nodes@[k].address@ && !keeps_out(
            pre.nodes@[k].state,
            now,
        ) && let_in(pre.nodes@.take(k), now).len() == draw
    &&& forall|j: int|
        0 <= j < pre.nodes@.len() ==> (#[trigger] post.nodes@[j]).state == if pre.nodes@[j].state
            is Open && !keeps_out(pre.nodes@[j].state, now) {
            BreakerState::HalfOpen
        } else {
            pre.nodes@[j].state
        }
}

/// `pre` takes `backend` at `now`, by `draw` where it draws, and becomes `post`.
pub open spec fn takes(
    pre: LoadBalancer,
    now: u128,
    draw: usize,
    backend: Option<Seq<char>>,
    post: LoadBalancer,
) -> bool {
    &&& same_backends(post, pre)
    &&& forall|j: int|
        0 <= j < pre.nodes@.len() ==> (#[trigger] post.nodes@[j]).consecutive_failures
            == pre.nodes@[j].consecutive_failures
    &&& pre.mode is RoundRobin ==> goes_round(pre, now, backend, post)
    &&& pre.mode is Random ==> draws(pre, now, draw, backend, post)
}

proof fn lemma_slot(view: BalancerView, k: int)
    requires
        0 <= k < view.nodes.len() <= usize::MAX,
    ensures
        view.slot(k) == at_turn(view.nodes.len() as int, view.counter + k),
        0 <= view.slot(k) < view.nodes.len(),
{
    let j = view.counter + k;
    let m = usize::MAX + 1;
    if j > usize::MAX {
        vstd::arithmetic::div_mod::lemma_fundamental_div_mod_converse(j, m, 1, j - m);
    } else {
        vstd::arithmetic::div_mod::lemma_small_mod(j as nat, m as nat);
    }
    vstd::arithmetic::div_mod::lemma_mod_bound(wrapped(j) as int, view.nodes.len() as int);
}

proof fn lemma_counted(c: usize, more: int)
    requires
        0 <= more <= usize::MAX,
    ensures
        counted_on(c as int, more, usize::MAX as int, wrapped(c + more) as int),
{
    let j = c + more;
    let m = usize::MAX + 1;
    if j > usize::MAX {
        vstd::arithmetic::div_mod::lemma_fundamental_div_mod_converse(j, m, 1, j - m);
    } else {
        vstd::arithmetic::div_mod::lemma_small_mod(j as nat, m as nat);
    }
}

pub proof fn lemma_takes(pre: LoadBalancer, now: u128, draw: usize, post: LoadBalancer)
    requires
        pre@.drawable(now, draw),
        post@ == pre@.after_choice(now),
        post.clock == pre.clock,
    ensures
        takes(pre, now, draw, pre@.chosen(now, draw), post),
{
    let view = pre@;
    let n = pre.nodes@.len() as int;
    let c = pre.counter as int;
    assert(pre.nodes.len() == n);
    lemma_nodes(pre);
    lemma_nodes(post);
    lemma_first_hit(view, now, 0);
    lemma_available_below(view, now, n as nat);
    lemma_let_in(pre, now, n as nat);
    assert(pre.nodes@.take(n) =~= pre.nodes@);
    let hit = view.first_hit(now, 0) as int;
    assert(post@.nodes.len() == n);
    if view.mode is RoundRobin {
        assert forall|s: int| 0 <= s < n implies view.slot(s) == #[trigger] at_turn(n, c + s)
            && 0 <= view.slot(s) < n by {
            lemma_slot(view, s);
        }
        assert forall|s: int| 0 <= s < hit implies keeps_out(
            pre.nodes@[#[trigger] at_turn(n, c + s)].state,
            now,
        ) by {
            assert(!view.nodes[view.slot(s)].available(now));
        }
        if hit < n {
            lemma_counted(pre.counter, hit + 1);
            let k = view.slot(hit);
            assert(k == at_turn(n, c + hit));
            assert(post@.nodes[k] == view.nodes[k].probed(now));
            assert forall|j: int| 0 <= j < n implies (#[trigger] post.nodes@[j]).address@
                == pre.nodes@[j].address@ && post.nodes@[j].consecutive_failures
                == pre.nodes@[j].consecutive_failures && (j != k ==> post.nodes@[j].state
                == pre.nodes@[j].state) by {
                assert(j != k ==> post@.nodes[j] == view.nodes[j]);
            }
        } else {
            lemma_counted(pre.counter, n);
            assert forall|j: int| 0 <= j < n implies (#[trigger] post.nodes@[j]).address@
                == pre.nodes@[j].address@ && post.nodes@[j].consecutive_failures
                == pre.nodes@[j].consecutive_failures && post.nodes@[j].state
                == pre.nodes@[j].state by {
                assert(post@.nodes[j] == view.nodes[j]);
            }
            if c + n <= usize::MAX && n > 0 {
                assert forall|j: int| 0 <= j < n implies keeps_out(
                    (#[trigger] pre.nodes@[j]).state,
                    now,
                ) by {
                    law_round_visits_each_once(view, j);
                    assert(!view.nodes[view.slot(step_of(view, j))].available(now));
                }
            }
        }
    } else {
        assert forall|j: int| 0 <= j < n implies (#[trigger] post.nodes@[j]).consecutive_failures
            == pre.nodes@[j].consecutive_failures && post.nodes@[j].address@
            == pre.nodes@[j].address@ && post.nodes@[j].state == (if pre.nodes@[j].state is Open
            && !keeps_out(pre.nodes@[j].state, now) {
            BreakerState::HalfOpen
        } else {
            pre.nodes@[j].state
        }) by {
            assert(post@.nodes[j] == view.nodes[j].probed(now));
        }
        if view.available_nodes(now).len() > 0 {
            let k = view.available_nodes(now)[draw as int];
            assert(view.nodes[k].address == pre.nodes@[k].address@);
        }
    }
}

/// A balancer takes the backend that comes next going round, or the one that is drawn, whatever
/// its counter and its breakers.
pub proof fn law_choice_at_a_moment(
    lb: &mut LoadBalancer,
    now: u128,
    draw: usize,
    r: Option<String>,
)
    requires
        call_ensures(LoadBalancer::select_at, (lb, now, draw), r),
        draw < let_in(old(lb).nodes@, now).len() || let_in(old(lb).nodes@, now).len() == 0,
    ensures
        takes(*old(lb), now, draw, opt_text(r), *final(lb)),
{
    lemma_let_in(*lb, now, lb.nodes@.len());
    assert(lb.nodes@.take(lb.nodes@.len() as int) =~= lb.nodes@);
    lemma_takes(*lb, now, draw, *final(lb));
}

/// Counting the available backends counts those that are not kept out.
pub proof fn law_available_are_counted(lb: &LoadBalancer, now: u128, r: usize)
    requires
        call_ensures(LoadBalancer::count_available, (lb, now), r),
    ensures
        r == let_in(lb.nodes@, now).len(),
{
    lemma_let_in(*lb, now, lb.nodes@.len());
    assert(lb.nodes@.take(lb.nodes@.len() as int) =~= lb.nodes@);
}

/// Choosing by the clock, a balancer takes what it takes at some moment that the clock shows. Where
/// no breaker is open it always takes one of its backends: going round, the one at the counter,
/// which moves on by one.
pub proof fn law_choice_by_the_clock(lb: &mut LoadBalancer, r: Option<String>)
    requires
        call_ensures(LoadBalancer::select, (lb,), r),
    ensures
        exists|now: u128, draw: usize|
            old(lb).clock.shows(now) && #[trigger] takes(
                *old(lb),
                now,
                draw,
                opt_text(r),
                *final(lb),
            ),
        old(lb).nodes@.len() > 0 && (forall|k: int|
            0 <= k < old(lb).nodes@.len() ==> !((#[trigger] old(lb).nodes@[k]).state is Open))
            ==> r is Some && (old(lb).mode is RoundRobin ==> {
            let k = old(lb).counter as int % old(lb).nodes@.len() as int;
            &&& r->0@ == old(lb).nodes@[k].address@
            &&& final(lb).counter == old(lb).counter.wrapping_add(1)
        }),
        old(lb).nodes@.len() == 0 ==> r is None,
        forall|j: int|
            0 <= j < old(lb).nodes@.len() ==> (#[trigger] final(lb).nodes@[j]).consecutive_failures
                == old(lb).nodes@[j].consecutive_failures,
{
    let (pre, post) = (*lb, *final(lb));
    let view = pre@;
    let n = pre.nodes@.len();
    let (now, draw) = choose|now: u128, draw: usize|
        pre.clock.shows(now) && view.drawable(now, draw) && opt_text(r)
            == #[trigger] view.chosen(now, draw) && post@ == view.after_choice(now);
    lemma_takes(pre, now, draw, post);
    assert(takes(pre, now, draw, opt_text(r), post));
    lemma_nodes(pre);
    lemma_nodes(post);
    assert(post@.nodes.len() == n);
    lemma_first_hit(view, now, 0);
    lemma_available_below(view, now, n);
    law_choice_is_available(view, now, draw);
    assert forall|j: int| 0 <= j < n implies (#[trigger] post.nodes@[j]).consecutive_failures
        == pre.nodes@[j].consecutive_failures && post.nodes@[j].address@
        == pre.nodes@[j].address@ by {
        assert(post@.nodes[j].failures == view.nodes[j].failures);
    }
    if view.choice(now, draw) is Some {
        let k = view.choice(now, draw)->0;
        assert(view.nodes[k].address == pre.nodes@[k].address@);
        assert(!keeps_out(pre.nodes@[k].state, now));
    }
    if n > 0 && (forall|k: int|
        0 <= k < n ==> !((#[trigger] pre.nodes@[k]).state is Open)) {
        assert forall|k: int| 0 <= k < view.nodes.len() implies !((
        #[trigger] view.nodes[k]).state is Open) by {
            assert(!(pre.nodes@[k].state is Open));
        }
        if view.mode is RoundRobin {
            law_round_robin_turn(view, now);
            let k = view.counter as int % view.nodes.len() as int;
            vstd::arithmetic::div_mod::lemma_mod_bound(view.counter as int, n as int);
            assert(view.nodes[k].address == pre.nodes@[k].address@);
        } else {
            assert(view.nodes[0].available(now));
            assert(view.available_below(now, n).contains(0));
        }
    }
}

/// A new balancer has one backend for each address, in order, all of them healthy; it chooses as
/// it is told and starts with the first one.
pub proof fn law_new_balancer(
    backends: Vec<String>,
    mode: LoadBalanceMode,
    lb: LoadBalancer,
    i: int,
)
    requires
        call_ensures(LoadBalancer::new, (backends, mode), lb),
    ensures
        lb.mode == mode,
        lb.counter == 0,
        lb.nodes@.len() == backends@.len(),
        0 <= i < backends@.len() ==> lb.nodes@[i].address@ == backends@[i]@
            && lb.nodes@[i].state is Closed && lb.nodes@[i].consecutive_failures == 0,
{
    lemma_nodes(lb);
    if 0 <= i < backends@.len() {
        assert(texts(backends@)[i] == backends@[i]@);
    }
}

/// The backends of a balancer are the addresses of its nodes, in order.
pub proof fn law_backends_are_listed(lb: &LoadBalancer, r: Vec<String>, i: int)
    requires
        call_ensures(LoadBalancer::get_backends, (lb,), r),
    ensures
        r@.len() == lb.nodes@.len(),
        0 <= i < r@.len() ==> r@[i]@ == lb.nodes@[i].address@,
{
    lemma_nodes(*lb);
    assert(texts(r@).len() == r@.len());
    if 0 <= i < r@.len() {
        assert(texts(r@)[i] == r@[i]@);
    }
}

/// Backends that are replaced are replaced by healthy ones with the new addresses; the mode, the
/// counter and the clock stay.
pub proof fn law_backends_are_replaced(lb: &mut LoadBalancer, backends: Vec<String>, i: int)
    requires
        call_ensures(LoadBalancer::update_backends, (lb, backends), ()),
    ensures
        final(lb).mode == old(lb).mode,
        final(lb).counter == old(lb).counter,
        final(lb).clock == old(lb).clock,
        final(lb).nodes@.len() == backends@.len(),
        0 <= i < backends@.len() ==> final(lb).nodes@[i].address@ == backends@[i]@
            && final(lb).nodes@[i].state is Closed && final(lb).nodes@[i].consecutive_failures
            == 0,
{
    lemma_nodes(*final(lb));
    if 0 <= i < backends@.len() {
        assert(texts(backends@)[i] == backends@[i]@);
    }
}

/// A node is available unless it is kept out. One whose time out is over is on trial once it was
/// asked; any other node is not changed by being asked.
pub proof fn law_node_is_asked(node: &mut BackendNode, now: u128, r: bool)
    requires
        call_ensures(BackendNode::is_available_at, (node, now), r),
    ensures
        r == !keeps_out(old(node).state, now),
        final(node).address@ == old(node).address@,
        final(node).consecutive_failures == old(node).consecutive_failures,
        final(node).clock == old(node).clock,
        final(node).state == if r && old(node).state is Open {
            BreakerState::HalfOpen
        } else {
            old(node).state
        },
{
}

/// A node that is asked by its clock answers for some moment that the clock shows.
pub proof fn law_node_is_asked_by_its_clock(node: &mut BackendNode, r: bool)
    requires
        call_ensures(BackendNode::is_available, (node,), r),
    ensures
        exists|now: u128| #[trigger]
            old(node).clock.shows(now) && r == !keeps_out(old(node).state, now),
        final(node).address@ == old(node).address@,
        final(node).consecutive_failures == old(node).consecutive_failures,
        final(node).clock == old(node).clock,
        final(node).state == if r && old(node).state is Open {
            BreakerState::HalfOpen
        } else {
            old(node).state
        },
{
    let (pre, post) = (*node, *final(node));
    let now = choose|now: u128|
        pre.clock.shows(now) && r == #[trigger] pre@.available(now) && post@ == pre@.probed(now);
    assert(pre.clock.shows(now) && r == !keeps_out(pre.state, now));
}

/// A node that answered has no failures in a row, and is healthy where it was on trial.
pub proof fn law_node_succeeds(node: &mut BackendNode)
    requires
        call_ensures(BackendNode::record_success, (node,), ()),
    ensures
        final(node).address@ == old(node).address@,
        final(node).consecutive_failures == 0,
        final(node).clock == old(node).clock,
        final(node).state == if old(node).state is HalfOpen {
            BreakerState::Closed
        } else {
            old(node).state
        },
{
}

/// A node that failed has one more failure in a row, and is kept out for the given time where
/// there are enough of them.
pub proof fn law_node_fails(node: &mut BackendNode, max_failures: u32, cooldown: u128, now: u128)
    requires
        call_ensures(BackendNode::record_failure_at, (node, max_failures, cooldown, now), ()),
        old(node).consecutive_failures < u32::MAX,
        now + cooldown <= u128::MAX,
    ensures
        final(node).address@ == old(node).address@,
        final(node).consecutive_failures == old(node).consecutive_failures + 1,
        final(node).clock == old(node).clock,
        final(node).state == if old(node).consecutive_failures + 1 >= max_failures {
            BreakerState::Open { until: (now + cooldown) as u128 }
        } else {
            old(node).state
        },
{
}

/// A node that failed by its clock failed at some moment that the clock shows.
pub proof fn law_node_fails_by_its_clock(node: &mut BackendNode, max_failures: u32, cooldown: u128)
    requires
        call_ensures(BackendNode::record_failure, (node, max_failures, cooldown), ()),
        old(node).consecutive_failures < u32::MAX,
        cooldown <= MAX_SPAN,
    ensures
        final(node).address@ == old(node).address@,
        final(node).consecutive_failures == old(node).consecutive_failures + 1,
        final(node).clock == old(node).clock,
        if old(node).consecutive_failures + 1 >= max_failures {
            &&& final(node).state is Open
            &&& old(node).clock.shows((final(node).state->until - cooldown) as u128)
        } else {
            final(node).state == old(node).state
        },
{
}

/// A new node is healthy, and goes by its own clock or by the one that it is given.
pub proof fn law_new_node(
    address: String,
    clock: Clock,
    alone: BackendNode,
    timed: BackendNode,
)
    requires
        call_ensures(BackendNode::new, (address,), alone),
        call_ensures(BackendNode::with_clock, (address, clock), timed),
    ensures
        alone.address@ == address@,
        alone.state is Closed,
        alone.consecutive_failures == 0,
        timed.address@ == address@,
        timed.state is Closed,
        timed.consecutive_failures == 0,
        timed.clock == clock,
{
}

/// As a filter, a balancer accepts a connection exactly where it names a backend for it, one of
/// its own; the client's address stays, and so does a connection that is rejected. It rejects
/// nobody while no breaker is open.
pub proof fn law_balancer_as_a_filter(lb: &mut LoadBalancer, ctx: &mut ConnectionContext, r: bool)
    requires
        call_ensures(LoadBalancer::handle, (lb, ctx), r),
    ensures
        final(ctx).client_ip == old(ctx).client_ip,
        !r ==> *final(ctx) == *old(ctx),
        r ==> final(ctx).target_backend is Some,
        exists|now: u128, draw: usize, backend: Option<Seq<char>>|
            old(lb).clock.shows(now) && #[trigger] takes(
                *old(lb),
                now,
                draw,
                backend,
                *final(lb),
            ) && (r ==> backend == opt_text(final(ctx).target_backend)) && (!r ==> backend is None),
        old(lb).nodes@.len() == 0 ==> !r,
        old(lb).nodes@.len() > 0 && (forall|k: int|
            0 <= k < old(lb).nodes@.len() ==> !((#[trigger] old(lb).nodes@[k]).state is Open))
            ==> r,
        same_backends(*final(lb), *old(lb)),
{
    let (pre, post) = (*lb, *final(lb));
    let view = pre@;
    let n = pre.nodes@.len();
    let (now, draw) = choose|now: u128, draw: usize|
        pre.clock.shows(now) && view.drawable(now, draw) && post@ == view.after_choice(now) && (
        match #[trigger] view.chosen(now, draw) {
            Some(address) => r && final(ctx).client_ip == ctx.client_ip && opt_text(
                final(ctx).target_backend,
            ) == Some(address),
            None => !r && *final(ctx) == *ctx,
        });
    lemma_takes(pre, now, draw, post);
    assert(takes(pre, now, draw, view.chosen(now, draw), post));
    lemma_nodes(pre);
    lemma_nodes(post);
    assert(post@.nodes.len() == n);
    lemma_first_hit(view, now, 0);
    lemma_available_below(view, now, n);
    law_choice_is_available(view, now, draw);
    assert forall|j: int| 0 <= j < n implies (#[trigger] post.nodes@[j]).address@
        == pre.nodes@[j].address@ by {
        assert(post@.nodes[j].address == view.nodes[j].address);
    }
    if view.choice(now, draw) is Some {
        let k = view.choice(now, draw)->0;
        assert(view.nodes[k].address == pre.nodes@[k].address@);
    }
    if n > 0 && (forall|k: int|
        0 <= k < n ==> !((#[trigger] pre.nodes@[k]).state is Open)) {
        assert forall|k: int| 0 <= k < view.nodes.len() implies !((
        #[trigger] view.nodes[k]).state is Open) by {
            assert(!(pre.nodes@[k].state is Open));
        }
        if view.mode is RoundRobin {
            law_round_robin_turn(view, now);
        } else {
            assert(view.nodes[0].available(now));
            assert(view.available_below(now, n).contains(0));
        }
    }
}

} // verus!
