//! Laws of the rate limiter and of the filters that a connection passes through.
use crate::addr::IpAddr;
use crate::config::opt_text;
use crate::laws::balancing::{lemma_takes, takes};
use crate::middleware::intake::Stage;
use crate::middleware::load_balancer::LoadBalancer;
use crate::middleware::rate_limiter::{RateLimiter, Refill, TokenBucket};
use crate::middleware::{passes, rejects, ConnectionContext, Middleware, MiddlewareChain};
use vstd::prelude::*;

verus! {

/// The nanoseconds from `earlier` to `now`; none where `earlier` has not come yet.
pub open spec fn span(now: u128, earlier: u128) -> int {
    if now >= earlier {
        now - earlier
    } else {
        0
    }
}

/// What is left in a bucket once the arithmetic found `out` of it.
pub open spec fn left_over(out: Refill) -> u64 {
    match out.spent {
        Some(rest) => rest,
        None => out.tokens,
    }
}

/// Whether the arithmetic of a limiter may find `out` of a bucket at `now`.
pub open spec fn may_find<F: Fn(u64, u128, u64, u64) -> Refill>(
    limiter: RateLimiter<F>,
    bucket: TokenBucket,
    now: u128,
    out: Refill,
) -> bool {
    call_ensures(
        limiter.arithmetic(),
        (
            bucket.tokens,
            span(now, bucket.last_refill) as u128,
            limiter.rate(),
            limiter.capacity(),
        ),
        out,
    )
}

/// A request is decided by what the arithmetic finds of the client's own bucket, with the time
/// that has passed since its last request: it is accepted exactly where a token can be taken, and
/// the rest is kept for the next request. A client without a bucket has a full one; and so has
/// one whose bucket is found full when more than a minute has passed since buckets were last
/// looked over.
pub proof fn law_own_bucket_decides<F: Fn(u64, u128, u64, u64) -> Refill>(
    limiter: &mut RateLimiter<F>,
    ip: IpAddr,
    now: u128,
    r: bool,
)
    requires
        call_ensures(RateLimiter::<F>::filter_at, (limiter, ip, now), r),
    ensures
        exists|bucket: TokenBucket, out: Refill| #[trigger]
            may_find(*old(limiter), bucket, now, out) && r == (out.spent is Some)
                && final(limiter)@.contains_key(ip) && final(limiter)@[ip] == (TokenBucket {
                tokens: left_over(out),
                last_refill: now,
            }) && (if old(limiter)@.contains_key(ip) {
                ||| bucket == old(limiter)@[ip]
                ||| {
                    &&& span(now, old(limiter).cleaned_at()) >= 61_000_000_000
                    &&& bucket == (TokenBucket {
                        tokens: old(limiter).capacity(),
                        last_refill: now,
                    })
                    &&& exists|full: Refill| #[trigger]
                        may_find(*old(limiter), old(limiter)@[ip], now, full) && !full.below_max
                }
            } else {
                bucket == (TokenBucket { tokens: old(limiter).capacity(), last_refill: now })
            }),
        final(limiter).capacity() == old(limiter).capacity(),
        final(limiter).rate() == old(limiter).rate(),
        final(limiter).arithmetic() == old(limiter).arithmetic(),
        final(limiter).timed_by() == old(limiter).timed_by(),
{
    let (pre, post) = (*limiter, *final(limiter));
    let (kept, out) = choose|kept: Map<IpAddr, TokenBucket>, out: Refill|
        pre.sweeps(now, kept) && pre.refills(pre.bucket_of(kept, ip, now), now, out) && r == (
        out.spent is Some) && #[trigger] pre.becomes(post, kept, ip, now, out);
    let bucket = pre.bucket_of(kept, ip, now);
    assert(may_find(pre, bucket, now, out));
    if pre@.contains_key(ip) {
        if kept.contains_key(ip) {
            assert(bucket == pre@[ip]);
        } else {
            assert(pre@.contains_key(ip) && !kept.contains_key(ip));
            let full = choose|full: Refill| #[trigger]
                pre.refills(pre@[ip], now, full) && !full.below_max;
            assert(may_find(pre, pre@[ip], now, full));
        }
    } else {
        assert(!kept.contains_key(ip));
    }
}

/// Buckets are looked over when more than a minute has passed since the last time, in whole
/// seconds. Then those that are found full are dropped and the others stay as they are; otherwise
/// all stay as they are.
pub proof fn law_buckets_are_looked_over<F: Fn(u64, u128, u64, u64) -> Refill>(
    limiter: &mut RateLimiter<F>,
    ip: IpAddr,
    now: u128,
    r: bool,
    other: IpAddr,
)
    requires
        call_ensures(RateLimiter::<F>::filter_at, (limiter, ip, now), r),
        other != ip,
    ensures
        final(limiter)@.contains_key(other) ==> old(limiter)@.contains_key(other)
            && final(limiter)@[other] == old(limiter)@[other],
        span(now, old(limiter).cleaned_at()) < 61_000_000_000 ==> {
            &&& final(limiter).cleaned_at() == old(limiter).cleaned_at()
            &&& final(limiter)@.contains_key(other) == old(limiter)@.contains_key(other)
        },
        span(now, old(limiter).cleaned_at()) >= 61_000_000_000 ==> {
            &&& final(limiter).cleaned_at() == now
            &&& old(limiter)@.contains_key(other) ==> exists|out: Refill| #[trigger]
                may_find(*old(limiter), old(limiter)@[other], now, out) && out.below_max
                    == final(limiter)@.contains_key(other)
        },
{
    let (pre, post) = (*limiter, *final(limiter));
    let (kept, out) = choose|kept: Map<IpAddr, TokenBucket>, out: Refill|
        pre.sweeps(now, kept) && pre.refills(pre.bucket_of(kept, ip, now), now, out) && r == (
        out.spent is Some) && #[trigger] pre.becomes(post, kept, ip, now, out);
    assert(post@.contains_key(other) == kept.contains_key(other));
    if pre.cleanup_due(now) && pre@.contains_key(other) {
        if kept.contains_key(other) {
            let found = choose|found: Refill| #[trigger]
                pre.refills(pre@[other], now, found) && found.below_max;
            assert(may_find(pre, pre@[other], now, found));
        } else {
            assert(pre@.contains_key(other) && !kept.contains_key(other));
            let found = choose|found: Refill| #[trigger]
                pre.refills(pre@[other], now, found) && !found.below_max;
            assert(may_find(pre, pre@[other], now, found));
        }
    }
}

/// The first two requests of a client within the first minute of a limiter, with one of another
/// client in between: the first is decided by a full bucket, and the second by what the first
/// one left and the time between them. The other client makes no difference.
pub proof fn law_first_two_requests<F: Fn(u64, u128, u64, u64) -> Refill>(
    max: u64,
    rate: u64,
    arith: F,
    one: &mut RateLimiter<F>,
    ip: IpAddr,
    now: u128,
    r: bool,
    two: &mut RateLimiter<F>,
    other: IpAddr,
    between: u128,
    whatever: bool,
    three: &mut RateLimiter<F>,
    later: u128,
    again: bool,
)
    requires
        call_ensures(RateLimiter::<F>::new, (max, rate, arith), *old(one)),
        call_ensures(RateLimiter::<F>::filter_at, (one, ip, now), r),
        *old(two) == *final(one),
        call_ensures(RateLimiter::<F>::filter_at, (two, other, between), whatever),
        *old(three) == *final(two),
        call_ensures(RateLimiter::<F>::filter_at, (three, ip, later), again),
        ip != other,
        now <= between <= later < 61_000_000_000,
    ensures
        exists|first: Refill, second: Refill|
            #![trigger call_ensures(arith, (max, 0u128, rate, max), first),
                call_ensures(arith, (left_over(first), (later - now) as u128, rate, max), second)]
            call_ensures(arith, (max, 0u128, rate, max), first) && r == (first.spent is Some)
                && call_ensures(
                arith,
                (left_over(first), (later - now) as u128, rate, max),
                second,
            ) && again == (second.spent is Some),
{
    law_own_bucket_decides(one, ip, now, r);
    law_buckets_are_looked_over(one, ip, now, r, other);
    law_own_bucket_decides(two, other, between, whatever);
    law_buckets_are_looked_over(two, other, between, whatever, ip);
    law_own_bucket_decides(three, ip, later, again);
    let (s0, s1, s2) = (*one, *final(one), *final(two));
    let (b1, first) = choose|bucket: TokenBucket, out: Refill| #[trigger]
        may_find(s0, bucket, now, out) && r == (out.spent is Some) && s1@.contains_key(ip)
            && s1@[ip] == (TokenBucket { tokens: left_over(out), last_refill: now }) && bucket == (
        TokenBucket { tokens: s0.capacity(), last_refill: now });
    assert(s2@[ip] == s1@[ip]);
    let (b2, second) = choose|bucket: TokenBucket, out: Refill| #[trigger]
        may_find(s2, bucket, later, out) && again == (out.spent is Some) && bucket == s2@[ip];
    assert(call_ensures(arith, (max, 0u128, rate, max), first));
    assert(call_ensures(
        arith,
        (left_over(first), (later - now) as u128, rate, max),
        second,
    ));
}

/// A request that is decided by the clock is decided at some moment that the clock shows, as one
/// at that moment is.
pub proof fn law_limits_by_the_clock<F: Fn(u64, u128, u64, u64) -> Refill>(
    limiter: &mut RateLimiter<F>,
    ip: IpAddr,
    r: bool,
)
    requires
        call_ensures(RateLimiter::<F>::filter, (limiter, ip), r),
        !old(limiter)@.contains_key(ip),
    ensures
        exists|now: u128, out: Refill|
            #![trigger old(limiter).timed_by().shows(now),
                call_ensures(
                    old(limiter).arithmetic(),
                    (old(limiter).capacity(), 0u128, old(limiter).rate(), old(limiter).capacity()),
                    out,
                )]
            old(limiter).timed_by().shows(now) && call_ensures(
                old(limiter).arithmetic(),
                (
                    old(limiter).capacity(),
                    0u128,
                    old(limiter).rate(),
                    old(limiter).capacity(),
                ),
                out,
            ) && r == (out.spent is Some) && final(limiter)@.contains_key(ip)
                && final(limiter)@[ip] == (TokenBucket {
                tokens: left_over(out),
                last_refill: now,
            }),
{
    let (pre, post) = (*limiter, *final(limiter));
    let now = choose|now: u128|
        pre.timed_by().shows(now) && #[trigger] pre.filters(ip, now, post, r);
    let (kept, out) = choose|kept: Map<IpAddr, TokenBucket>, out: Refill|
        pre.sweeps(now, kept) && pre.refills(pre.bucket_of(kept, ip, now), now, out) && r == (
        out.spent is Some) && #[trigger] pre.becomes(post, kept, ip, now, out);
    assert(!kept.contains_key(ip));
    assert(pre.timed_by().shows(now));
    assert(call_ensures(
        pre.arithmetic(),
        (pre.capacity(), 0u128, pre.rate(), pre.capacity()),
        out,
    ));
}

/// As a filter, a limiter never changes a connection, and decides on it by its IP address.
pub proof fn law_limiter_as_a_filter<F: Fn(u64, u128, u64, u64) -> Refill>(
    limiter: &mut RateLimiter<F>,
    ctx: &mut ConnectionContext,
    r: bool,
)
    requires
        call_ensures(RateLimiter::<F>::handle, (limiter, ctx), r),
    ensures
        *final(ctx) == *old(ctx),
        final(limiter)@.contains_key(old(ctx).client_ip),
        exists|now: u128|
            old(limiter).timed_by().shows(now) && #[trigger] old(limiter).filters(
                old(ctx).client_ip,
                now,
                *final(limiter),
                r,
            ),
{
}

/// Each filter has a name of its own, also as a stage of an intake.
pub proof fn law_filters_have_names<F: Fn(u64, u128, u64, u64) -> Refill>(
    limiter: RateLimiter<F>,
    first: &'static str,
    balancer: LoadBalancer,
    second: &'static str,
    stage: Stage<F>,
    name: &'static str,
)
    requires
        call_ensures(RateLimiter::<F>::name, (&limiter,), first),
        call_ensures(LoadBalancer::name, (&balancer,), second),
        call_ensures(Stage::<F>::name, (&stage,), name),
    ensures
        first@ == "RateLimiter"@,
        second@ == "LoadBalancer"@,
        stage is Limiter ==> name@ == "RateLimiter"@,
        stage is Balancer ==> name@ == "LoadBalancer"@,
{
}

/// A connection starts with the address of its client and without a backend.
pub proof fn law_new_connection(ip: IpAddr, ctx: ConnectionContext)
    requires
        call_ensures(ConnectionContext::new, (ip,), ctx),
    ensures
        ctx.client_ip == ip,
        ctx.target_backend is None,
{
}

/// A stage of an intake stays what it is. A limiter decides by the bucket of the client and leaves
/// the connection as it is; a balancer takes a backend for the connection, or rejects it where
/// there is none to take.
pub proof fn law_stages_are_filters<F: Fn(u64, u128, u64, u64) -> Refill>(
    stage: &mut Stage<F>,
    ctx: &mut ConnectionContext,
    r: bool,
)
    requires
        call_ensures(Stage::<F>::handle, (stage, ctx), r),
    ensures
        *old(stage) is Limiter <==> *final(stage) is Limiter,
        final(ctx).client_ip == old(ctx).client_ip,
        *old(stage) is Limiter ==> {
            let limiter = old(stage)->Limiter_0;
            &&& *final(ctx) == *old(ctx)
            &&& exists|now: u128|
                limiter.timed_by().shows(now) && #[trigger] limiter.filters(
                    old(ctx).client_ip,
                    now,
                    final(stage)->Limiter_0,
                    r,
                )
        },
        *old(stage) is Balancer ==> {
            let lb = old(stage)->Balancer_0;
            &&& r ==> final(ctx).target_backend is Some
            &&& !r ==> *final(ctx) == *old(ctx)
            &&& exists|now: u128, draw: usize, backend: Option<Seq<char>>|
                lb.clock.shows(now) && #[trigger] takes(
                    lb,
                    now,
                    draw,
                    backend,
                    final(stage)->Balancer_0,
                ) && (r ==> backend == opt_text(final(ctx).target_backend)) && (!r ==> backend
                    is None)
        },
{
    if *stage is Balancer {
        let (pre, post) = (stage->Balancer_0, final(stage)->Balancer_0);
        assert(LoadBalancer::handles(pre, *ctx, post, *final(ctx), r));
        let (now, draw) = choose|now: u128, draw: usize|
            pre.clock.shows(now) && pre@.drawable(now, draw) && post@ == pre@.after_choice(now) && (
            match #[trigger] pre@.chosen(now, draw) {
                Some(address) => r && final(ctx).client_ip == ctx.client_ip && opt_text(
                    final(ctx).target_backend,
                ) == Some(address),
                None => !r && *final(ctx) == *ctx,
            });
        lemma_takes(pre, now, draw, post);
        assert(takes(pre, now, draw, pre@.chosen(now, draw), post));
    }
}

/// The connection on its way through the first `n` filters: what each of them was handed is what
/// the one before left.
proof fn lemma_way<M: Middleware>(
    pre: Seq<M>,
    before: ConnectionContext,
    post: Seq<M>,
    after: ConnectionContext,
    n: nat,
) -> (way: Seq<ConnectionContext>)
    requires
        passes(pre, before, post, after, n),
    ensures
        way.len() == n + 1,
        way[0] == before,
        way[n as int] == after,
        forall|k: int|
            0 <= k < n ==> M::handles(
                pre[k],
                #[trigger] way[k],
                post[k],
                way[k + 1],
                true,
            ),
    decreases n,
{
    if n == 0 {
        seq![before]
    } else {
        let mid = choose|mid: ConnectionContext|
            passes(pre, before, post, mid, (n - 1) as nat) && #[trigger] M::handles(
                pre[n - 1],
                mid,
                post[n - 1],
                after,
                true,
            );
        let shorter = lemma_way(pre, before, post, mid, (n - 1) as nat);
        let way = shorter.push(after);
        assert forall|k: int| 0 <= k < n implies M::handles(
            pre[k],
            #[trigger] way[k],
            post[k],
            way[k + 1],
            true,
        ) by {
            if k < n - 1 {
                assert(M::handles(pre[k], shorter[k], post[k], shorter[k + 1], true));
            }
        }
        way
    }
}

/// A connection that comes through a chain was accepted by every filter of it, in order, each
/// handed what the one before left, and it started with the client's address and no backend.
pub proof fn law_all_filters_accept<M: Middleware>(
    chain: &mut MiddlewareChain<M>,
    ip: IpAddr,
    ctx: ConnectionContext,
)
    requires
        call_ensures(
            MiddlewareChain::<M>::execute,
            (chain, ip),
            Ok::<ConnectionContext, &'static str>(ctx),
        ),
    ensures
        final(chain).middlewares@.len() == old(chain).middlewares@.len(),
        exists|way: Seq<ConnectionContext>|
            #![trigger way.len()]
            way.len() == old(chain).middlewares@.len() + 1 && way[0].client_ip == ip
                && way[0].target_backend is None && way.last() == ctx && forall|k: int|
                0 <= k < old(chain).middlewares@.len() ==> M::handles(
                    old(chain).middlewares@[k],
                    #[trigger] way[k],
                    final(chain).middlewares@[k],
                    way[k + 1],
                    true,
                ),
{
    let way = lemma_way(
        chain.middlewares@,
        ConnectionContext::fresh(ip),
        final(chain).middlewares@,
        ctx,
        chain.middlewares@.len(),
    );
    assert(way.len() == chain.middlewares@.len() + 1);
}

/// A connection that does not come through a chain was rejected by the filter that is named:
/// those before it accepted it, in order, and those behind it were not asked.
pub proof fn law_first_rejection_counts<M: Middleware>(
    chain: &mut MiddlewareChain<M>,
    ip: IpAddr,
    name: &'static str,
)
    requires
        call_ensures(
            MiddlewareChain::<M>::execute,
            (chain, ip),
            Err::<ConnectionContext, &'static str>(name),
        ),
    ensures
        final(chain).middlewares@.len() == old(chain).middlewares@.len(),
        exists|way: Seq<ConnectionContext>, i: int|
            #![trigger way.len(), old(chain).middlewares@[i]]
            0 <= i < old(chain).middlewares@.len() && name@ == old(chain).middlewares@[i].label()
                && way.len() == i + 2 && way[0].client_ip == ip && way[0].target_backend is None
                && (forall|k: int|
                0 <= k < i ==> M::handles(
                    old(chain).middlewares@[k],
                    #[trigger] way[k],
                    final(chain).middlewares@[k],
                    way[k + 1],
                    true,
                )) && M::handles(
                old(chain).middlewares@[i],
                way[i],
                final(chain).middlewares@[i],
                way[i + 1],
                false,
            ) && (forall|k: int|
                i < k < old(chain).middlewares@.len() ==> final(chain).middlewares@[k]
                    == #[trigger] old(chain).middlewares@[k]),
{
    let (pre, post) = (chain.middlewares@, final(chain).middlewares@);
    let start = ConnectionContext::fresh(ip);
    let i = choose|i: int| #[trigger] rejects(pre, start, post, i) && name@ == pre[i].label();
    let (mid, after) = choose|mid: ConnectionContext, after: ConnectionContext|
        passes(pre, start, post, mid, i as nat) && #[trigger] M::handles(
            pre[i],
            mid,
            post[i],
            after,
            false,
        );
    let shorter = lemma_way(pre, start, post, mid, i as nat);
    let way = shorter.push(after);
    assert(way.len() == i + 2);
    assert forall|k: int| 0 <= k < i implies M::handles(
        pre[k],
        #[trigger] way[k],
        post[k],
        way[k + 1],
        true,
    ) by {
        assert(M::handles(pre[k], shorter[k], post[k], shorter[k + 1], true));
    }
    assert(pre[i] == chain.middlewares@[i]);
}

/// A filter that is added stands behind all others; a new chain has none.
pub proof fn law_filters_are_added_at_the_end<M: Middleware>(
    empty: MiddlewareChain<M>,
    chain: &mut MiddlewareChain<M>,
    filter: M,
)
    requires
        call_ensures(MiddlewareChain::<M>::new, (), empty),
        call_ensures(MiddlewareChain::<M>::add, (chain, filter), ()),
    ensures
        empty.middlewares@.len() == 0,
        final(chain).middlewares@.len() == old(chain).middlewares@.len() + 1,
        final(chain).middlewares@.last() == filter,
        final(chain).middlewares@.drop_last() == old(chain).middlewares@,
{
}

} // verus!
