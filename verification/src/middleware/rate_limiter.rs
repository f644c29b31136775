//! A token bucket for each client.
use crate::addr::IpAddr;
use crate::clock::{since, span_since, Clock, NANOS_PER_SEC};
use crate::config::RateLimitConfig;
use crate::keyed::{
    keyed, keys_unique, lemma_keyed, lemma_keyed_push, lemma_keyed_update,
};
use crate::middleware::{ConnectionContext, Middleware};
use vstd::prelude::*;

verus! {

/// Buckets are looked over for full ones when more than this many seconds have passed since
/// the last time.
pub const CLEANUP_SECS: u128 = 60;

/// A number of tokens and the time at which it was last brought up to date. The number is
/// carried as the bits of a double precision number.
#[derive(Debug, Clone, Copy, PartialEq, Eq, Structural)]
pub struct TokenBucket {
    pub tokens: u64,
    pub last_refill: u128,
}

/// What the arithmetic on tokens finds of a bucket that is brought up to date.
#[derive(Debug, Clone, Copy, PartialEq, Eq, Structural)]
pub struct Refill {
    /// The tokens after refilling.
    pub tokens: u64,
    /// Whether that is less than the bucket can hold.
    pub below_max: bool,
    /// The tokens after one was taken, where there was one to take.
    pub spent: Option<u64>,
}

/// Limits the rate of requests of each client. The arithmetic on tokens is `arith`: from the
/// tokens in a bucket, the nanoseconds since it was brought up to date, the tokens that come
/// in per second and the tokens that it can hold, it finds what is in the bucket now.
pub struct RateLimiter<F> {
    max_requests: u64,
    refill_rate: u64,
    arith: F,
    buckets: Vec<(IpAddr, TokenBucket)>,
    last_cleanup: u128,
    clock: Clock,
}

impl<F> View for RateLimiter<F> {
    type V = Map<IpAddr, TokenBucket>;

    closed spec fn view(&self) -> Map<IpAddr, TokenBucket> {
        keyed(self.buckets@)
    }
}

impl<F> RateLimiter<F> {
    /// The tokens that a bucket can hold.
    pub closed spec fn capacity(&self) -> u64 {
        self.max_requests
    }

    /// The tokens that come in per second.
    pub closed spec fn rate(&self) -> u64 {
        self.refill_rate
    }

    /// The arithmetic on tokens.
    pub closed spec fn arithmetic(&self) -> F {
        self.arith
    }

    /// When the buckets were last looked over.
    pub closed spec fn cleaned_at(&self) -> u128 {
        self.last_cleanup
    }

    /// The clock by which requests are timed.
    pub closed spec fn timed_by(&self) -> Clock {
        self.clock
    }

    /// No client has two buckets.
    pub closed spec fn wf(&self) -> bool {
        keys_unique(self.buckets@)
    }

    /// Whether the buckets are looked over at `now`.
    pub open spec fn cleanup_due(&self, now: u128) -> bool {
        since(now, self.cleaned_at()) / NANOS_PER_SEC > CLEANUP_SECS
    }
}

/// Whether `limiter` is what `limit` asks for: a limiter without buckets, or none.
pub open spec fn asked_for<F>(
    limit: Option<RateLimitConfig>,
    arith: F,
    limiter: Option<RateLimiter<F>>,
) -> bool {
    match limit {
        Some(limit) => {
            &&& limiter matches Some(l)
            &&& l@ == Map::<IpAddr, TokenBucket>::empty()
            &&& l.capacity() == limit.max_requests
            &&& l.rate() == limit.refill_rate
            &&& l.arithmetic() == arith
            &&& l.cleaned_at() == 0
        },
        None => limiter is None,
    }
}

impl<F: Fn(u64, u128, u64, u64) -> Refill> RateLimiter<F> {
    /// The arithmetic answers whatever it is asked.
    pub open spec fn total(&self) -> bool {
        forall|tokens: u64, elapsed: u128, rate: u64, max: u64|
            call_requires(self.arithmetic(), (tokens, elapsed, rate, max))
    }

    /// Whether the arithmetic may find `out` of `bucket` at `now`.
    pub open spec fn refills(&self, bucket: TokenBucket, now: u128, out: Refill) -> bool {
        call_ensures(
            self.arithmetic(),
            (bucket.tokens, since(now, bucket.last_refill), self.rate(), self.capacity()),
            out,
        )
    }

    /// Whether looking over the buckets at `now` may leave `kept` of them: where it is not due
    /// all are kept, and where it is due exactly those that are not full, each as it was.
    pub open spec fn sweeps(&self, now: u128, kept: Map<IpAddr, TokenBucket>) -> bool {
        if self.cleanup_due(now) {
            &&& forall|ip: IpAddr| #[trigger]
                kept.contains_key(ip) ==> self@.contains_key(ip) && kept[ip] == self@[ip]
                    && exists|out: Refill| #[trigger]
                    self.refills(self@[ip], now, out) && out.below_max
            &&& forall|ip: IpAddr| #[trigger]
                self@.contains_key(ip) && !kept.contains_key(ip) ==> exists|out: Refill| #[trigger]
                    self.refills(self@[ip], now, out) && !out.below_max
        } else {
            kept == self@
        }
    }

    /// The bucket of a client among those that were kept; a client without one gets a bucket
    /// that is full.
    pub open spec fn bucket_of(
        &self,
        kept: Map<IpAddr, TokenBucket>,
        client_ip: IpAddr,
        now: u128,
    ) -> TokenBucket {
        if kept.contains_key(client_ip) {
            kept[client_ip]
        } else {
            TokenBucket { tokens: self.capacity(), last_refill: now }
        }
    }

    /// The limiter `post` that `self` becomes when the buckets in `kept` are kept at `now` and
    /// the arithmetic finds `out` of the client's bucket.
    pub open spec fn becomes(
        &self,
        post: Self,
        kept: Map<IpAddr, TokenBucket>,
        client_ip: IpAddr,
        now: u128,
        out: Refill,
    ) -> bool {
        &&& post@ == kept.insert(
            client_ip,
            TokenBucket {
                tokens: match out.spent {
                    Some(t) => t,
                    None => out.tokens,
                },
                last_refill: now,
            },
        )
        &&& post.cleaned_at() == if self.cleanup_due(now) {
            now
        } else {
            self.cleaned_at()
        }
        &&& post.capacity() == self.capacity()
        &&& post.rate() == self.rate()
        &&& post.arithmetic() == self.arithmetic()
        &&& post.timed_by() == self.timed_by()
    }

    /// Whether the limiter may let a request of `client_ip` at `now` pass (`accepted`) or not,
    /// and become `post`: the request passes exactly where the client's bucket, brought up to
    /// date, holds a token, which is then taken.
    pub open spec fn filters(
        &self,
        client_ip: IpAddr,
        now: u128,
        post: Self,
        accepted: bool,
    ) -> bool {
        exists|kept: Map<IpAddr, TokenBucket>, out: Refill|
            self.sweeps(now, kept) && self.refills(
                self.bucket_of(kept, client_ip, now),
                now,
                out,
            ) && accepted == (out.spent is Some) && #[trigger] self.becomes(
                post,
                kept,
                client_ip,
                now,
                out,
            )
    }

    /// A limiter without any buckets, whose clock starts now.
    pub fn new(max_requests: u64, refill_rate: u64, arith: F) -> (r: Self)
        ensures
            r.wf(),
            r@ == Map::<IpAddr, TokenBucket>::empty(),
            r.capacity() == max_requests,
            r.rate() == refill_rate,
            r.arithmetic() == arith,
            r.cleaned_at() == 0,
    {
        RateLimiter {
            max_requests,
            refill_rate,
            arith,
            buckets: Vec::new(),
            last_cleanup: 0,
            clock: Clock::start(),
        }
    }

    fn refill(&self, bucket: TokenBucket, now: u128) -> (r: Refill)
        requires
            self.total(),
        ensures
            self.refills(bucket, now, r),
    {
        assert(self.arith == self.arithmetic());
        (self.arith)(
            bucket.tokens,
            span_since(now, bucket.last_refill),
            self.refill_rate,
            self.max_requests,
        )
    }

    /// Drops the buckets that are full at `now`.
    fn sweep(&mut self, now: u128)
        requires
            old(self).wf(),
            old(self).total(),
            old(self).cleanup_due(now),
        ensures
            final(self).wf(),
            old(self).sweeps(now, final(self)@),
            final(self).cleaned_at() == now,
            final(self).capacity() == old(self).capacity(),
            final(self).rate() == old(self).rate(),
            final(self).arithmetic() == old(self).arithmetic(),
            final(self).timed_by() == old(self).timed_by(),
    {
        let ghost pre = *self;
        let ghost all = self.buckets@;
        let mut kept: Vec<(IpAddr, TokenBucket)> = Vec::new();
        proof {
            lemma_keyed(all);
        }
        for i in 0..self.buckets.len()
            invariant
                *self == pre,
                all == self.buckets@,
                pre.total(),
                keys_unique(all),
                keys_unique(kept@),
                forall|j: int|
                    0 <= j < all.len() ==> pre@.contains_key(#[trigger] all[j].0)
                        && pre@[all[j].0] == all[j].1,
                forall|ip: IpAddr| #[trigger]
                    keyed(kept@).contains_key(ip) ==> exists|j: int|
                        0 <= j < i && #[trigger] all[j].0 == ip && keyed(kept@)[ip] == all[j].1
                            && exists|out: Refill| #[trigger]
                            pre.refills(all[j].1, now, out) && out.below_max,
                forall|j: int|
                    0 <= j < i && !keyed(kept@).contains_key(#[trigger] all[j].0) ==> exists|
                        out: Refill,
                    | #[trigger]
                        pre.refills(all[j].1, now, out) && !out.below_max,
        {
            let entry = self.buckets[i];
            let out = self.refill(entry.1, now);
            let ghost before = kept@;
            assert(pre.refills(all[i as int].1, now, out));
            proof {
                if keyed(before).contains_key(entry.0) {
                    let j = choose|j: int| 0 <= j < i && #[trigger] all[j].0 == entry.0;
                    assert(all[j].0 != all[i as int].0);
                }
            }
            if out.below_max {
                proof {
                    lemma_keyed_push(before, entry.0, entry.1);
                }
                kept.push(entry);
                assert(kept@ =~= before.push((entry.0, entry.1)));
            }
            assert forall|ip: IpAddr| #[trigger] keyed(kept@).contains_key(ip) implies exists|
                j: int,
            |
                0 <= j < i + 1 && #[trigger] all[j].0 == ip && keyed(kept@)[ip] == all[j].1
                    && exists|out: Refill| #[trigger]
                    pre.refills(all[j].1, now, out) && out.below_max by {
                if ip == entry.0 {
                    assert(all[i as int].0 == ip);
                } else {
                    assert(keyed(before).contains_key(ip));
                    let j = choose|j: int|
                        0 <= j < i && #[trigger] all[j].0 == ip && keyed(before)[ip] == all[j].1
                            && exists|out: Refill| #[trigger]
                            pre.refills(all[j].1, now, out) && out.below_max;
                    assert(all[j].0 == ip);
                }
            }
        }
        proof {
            assert forall|ip: IpAddr| #[trigger]
                pre@.contains_key(ip) && !keyed(kept@).contains_key(ip) implies exists|
                out: Refill,
            | #[trigger]
                pre.refills(pre@[ip], now, out) && !out.below_max by {
                let j = choose|j: int| 0 <= j < all.len() && #[trigger] all[j].0 == ip;
                assert(all[j].0 == ip);
            }
        }
        self.buckets = kept;
        self.last_cleanup = now;
    }

    fn position(&self, client_ip: IpAddr) -> (r: Option<usize>)
        requires
            self.wf(),
        ensures
            match r {
                Some(i) => i < self.buckets.len() && self.buckets[i as int].0 == client_ip
                    && self@.contains_key(client_ip) && self@[client_ip]
                    == self.buckets[i as int].1,
                None => !self@.contains_key(client_ip),
            },
    {
        proof {
            lemma_keyed(self.buckets@);
        }
        for i in 0..self.buckets.len()
            invariant
                forall|j: int| 0 <= j < i ==> #[trigger] self.buckets[j].0 != client_ip,
                forall|j: int|
                    0 <= j < self.buckets.len() ==> self@.contains_key(
                        #[trigger] self.buckets[j].0,
                    ) && self@[self.buckets[j].0] == self.buckets[j].1,
        {
            if self.buckets[i].0 == client_ip {
                return Some(i);
            }
        }
        None
    }

    /// Decides on a request of `client_ip` at `now`.
    pub fn filter_at(&mut self, client_ip: IpAddr, now: u128) -> (r: bool)
        requires
            old(self).wf(),
            old(self).total(),
        ensures
            final(self).wf(),
            final(self).total(),
            old(self).filters(client_ip, now, *final(self), r),
    {
        let ghost pre = *self;
        if span_since(now, self.last_cleanup) / NANOS_PER_SEC > CLEANUP_SECS {
            self.sweep(now);
        }
        let ghost kept = self@;
        assert(pre.sweeps(now, kept));
        let at: usize = match self.position(client_ip) {
            Some(i) => i,
            None => {
                let ghost before = self.buckets@;
                let full = TokenBucket { tokens: self.max_requests, last_refill: now };
                self.buckets.push((client_ip, full));
                proof {
                    lemma_keyed_push(before, client_ip, full);
                }
                self.buckets.len() - 1
            },
        };
        let ghost entries = self.buckets@;
        let bucket = self.buckets[at].1;
        assert(bucket == pre.bucket_of(kept, client_ip, now));
        assert(self.arithmetic() == pre.arithmetic());
        let out = self.refill(bucket, now);
        assert(pre.refills(bucket, now, out));
        let (tokens, accepted): (u64, bool) = match out.spent {
            Some(t) => (t, true),
            None => (out.tokens, false),
        };
        let updated = TokenBucket { tokens, last_refill: now };
        self.buckets[at] = (client_ip, updated);
        proof {
            lemma_keyed_update(entries, at as int, updated);
            assert(keyed(entries).insert(client_ip, updated) =~= kept.insert(client_ip, updated));
            assert(pre.becomes(*self, kept, client_ip, now, out));
        }
        accepted
    }

    /// Decides on a request of `client_ip` now.
    pub fn filter(&mut self, client_ip: IpAddr) -> (r: bool)
        requires
            old(self).wf(),
            old(self).total(),
        ensures
            final(self).wf(),
            final(self).total(),
            exists|now: u128|
                old(self).timed_by().shows(now) && #[trigger] old(self).filters(
                    client_ip,
                    now,
                    *final(self),
                    r,
                ),
    {
        let now = self.clock.read();
        self.filter_at(client_ip, now)
    }
}

impl<F: Fn(u64, u128, u64, u64) -> Refill> Middleware for RateLimiter<F> {
    open spec fn ready(&self) -> bool {
        self.wf() && self.total()
    }

    open spec fn label(&self) -> Seq<char> {
        "RateLimiter"@
    }

    open spec fn handles(
        pre: Self,
        before: ConnectionContext,
        post: Self,
        after: ConnectionContext,
        accepted: bool,
    ) -> bool {
        &&& after == before
        &&& exists|now: u128|
            pre.timed_by().shows(now) && #[trigger] pre.filters(
                before.client_ip,
                now,
                post,
                accepted,
            )
    }

    fn name(&self) -> (r: &'static str) {
        "RateLimiter"
    }

    fn handle(&mut self, ctx: &mut ConnectionContext) -> (r: bool) {
        self.filter(ctx.client_ip)
    }
}

/// A request of one client leaves the buckets of all others as they are, except that buckets
/// which are full are dropped when they are looked over.
pub proof fn law_clients_are_independent<F: Fn(u64, u128, u64, u64) -> Refill>(
    pre: RateLimiter<F>,
    client_ip: IpAddr,
    now: u128,
    post: RateLimiter<F>,
    accepted: bool,
    other: IpAddr,
)
    requires
        pre.filters(client_ip, now, post, accepted),
        other != client_ip,
    ensures
        post@.contains_key(other) ==> pre@.contains_key(other) && post@[other] == pre@[other],
        pre@.contains_key(other) && !post@.contains_key(other) ==> pre.cleanup_due(now) && exists|
            out: Refill,
        | #[trigger]
            pre.refills(pre@[other], now, out) && !out.below_max,
{
}

/// A client that has no bucket is decided on by a full one, whether it never had one or had
/// one that was dropped.
pub proof fn law_unknown_client_starts_full<F: Fn(u64, u128, u64, u64) -> Refill>(
    pre: RateLimiter<F>,
    client_ip: IpAddr,
    now: u128,
    post: RateLimiter<F>,
    accepted: bool,
)
    requires
        pre.filters(client_ip, now, post, accepted),
        !pre@.contains_key(client_ip),
    ensures
        exists|out: Refill| #[trigger]
            pre.refills(TokenBucket { tokens: pre.capacity(), last_refill: now }, now, out)
                && accepted == (out.spent is Some),
{
    let (kept, out) = choose|kept: Map<IpAddr, TokenBucket>, out: Refill|
        pre.sweeps(now, kept) && pre.refills(pre.bucket_of(kept, client_ip, now), now, out)
            && accepted == (out.spent is Some) && #[trigger] pre.becomes(
            post,
            kept,
            client_ip,
            now,
            out,
        );
    assert(!kept.contains_key(client_ip));
    assert(pre.refills(TokenBucket { tokens: pre.capacity(), last_refill: now }, now, out));
}

/// A client that has a bucket and whose bucket is not looked over is decided on by it: a token
/// is taken where the request passes, and where it does not the refilled bucket is kept.
pub proof fn law_known_client_spends<F: Fn(u64, u128, u64, u64) -> Refill>(
    pre: RateLimiter<F>,
    client_ip: IpAddr,
    now: u128,
    post: RateLimiter<F>,
    accepted: bool,
)
    requires
        pre.filters(client_ip, now, post, accepted),
        pre@.contains_key(client_ip),
        !pre.cleanup_due(now),
    ensures
        exists|out: Refill| #[trigger]
            pre.refills(pre@[client_ip], now, out) && post@.contains_key(client_ip)
                && post@[client_ip].last_refill == now && (match out.spent {
                Some(rest) => accepted && post@[client_ip].tokens == rest,
                None => !accepted && post@[client_ip].tokens == out.tokens,
            }),
{
    let (kept, out) = choose|kept: Map<IpAddr, TokenBucket>, out: Refill|
        pre.sweeps(now, kept) && pre.refills(pre.bucket_of(kept, client_ip, now), now, out)
            && accepted == (out.spent is Some) && #[trigger] pre.becomes(
            post,
            kept,
            client_ip,
            now,
            out,
        );
    assert(pre.refills(pre@[client_ip], now, out));
}

/// A request that a limiter has decided on.
pub struct Request {
    pub client_ip: IpAddr,
    pub now: u128,
    pub accepted: bool,
}

/// Whether a limiter that had no buckets at first may have decided on `requests`, one behind the
/// other and none before an earlier one, and have been `states` before, between and after them.
pub open spec fn history<F: Fn(u64, u128, u64, u64) -> Refill>(
    states: Seq<RateLimiter<F>>,
    requests: Seq<Request>,
) -> bool {
    &&& states.len() == requests.len() + 1
    &&& states[0]@ == Map::<IpAddr, TokenBucket>::empty()
    &&& forall|k: int|
        0 <= k < requests.len() ==> states[k].filters(
            (#[trigger] requests[k]).client_ip,
            requests[k].now,
            states[k + 1],
            requests[k].accepted,
        )
    &&& forall|j: int, k: int|
        0 <= j <= k < requests.len() ==> (#[trigger] requests[j]).now <= (
        #[trigger] requests[k]).now
}

/// How many of the requests from `i` up to `j` are of `client_ip` and were accepted.
pub open spec fn accepted_between(
    requests: Seq<Request>,
    client_ip: IpAddr,
    i: int,
    j: int,
) -> nat
    decreases j - i,
{
    if j <= i {
        0
    } else if requests[j - 1].client_ip == client_ip && requests[j - 1].accepted {
        accepted_between(requests, client_ip, i, j - 1) + 1
    } else {
        accepted_between(requests, client_ip, i, j - 1)
    }
}

/// Whether the arithmetic of a limiter is that of numbers, and does not round in favour of
/// clients. `value` is what the bits of a number of tokens stand for, in a unit so small that
/// all amounts are whole: `token` is one token, and `per_nano` comes in per nanosecond.
pub open spec fn counts_tokens<F: Fn(u64, u128, u64, u64) -> Refill>(
    limiter: RateLimiter<F>,
    value: spec_fn(u64) -> int,
    token: int,
    per_nano: int,
) -> bool {
    let full = value(limiter.capacity());
    &&& token > 0
    &&& per_nano >= 0
    &&& full >= 0
    &&& forall|tokens: u64, elapsed: u128, out: Refill|
        value(tokens) >= 0 && #[trigger] call_ensures(
            limiter.arithmetic(),
            (tokens, elapsed, limiter.rate(), limiter.capacity()),
            out,
        ) ==> {
            &&& 0 <= value(out.tokens) <= full
            &&& value(out.tokens) <= value(tokens) + per_nano * elapsed
            &&& !out.below_max ==> value(out.tokens) == full
            &&& out.spent matches Some(rest) ==> 0 <= value(rest) <= value(out.tokens) - token
        }
}

/// What a client has at `now`, at the most.
spec fn level<F: Fn(u64, u128, u64, u64) -> Refill>(
    limiter: RateLimiter<F>,
    value: spec_fn(u64) -> int,
    per_nano: int,
    client_ip: IpAddr,
    now: u128,
) -> int {
    let full = value(limiter.capacity());
    if limiter@.contains_key(client_ip) {
        let bucket = limiter@[client_ip];
        let came = value(bucket.tokens) + per_nano * since(now, bucket.last_refill);
        if came < full {
            came
        } else {
            full
        }
    } else {
        full
    }
}

/// No bucket holds less than nothing or was brought up to date after `now`.
spec fn settled<F: Fn(u64, u128, u64, u64) -> Refill>(
    limiter: RateLimiter<F>,
    value: spec_fn(u64) -> int,
    now: u128,
) -> bool {
    forall|ip: IpAddr| #[trigger]
        limiter@.contains_key(ip) ==> value(limiter@[ip].tokens) >= 0
            && limiter@[ip].last_refill <= now
}

/// One request takes what it takes from what its client has.
proof fn lemma_level_of_request<F: Fn(u64, u128, u64, u64) -> Refill>(
    pre: RateLimiter<F>,
    request: Request,
    post: RateLimiter<F>,
    value: spec_fn(u64) -> int,
    token: int,
    per_nano: int,
    ip: IpAddr,
)
    requires
        counts_tokens(pre, value, token, per_nano),
        settled(pre, value, request.now),
        pre.filters(request.client_ip, request.now, post, request.accepted),
    ensures
        counts_tokens(post, value, token, per_nano),
        post.capacity() == pre.capacity(),
        settled(post, value, request.now),
        0 <= level(post, value, per_nano, ip, request.now),
        level(post, value, per_nano, ip, request.now) + (if request.client_ip == ip
            && request.accepted {
            token
        } else {
            0
        }) <= level(pre, value, per_nano, ip, request.now),
{
    let now = request.now;
    let client = request.client_ip;
    let full = value(pre.capacity());
    let (kept, out) = choose|kept: Map<IpAddr, TokenBucket>, out: Refill|
        pre.sweeps(now, kept) && pre.refills(pre.bucket_of(kept, client, now), now, out)
            && request.accepted == (out.spent is Some) && #[trigger] pre.becomes(
            post,
            kept,
            client,
            now,
            out,
        );
    assert forall|x: IpAddr| #[trigger] kept.contains_key(x) implies pre@.contains_key(x)
        && kept[x] == pre@[x] by {}
    assert(settled(post, value, now)) by {
        assert forall|x: IpAddr| #[trigger] post@.contains_key(x) implies value(post@[x].tokens)
            >= 0 && post@[x].last_refill <= now by {
            if x != client {
                assert(kept.contains_key(x));
            }
        }
    }
    assert(per_nano * 0 == 0);
    if pre@.contains_key(ip) {
        let bucket = pre@[ip];
        assert(per_nano * since(now, bucket.last_refill) >= 0) by (nonlinear_arith)
            requires
                per_nano >= 0,
                since(now, bucket.last_refill) >= 0,
        ;
        if !kept.contains_key(ip) {
            assert(pre@.contains_key(ip) && !kept.contains_key(ip));
            let swept = choose|swept: Refill| #[trigger]
                pre.refills(bucket, now, swept) && !swept.below_max;
            assert(value(swept.tokens) == full);
            assert(level(pre, value, per_nano, ip, now) == full);
        }
    }
    if ip == client {
        assert(value(out.tokens) <= level(pre, value, per_nano, ip, now));
    }
}

/// What a client has grows no faster than tokens come in.
proof fn lemma_level_grows<F: Fn(u64, u128, u64, u64) -> Refill>(
    limiter: RateLimiter<F>,
    value: spec_fn(u64) -> int,
    per_nano: int,
    ip: IpAddr,
    now: u128,
    later: u128,
)
    requires
        per_nano >= 0,
        settled(limiter, value, now),
        now <= later,
    ensures
        level(limiter, value, per_nano, ip, later) <= level(limiter, value, per_nano, ip, now)
            + per_nano * (later - now),
        level(limiter, value, per_nano, ip, later) <= value(limiter.capacity()),
{
    assert(per_nano * (later - now) >= 0) by (nonlinear_arith)
        requires
            per_nano >= 0,
            later >= now,
    ;
    if limiter@.contains_key(ip) {
        let last = limiter@[ip].last_refill;
        assert(per_nano * (later - last) == per_nano * (now - last) + per_nano * (later - now))
            by (nonlinear_arith);
    }
}

proof fn lemma_history_settled<F: Fn(u64, u128, u64, u64) -> Refill>(
    states: Seq<RateLimiter<F>>,
    requests: Seq<Request>,
    value: spec_fn(u64) -> int,
    token: int,
    per_nano: int,
    k: int,
)
    requires
        history(states, requests),
        counts_tokens(states[0], value, token, per_nano),
        0 <= k <= requests.len(),
    ensures
        counts_tokens(states[k], value, token, per_nano),
        states[k].capacity() == states[0].capacity(),
        k > 0 ==> settled(states[k], value, requests[k - 1].now),
        k < requests.len() ==> settled(states[k], value, requests[k].now),
    decreases k,
{
    if k > 0 {
        lemma_history_settled(states, requests, value, token, per_nano, k - 1);
        let last = requests[k - 1];
        lemma_level_of_request(
            states[k - 1],
            last,
            states[k],
            value,
            token,
            per_nano,
            last.client_ip,
        );
        if k < requests.len() {
            assert(last.now <= requests[k].now);
        }
    }
}

proof fn lemma_spent_and_left<F: Fn(u64, u128, u64, u64) -> Refill>(
    states: Seq<RateLimiter<F>>,
    requests: Seq<Request>,
    value: spec_fn(u64) -> int,
    token: int,
    per_nano: int,
    ip: IpAddr,
    i: int,
    j: int,
)
    requires
        history(states, requests),
        counts_tokens(states[0], value, token, per_nano),
        0 <= i < j <= requests.len(),
    ensures
        0 <= level(states[j], value, per_nano, ip, requests[j - 1].now),
        token * accepted_between(requests, ip, i, j) + level(
            states[j],
            value,
            per_nano,
            ip,
            requests[j - 1].now,
        ) <= value(states[0].capacity()) + per_nano * (requests[j - 1].now - requests[i].now),
    decreases j,
{
    let last = requests[j - 1];
    lemma_history_settled(states, requests, value, token, per_nano, j - 1);
    lemma_level_of_request(states[j - 1], last, states[j], value, token, per_nano, ip);
    let before = accepted_between(requests, ip, i, j - 1);
    assert(token * (before + 1) == token * before + token) by (nonlinear_arith);
    if i < j - 1 {
        lemma_spent_and_left(states, requests, value, token, per_nano, ip, i, j - 1);
        let earlier = requests[j - 2].now;
        let start = requests[i].now;
        assert(earlier <= last.now);
        lemma_level_grows(states[j - 1], value, per_nano, ip, earlier, last.now);
        assert(per_nano * (last.now - start) == per_nano * (earlier - start) + per_nano * (last.now
            - earlier)) by (nonlinear_arith);
    } else {
        lemma_level_grows(states[j - 1], value, per_nano, ip, last.now, last.now);
        assert(token * 0 == 0);
        assert(per_nano * (last.now - last.now) == 0) by (nonlinear_arith);
    }
}

/// In any span of time a client is let through at most as often as a full bucket and the tokens
/// that come in meanwhile allow, whatever it did before and whatever other clients do. So in one
/// moment that is a full bucket, however long the client was idle; and where a full bucket is
/// less than one token, the client is never let through.
pub proof fn law_rate_is_limited<F: Fn(u64, u128, u64, u64) -> Refill>(
    states: Seq<RateLimiter<F>>,
    requests: Seq<Request>,
    value: spec_fn(u64) -> int,
    token: int,
    per_nano: int,
    client_ip: IpAddr,
    i: int,
    j: int,
)
    requires
        history(states, requests),
        counts_tokens(states[0], value, token, per_nano),
        0 <= i < j <= requests.len(),
    ensures
        token * accepted_between(requests, client_ip, i, j) <= value(states[0].capacity())
            + per_nano * (requests[j - 1].now - requests[i].now),
        value(states[0].capacity()) < token ==> accepted_between(requests, client_ip, i, j) == 0,
    decreases j - i,
{
    lemma_spent_and_left(states, requests, value, token, per_nano, client_ip, i, j);
    if value(states[0].capacity()) < token {
        lemma_spent_and_left(states, requests, value, token, per_nano, client_ip, j - 1, j);
        let one = accepted_between(requests, client_ip, j - 1, j);
        assert(accepted_between(requests, client_ip, j - 1, j - 1) == 0);
        assert(per_nano * 0 == 0);
        assert(token * one < token);
        assert(one == 0) by (nonlinear_arith)
            requires
                token * one < token,
                token > 0,
                one >= 0,
        ;
        if i < j - 1 {
            law_rate_is_limited(
                states,
                requests,
                value,
                token,
                per_nano,
                client_ip,
                i,
                j - 1,
            );
        }
    }
}

/// When the requests of a client came.
pub open spec fn times_of(requests: Seq<Request>, client_ip: IpAddr) -> Seq<u128>
    decreases requests.len(),
{
    if requests.len() == 0 {
        Seq::empty()
    } else if requests.last().client_ip == client_ip {
        times_of(requests.drop_last(), client_ip).push(requests.last().now)
    } else {
        times_of(requests.drop_last(), client_ip)
    }
}

/// Which of the requests of a client were accepted.
pub open spec fn answers_to(requests: Seq<Request>, client_ip: IpAddr) -> Seq<bool>
    decreases requests.len(),
{
    if requests.len() == 0 {
        Seq::empty()
    } else if requests.last().client_ip == client_ip {
        answers_to(requests.drop_last(), client_ip).push(requests.last().accepted)
    } else {
        answers_to(requests.drop_last(), client_ip)
    }
}

/// Whether what the arithmetic of a limiter finds of a bucket is `found` of its tokens and of
/// the time since it was brought up to date.
pub open spec fn finds<F: Fn(u64, u128, u64, u64) -> Refill>(
    limiter: RateLimiter<F>,
    found: spec_fn(u64, u128) -> Refill,
) -> bool {
    forall|tokens: u64, elapsed: u128, out: Refill| #[trigger]
        call_ensures(
            limiter.arithmetic(),
            (tokens, elapsed, limiter.rate(), limiter.capacity()),
            out,
        ) ==> out == found(tokens, elapsed)
}

/// Whether a bucket that was full once is as good as a new one, with `capacity` tokens, from
/// then on.
pub open spec fn stays_full(found: spec_fn(u64, u128) -> Refill, capacity: u64) -> bool {
    forall|tokens: u64, elapsed: u128, longer: u128|
        elapsed <= longer && !(#[trigger] found(tokens, elapsed)).below_max ==> #[trigger] found(
            tokens,
            longer,
        ) == found(capacity, 0)
}

/// The bucket of a client whose requests came at `times`, and which of them were accepted, if
/// there is no other client and no bucket is ever dropped.
pub open spec fn alone(
    found: spec_fn(u64, u128) -> Refill,
    capacity: u64,
    times: Seq<u128>,
) -> (Option<TokenBucket>, Seq<bool>)
    decreases times.len(),
{
    if times.len() == 0 {
        (None, Seq::empty())
    } else {
        let (before, answers) = alone(found, capacity, times.drop_last());
        let now = times.last();
        let out = match before {
            Some(bucket) => found(bucket.tokens, since(now, bucket.last_refill)),
            None => found(capacity, 0),
        };
        let tokens = match out.spent {
            Some(rest) => rest,
            None => out.tokens,
        };
        (Some(TokenBucket { tokens, last_refill: now }), answers.push(out.spent is Some))
    }
}

/// Whether a client that would have the bucket `by_itself` if it were alone is treated the same
/// from `now` on: it has that bucket, or has none where a new one is as good.
spec fn treats_as_alone<F: Fn(u64, u128, u64, u64) -> Refill>(
    limiter: RateLimiter<F>,
    found: spec_fn(u64, u128) -> Refill,
    client_ip: IpAddr,
    by_itself: Option<TokenBucket>,
    now: u128,
) -> bool {
    if limiter@.contains_key(client_ip) {
        by_itself == Some(limiter@[client_ip])
    } else {
        match by_itself {
            None => true,
            Some(bucket) => forall|later: u128|
                now <= later ==> #[trigger] found(
                    bucket.tokens,
                    since(later, bucket.last_refill),
                ) == found(limiter.capacity(), 0),
        }
    }
}

/// One request, of the client or of another, leaves the client treated as if it were alone.
proof fn lemma_request_as_if_alone<F: Fn(u64, u128, u64, u64) -> Refill>(
    pre: RateLimiter<F>,
    request: Request,
    post: RateLimiter<F>,
    found: spec_fn(u64, u128) -> Refill,
    client_ip: IpAddr,
    times: Seq<u128>,
    before: u128,
)
    requires
        finds(pre, found),
        stays_full(found, pre.capacity()),
        pre.filters(request.client_ip, request.now, post, request.accepted),
        treats_as_alone(pre, found, client_ip, alone(found, pre.capacity(), times).0, before),
        before <= request.now,
    ensures
        finds(post, found),
        post.capacity() == pre.capacity(),
        request.client_ip != client_ip ==> treats_as_alone(
            post,
            found,
            client_ip,
            alone(found, pre.capacity(), times).0,
            request.now,
        ),
        request.client_ip == client_ip ==> ({
            let (bucket, answers) = alone(found, pre.capacity(), times.push(request.now));
            &&& treats_as_alone(post, found, client_ip, bucket, request.now)
            &&& answers == alone(found, pre.capacity(), times).1.push(request.accepted)
        }),
{
    let now = request.now;
    let by_itself = alone(found, pre.capacity(), times).0;
    let (kept, out) = choose|kept: Map<IpAddr, TokenBucket>, out: Refill|
        pre.sweeps(now, kept) && pre.refills(
            pre.bucket_of(kept, request.client_ip, now),
            now,
            out,
        ) && request.accepted == (out.spent is Some) && #[trigger] pre.becomes(
            post,
            kept,
            request.client_ip,
            now,
            out,
        );
    if kept.contains_key(client_ip) {
        assert(pre@.contains_key(client_ip) && kept[client_ip] == pre@[client_ip]);
    } else if pre@.contains_key(client_ip) {
        assert(pre@.contains_key(client_ip) && !kept.contains_key(client_ip));
        let bucket = pre@[client_ip];
        let swept = choose|swept: Refill| #[trigger]
            pre.refills(bucket, now, swept) && !swept.below_max;
        assert(swept == found(bucket.tokens, since(now, bucket.last_refill)));
        assert forall|later: u128| now <= later implies #[trigger] found(
            bucket.tokens,
            since(later, bucket.last_refill),
        ) == found(pre.capacity(), 0) by {
            assert(since(now, bucket.last_refill) <= since(later, bucket.last_refill));
        }
    }
    if request.client_ip == client_ip {
        assert(times.push(now).drop_last() =~= times);
        match by_itself {
            Some(bucket) => {
                assert(out == found(bucket.tokens, since(now, bucket.last_refill)));
            },
            None => {
                assert(out == found(pre.capacity(), 0));
            },
        }
    } else {
        assert(post@.contains_key(client_ip) == kept.contains_key(client_ip));
    }
}

proof fn lemma_history_as_if_alone<F: Fn(u64, u128, u64, u64) -> Refill>(
    states: Seq<RateLimiter<F>>,
    requests: Seq<Request>,
    found: spec_fn(u64, u128) -> Refill,
    client_ip: IpAddr,
    k: int,
)
    requires
        history(states, requests),
        finds(states[0], found),
        stays_full(found, states[0].capacity()),
        0 <= k <= requests.len(),
    ensures
        finds(states[k], found),
        states[k].capacity() == states[0].capacity(),
        ({
            let (bucket, answers) = alone(
                found,
                states[0].capacity(),
                times_of(requests.take(k), client_ip),
            );
            let now = if k == 0 {
                0
            } else {
                requests[k - 1].now
            };
            &&& treats_as_alone(states[k], found, client_ip, bucket, now)
            &&& answers_to(requests.take(k), client_ip) == answers
        }),
    decreases k,
{
    if k > 0 {
        lemma_history_as_if_alone(states, requests, found, client_ip, k - 1);
        let request = requests[k - 1];
        assert(requests.take(k).drop_last() =~= requests.take(k - 1));
        assert(requests.take(k).last() == request);
        let before = if k == 1 {
            0
        } else {
            requests[k - 2].now
        };
        assert(before <= request.now);
        lemma_request_as_if_alone(
            states[k - 1],
            request,
            states[k],
            found,
            client_ip,
            times_of(requests.take(k - 1), client_ip),
            before,
        );
    } else {
        assert(requests.take(0) =~= Seq::<Request>::empty());
    }
}

/// Over a whole history each client is answered as if it were alone and its bucket were never
/// dropped.
pub proof fn law_clients_are_answered_as_if_alone<F: Fn(u64, u128, u64, u64) -> Refill>(
    states: Seq<RateLimiter<F>>,
    requests: Seq<Request>,
    found: spec_fn(u64, u128) -> Refill,
    client_ip: IpAddr,
)
    requires
        history(states, requests),
        finds(states[0], found),
        stays_full(found, states[0].capacity()),
    ensures
        answers_to(requests, client_ip) == alone(
            found,
            states[0].capacity(),
            times_of(requests, client_ip),
        ).1,
{
    lemma_history_as_if_alone(states, requests, found, client_ip, requests.len() as int);
    assert(requests.take(requests.len() as int) =~= requests);
}

/// No client changes what another is allowed: in two histories of limiters with the same limit
/// in which the requests of a client come at the same times, they get the same answers, whatever
/// other clients do in between and whenever buckets are dropped.
pub proof fn law_others_change_no_answer<F: Fn(u64, u128, u64, u64) -> Refill>(
    states: Seq<RateLimiter<F>>,
    requests: Seq<Request>,
    other_states: Seq<RateLimiter<F>>,
    other_requests: Seq<Request>,
    found: spec_fn(u64, u128) -> Refill,
    client_ip: IpAddr,
)
    requires
        history(states, requests),
        history(other_states, other_requests),
        states[0].capacity() == other_states[0].capacity(),
        finds(states[0], found),
        finds(other_states[0], found),
        stays_full(found, states[0].capacity()),
        times_of(requests, client_ip) == times_of(other_requests, client_ip),
    ensures
        answers_to(requests, client_ip) == answers_to(other_requests, client_ip),
{
    law_clients_are_answered_as_if_alone(states, requests, found, client_ip);
    law_clients_are_answered_as_if_alone(other_states, other_requests, found, client_ip);
}

} // verus!
