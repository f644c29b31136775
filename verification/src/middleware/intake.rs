//! The filters of a service that forwards whole connections or packets: a rate limiter where
//! one is configured, and then the choice of a backend.
use crate::addr::IpAddr;
use crate::config::{opt_text, RateLimitConfig};
use crate::middleware::load_balancer::LoadBalancer;
use crate::middleware::rate_limiter::{asked_for, RateLimiter, Refill};
use crate::middleware::{passes, rejects, ConnectionContext, Middleware, MiddlewareChain};
use vstd::prelude::*;

verus! {

/// One of the filters of an intake.
pub enum Stage<F> {
    Limiter(RateLimiter<F>),
    Balancer(LoadBalancer),
}

impl<F: Fn(u64, u128, u64, u64) -> Refill> Middleware for Stage<F> {
    open spec fn ready(&self) -> bool {
        match self {
            Stage::Limiter(l) => l.ready(),
            Stage::Balancer(b) => b.ready(),
        }
    }

    open spec fn label(&self) -> Seq<char> {
        match self {
            Stage::Limiter(l) => l.label(),
            Stage::Balancer(b) => b.label(),
        }
    }

    open spec fn handles(
        pre: Self,
        before: ConnectionContext,
        post: Self,
        after: ConnectionContext,
        accepted: bool,
    ) -> bool {
        match (pre, post) {
            (Stage::Limiter(p), Stage::Limiter(q)) => RateLimiter::handles(
                p,
                before,
                q,
                after,
                accepted,
            ),
            (Stage::Balancer(p), Stage::Balancer(q)) => LoadBalancer::handles(
                p,
                before,
                q,
                after,
                accepted,
            ),
            _ => false,
        }
    }

    fn name(&self) -> (r: &'static str) {
        match self {
            Stage::Limiter(l) => l.name(),
            Stage::Balancer(b) => b.name(),
        }
    }

    fn handle(&mut self, ctx: &mut ConnectionContext) -> (r: bool) {
        match self {
            Stage::Limiter(l) => l.handle(ctx),
            Stage::Balancer(b) => b.handle(ctx),
        }
    }
}

/// A chain of filters that ends in the choice of a backend.
pub struct Intake<F> {
    chain: MiddlewareChain<Stage<F>>,
}

impl<F: Fn(u64, u128, u64, u64) -> Refill> Intake<F> {
    /// The chain is a rate limiter or nothing, and then a load balancer.
    pub closed spec fn wf(&self) -> bool {
        let stages = self.chain.middlewares@;
        &&& self.chain.ready()
        &&& stages.len() == 1 || (stages.len() == 2 && stages[0] is Limiter)
        &&& stages.last() is Balancer
    }

    /// The rate limiter, where there is one.
    pub closed spec fn limiter(&self) -> Option<RateLimiter<F>> {
        if self.chain.middlewares@.len() == 2 {
            match self.chain.middlewares@[0] {
                Stage::Limiter(l) => Some(l),
                Stage::Balancer(_) => None,
            }
        } else {
            None
        }
    }

    /// The load balancer.
    pub closed spec fn balancer(&self) -> LoadBalancer {
        match self.chain.middlewares@.last() {
            Stage::Balancer(b) => b,
            Stage::Limiter(_) => arbitrary(),
        }
    }

    /// Whether the rate limiter may accept a connection (`accepted`) or reject it, this intake
    /// becoming `post`; without a rate limiter every connection is accepted.
    pub open spec fn limits(&self, client_ip: IpAddr, post: Self, accepted: bool) -> bool {
        match self.limiter() {
            Some(limiter) => post.limiter() is Some && exists|now: u128|
                limiter.timed_by().shows(now) && #[trigger] limiter.filters(
                    client_ip,
                    now,
                    post.limiter()->0,
                    accepted,
                ),
            None => post.limiter() is None && accepted,
        }
    }

    /// Whether the load balancer may choose `backend` now, this intake becoming `post`.
    pub open spec fn routes(&self, post: Self, backend: Option<Seq<char>>) -> bool {
        post.balancer().clock == self.balancer().clock && exists|now: u128, draw: usize|
            self.balancer().clock.shows(now) && self.balancer()@.drawable(now, draw)
                && #[trigger] self.balancer()@.chosen(now, draw) == backend && post.balancer()@
                == self.balancer()@.after_choice(now)
    }

    /// Whether `post` is this intake after it was recorded that the backend `address` answered.
    pub open spec fn notes_success(&self, address: Seq<char>, post: Self) -> bool {
        &&& post.balancer()@ == self.balancer()@.succeeded(address)
        &&& post.balancer().clock == self.balancer().clock
        &&& post.limiter() == self.limiter()
    }

    /// Whether `post` may be this intake after it was recorded now that the backend `address`
    /// did not answer.
    pub open spec fn notes_failure(&self, address: Seq<char>, post: Self) -> bool {
        &&& exists|now: u128|
            self.balancer().clock.shows(now) && post.balancer()@
                == #[trigger] self.balancer()@.failed(address, now)
        &&& post.balancer().clock == self.balancer().clock
        &&& post.limiter() == self.limiter()
    }

    /// Whether the intake may let a connection in and name a backend for it, or name the filter
    /// that rejects it, and become `post`.
    pub open spec fn lets_in(
        &self,
        client_ip: IpAddr,
        post: Self,
        outcome: Result<Seq<char>, Seq<char>>,
    ) -> bool {
        match outcome {
            Ok(backend) => self.limits(client_ip, post, true) && self.routes(post, Some(backend)),
            Err(name) => {
                ||| name == "RateLimiter"@ && self.limits(client_ip, post, false) && post.balancer()
                    == self.balancer()
                ||| name == "LoadBalancer"@ && self.limits(client_ip, post, true) && self.routes(
                    post,
                    None,
                )
            },
        }
    }

    /// An intake before `lb`, with a rate limiter where one is configured.
    pub fn new(rate_limit: Option<RateLimitConfig>, lb: LoadBalancer, arith: F) -> (r: Self)
        requires
            lb.wf(),
            forall|tokens: u64, elapsed: u128, rate: u64, max: u64|
                call_requires(arith, (tokens, elapsed, rate, max)),
        ensures
            r.wf(),
            r.balancer() == lb,
            asked_for(rate_limit, arith, r.limiter()),
    {
        let mut chain = MiddlewareChain::new();
        if let Some(limit) = rate_limit {
            chain.add(
                Stage::Limiter(RateLimiter::new(limit.max_requests, limit.refill_rate, arith)),
            );
        }
        chain.add(Stage::Balancer(lb));
        Intake { chain }
    }

    /// Takes a connection through the filters: the result is the backend that it goes to, or
    /// the name of the filter that rejects it.
    pub fn enter(&mut self, client_ip: IpAddr) -> (r: Result<String, &'static str>)
        requires
            old(self).wf(),
        ensures
            final(self).wf(),
            old(self).lets_in(
                client_ip,
                *final(self),
                match r {
                    Ok(backend) => Ok(backend@),
                    Err(name) => Err(name@),
                },
            ),
    {
        let ghost pre = self.chain.middlewares@;
        let ghost start = ConnectionContext::fresh(client_ip);
        let outcome = self.chain.execute(client_ip);
        let ghost post = self.chain.middlewares@;
        proof {
            reveal_with_fuel(passes, 3);
        }
        match outcome {
            Ok(ctx) => {
                proof {
                    let n = pre.len();
                    let mid = choose|mid: ConnectionContext|
                        passes(pre, start, post, mid, (n - 1) as nat) && #[trigger] Stage::handles(
                            pre[n - 1],
                            mid,
                            post[n - 1],
                            ctx,
                            true,
                        );
                    if n == 2 {
                        assert(Stage::handles(pre[0], start, post[0], mid, true));
                        let p = pre[0]->Limiter_0;
                        let q = post[0]->Limiter_0;
                        let now = choose|now: u128|
                            p.timed_by().shows(now) && #[trigger] p.filters(
                                start.client_ip,
                                now,
                                q,
                                true,
                            );
                        assert(old(self).limiter()->0.filters(
                            client_ip,
                            now,
                            self.limiter()->0,
                            true,
                        ));
                    }
                    assert(LoadBalancer::handles(
                        old(self).balancer(),
                        start,
                        self.balancer(),
                        ctx,
                        true,
                    ));
                    assert(old(self).limits(client_ip, *self, true));
                    assert(old(self).routes(*self, opt_text(ctx.target_backend)));
                }
                Ok(ctx.target_backend.unwrap())
            },
            Err(name) => {
                proof {
                    let i = choose|i: int| #[trigger]
                        rejects(pre, start, post, i) && name@ == pre[i].label();
                    let (mid, after) = choose|mid: ConnectionContext, after: ConnectionContext|
                        passes(pre, start, post, mid, i as nat) && #[trigger] Stage::handles(
                            pre[i],
                            mid,
                            post[i],
                            after,
                            false,
                        );
                    if pre.len() == 2 {
                        let passed = i != 0;
                        assert(Stage::handles(
                            pre[0],
                            start,
                            post[0],
                            if i == 0 {
                                after
                            } else {
                                mid
                            },
                            passed,
                        ));
                        let p = pre[0]->Limiter_0;
                        let q = post[0]->Limiter_0;
                        let now = choose|now: u128|
                            p.timed_by().shows(now) && #[trigger] p.filters(
                                start.client_ip,
                                now,
                                q,
                                passed,
                            );
                        assert(post[1] is Balancer);
                        assert(old(self).limiter()->0.filters(
                            client_ip,
                            now,
                            self.limiter()->0,
                            passed,
                        ));
                        assert(old(self).limits(client_ip, *self, passed));
                    }
                    if i == pre.len() - 1 {
                        assert(LoadBalancer::handles(
                            old(self).balancer(),
                            mid,
                            self.balancer(),
                            after,
                            false,
                        ));
                        assert(old(self).routes(*self, None));
                    }
                }
                Err(name)
            },
        }
    }

    /// Records that the backend `address` answered.
    pub fn record_success(&mut self, address: &str)
        requires
            old(self).wf(),
        ensures
            final(self).wf(),
            old(self).notes_success(address@, *final(self)),
    {
        let last = self.chain.middlewares.len() - 1;
        match &mut self.chain.middlewares[last] {
            Stage::Balancer(b) => b.record_success(address),
            Stage::Limiter(_) => {},
        }
    }

    /// Records that the backend `address` did not answer.
    pub fn record_failure(&mut self, address: &str)
        requires
            old(self).wf(),
        ensures
            final(self).wf(),
            old(self).notes_failure(address@, *final(self)),
    {
        let last = self.chain.middlewares.len() - 1;
        match &mut self.chain.middlewares[last] {
            Stage::Balancer(b) => b.record_failure(address),
            Stage::Limiter(_) => {},
        }
    }
}

/// A connection that is over its limit takes no turn at the backends.
pub proof fn law_limited_clients_take_no_turn<F: Fn(u64, u128, u64, u64) -> Refill>(
    pre: Intake<F>,
    client_ip: IpAddr,
    post: Intake<F>,
)
    requires
        pre.lets_in(client_ip, post, Err("RateLimiter"@)),
    ensures
        pre.limiter() is Some,
        pre.limits(client_ip, post, false),
        post.balancer() == pre.balancer(),
{
    reveal_strlit("RateLimiter");
    reveal_strlit("LoadBalancer");
    assert("RateLimiter"@.len() != "LoadBalancer"@.len());
}

/// Without a rate limiter the backends alone decide: a connection is let in exactly where one
/// can be chosen.
pub proof fn law_without_a_limit_the_backends_decide<F: Fn(u64, u128, u64, u64) -> Refill>(
    pre: Intake<F>,
    client_ip: IpAddr,
    post: Intake<F>,
    outcome: Result<Seq<char>, Seq<char>>,
)
    requires
        pre.limiter() is None,
        pre.lets_in(client_ip, post, outcome),
    ensures
        match outcome {
            Ok(backend) => pre.routes(post, Some(backend)),
            Err(name) => name == "LoadBalancer"@ && pre.routes(post, None),
        },
{
}

} // verus!
