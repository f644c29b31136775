//! Filters that a connection passes through before it is served.
use crate::addr::IpAddr;
use vstd::prelude::*;

pub mod intake;
pub mod load_balancer;
pub mod rate_limiter;

verus! {

/// What is known of a connection on its way through the filters.
#[derive(Debug, Clone)]
pub struct ConnectionContext {
    pub client_ip: IpAddr,
    pub target_backend: Option<String>,
}

impl ConnectionContext {
    /// A connection for which no backend is chosen yet.
    pub open spec fn fresh(client_ip: IpAddr) -> Self {
        ConnectionContext { client_ip, target_backend: None }
    }

    /// A connection for which no backend is chosen yet.
    pub fn new(client_ip: IpAddr) -> (r: Self)
        ensures
            r == ConnectionContext::fresh(client_ip),
    {
        ConnectionContext { client_ip, target_backend: None }
    }
}

/// A filter.
pub trait Middleware: Sized {
    /// What a filter must be to handle a connection.
    spec fn ready(&self) -> bool;

    /// The identifier of the filter.
    spec fn label(&self) -> Seq<char>;

    /// Whether the filter `pre` may take the connection `before` to `after`, become `post` and
    /// let the connection pass (`accepted`) or reject it.
    spec fn handles(
        pre: Self,
        before: ConnectionContext,
        post: Self,
        after: ConnectionContext,
        accepted: bool,
    ) -> bool;

    /// The identifier of the filter.
    fn name(&self) -> (r: &'static str)
        ensures
            r@ == self.label(),
    ;

    /// Handles a connection: true lets it pass, false rejects it.
    fn handle(&mut self, ctx: &mut ConnectionContext) -> (r: bool)
        requires
            old(self).ready(),
        ensures
            final(self).ready(),
            final(self).label() == old(self).label(),
            Self::handles(*old(self), *old(ctx), *final(self), *final(ctx), r),
    ;
}

/// Whether the first `n` filters of `pre` may all accept a connection, one behind the other,
/// taking it from `before` to `after` and becoming the first `n` filters of `post`.
pub open spec fn passes<M: Middleware>(
    pre: Seq<M>,
    before: ConnectionContext,
    post: Seq<M>,
    after: ConnectionContext,
    n: nat,
) -> bool
    decreases n,
{
    if n == 0 {
        after == before
    } else {
        exists|mid: ConnectionContext|
            passes(pre, before, post, mid, (n - 1) as nat) && #[trigger] M::handles(
                pre[n - 1],
                mid,
                post[n - 1],
                after,
                true,
            )
    }
}

/// Whether filter `i` of `pre` may be the one that rejects the connection `before`: those
/// before it accept it, and those behind it stay as they are.
pub open spec fn rejects<M: Middleware>(
    pre: Seq<M>,
    before: ConnectionContext,
    post: Seq<M>,
    i: int,
) -> bool {
    &&& 0 <= i < pre.len()
    &&& post.len() == pre.len()
    &&& exists|mid: ConnectionContext, after: ConnectionContext|
        passes(pre, before, post, mid, i as nat) && #[trigger] M::handles(
            pre[i],
            mid,
            post[i],
            after,
            false,
        )
    &&& forall|j: int| i < j < pre.len() ==> post[j] == #[trigger] pre[j]
}

proof fn lemma_passes_local<M: Middleware>(
    pre: Seq<M>,
    before: ConnectionContext,
    post: Seq<M>,
    other: Seq<M>,
    after: ConnectionContext,
    n: nat,
)
    requires
        passes(pre, before, post, after, n),
        n <= post.len(),
        n <= other.len(),
        forall|j: int| 0 <= j < n ==> post[j] == other[j],
    ensures
        passes(pre, before, other, after, n),
    decreases n,
{
    if n > 0 {
        let mid = choose|mid: ConnectionContext|
            passes(pre, before, post, mid, (n - 1) as nat) && #[trigger] M::handles(
                pre[n - 1],
                mid,
                post[n - 1],
                after,
                true,
            );
        lemma_passes_local(pre, before, post, other, mid, (n - 1) as nat);
        assert(M::handles(pre[n - 1], mid, other[n - 1], after, true));
    }
}

proof fn lemma_passes_next<M: Middleware>(
    pre: Seq<M>,
    before: ConnectionContext,
    post: Seq<M>,
    mid: ConnectionContext,
    after: ConnectionContext,
    n: nat,
)
    requires
        passes(pre, before, post, mid, n),
        M::handles(pre[n as int], mid, post[n as int], after, true),
    ensures
        passes(pre, before, post, after, n + 1),
{
    let last = (n + 1) as nat;
    assert(passes(pre, before, post, mid, (last - 1) as nat));
    assert(M::handles(pre[last - 1], mid, post[last - 1], after, true));
}

/// Filters that a connection passes through one behind the other.
pub struct MiddlewareChain<M> {
    pub middlewares: Vec<M>,
}

impl<M: Middleware> MiddlewareChain<M> {
    /// All filters can handle connections.
    pub open spec fn ready(&self) -> bool {
        forall|i: int|
            0 <= i < self.middlewares@.len() ==> (#[trigger] self.middlewares@[i]).ready()
    }

    /// A chain without filters.
    pub fn new() -> (r: Self)
        ensures
            r.middlewares@ == Seq::<M>::empty(),
            r.ready(),
    {
        MiddlewareChain { middlewares: Vec::new() }
    }

    /// Adds a filter at the end of the chain.
    pub fn add(&mut self, middleware: M)
        ensures
            final(self).middlewares@ == old(self).middlewares@.push(middleware),
            old(self).ready() && middleware.ready() ==> final(self).ready(),
    {
        self.middlewares.push(middleware);
    }

    /// Takes a connection through all filters. The result is the connection as the last filter
    /// left it, where all of them accept it; and otherwise the identifier of the first filter
    /// that rejects it.
    pub fn execute(&mut self, client_ip: IpAddr) -> (r: Result<ConnectionContext, &'static str>)
        requires
            old(self).ready(),
        ensures
            final(self).ready(),
            final(self).middlewares@.len() == old(self).middlewares@.len(),
            match r {
                Ok(ctx) => passes(
                    old(self).middlewares@,
                    ConnectionContext::fresh(client_ip),
                    final(self).middlewares@,
                    ctx,
                    old(self).middlewares@.len(),
                ),
                Err(name) => exists|i: int| #[trigger]
                    rejects(
                        old(self).middlewares@,
                        ConnectionContext::fresh(client_ip),
                        final(self).middlewares@,
                        i,
                    ) && name@ == old(self).middlewares@[i].label(),
            },
    {
        let mut ctx = ConnectionContext::new(client_ip);
        let ghost start = ctx;
        let ghost pre = self.middlewares@;
        let n = self.middlewares.len();
        let mut i: usize = 0;
        while i < n
            invariant
                i <= n,
                n == self.middlewares@.len(),
                pre == old(self).middlewares@,
                pre.len() == n,
                start == ConnectionContext::fresh(client_ip),
                self.ready(),
                passes(pre, start, self.middlewares@, ctx, i as nat),
                forall|j: int| i <= j < n ==> self.middlewares@[j] == #[trigger] pre[j],
            decreases n - i,
        {
            let ghost here = self.middlewares@;
            let ghost mid = ctx;
            let accepted = self.middlewares[i].handle(&mut ctx);
            proof {
                lemma_passes_local(pre, start, here, self.middlewares@, mid, i as nat);
                assert(M::handles(pre[i as int], mid, self.middlewares@[i as int], ctx, accepted));
            }
            if !accepted {
                let name = self.middlewares[i].name();
                proof {
                    assert(rejects(pre, start, self.middlewares@, i as int));
                }
                return Err(name);
            }
            proof {
                lemma_passes_next(pre, start, self.middlewares@, mid, ctx, i as nat);
            }
            i = i + 1;
        }
        Ok(ctx)
    }
}

} // verus!
