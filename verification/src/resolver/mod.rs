//! The source resolvers and the chain that tries them in turn.
//!
//! Resolving a link alternates between decisions, made here, and the
//! resolvers' own work (fetching pages, adding torrents), done by the caller:
//! [`ResolverChain::next_step`] names the resolver to run,
//! [`ResolverChain::after_outcome`] reads what it answered and names the next
//! step, until the chain is done.
pub mod m3u8;
pub mod magnet;
pub mod webpage;

use vstd::prelude::*;

use crate::layer::{outcome_view, LinkTier, SourceResolver, TierView};
use crate::text::{trim, trim_str};
use self::m3u8::M3u8Resolver;
use self::magnet::MagnetResolver;
use self::webpage::WebPageResolver;

verus! {

/// One of the resolvers a chain can hold.
pub enum ResolverKind {
    Magnet(MagnetResolver),
    M3u8(M3u8Resolver),
    WebPage(WebPageResolver),
}

impl SourceResolver for ResolverKind {
    open spec fn accepts(&self, input: Seq<char>) -> bool {
        match self {
            ResolverKind::Magnet(r) => r.accepts(input),
            ResolverKind::M3u8(r) => r.accepts(input),
            ResolverKind::WebPage(r) => r.accepts(input),
        }
    }

    fn can_handle(&self, input: &str) -> (b: bool) {
        match self {
            ResolverKind::Magnet(r) => r.can_handle(input),
            ResolverKind::M3u8(r) => r.can_handle(input),
            ResolverKind::WebPage(r) => r.can_handle(input),
        }
    }
}

/// The resolvers, tried in the order in which they were registered.
pub struct ResolverChain {
    resolvers: Vec<ResolverKind>,
}

impl View for ResolverChain {
    type V = Seq<ResolverKind>;

    closed spec fn view(&self) -> Seq<ResolverKind> {
        self.resolvers@
    }
}

/// The answer when no resolver produced a result.
pub open spec fn unrecognized_link_message() -> Seq<char> {
    "无法识别的链接类型，请输入 magnet: 或 .m3u8 地址"@
}

/// What resolving the trimmed link `t` with the chain `kinds` answers, from
/// resolver `k` on, when resolver `i` would answer `outcome(i)`: the first
/// resolver that handles the link and does not answer `NotFound` decides; its
/// error is the chain's error; with none, the link is not recognized.
pub open spec fn chain_answer(
    kinds: Seq<ResolverKind>,
    t: Seq<char>,
    k: int,
    outcome: spec_fn(int) -> Result<TierView, Seq<char>>,
) -> Result<(TierView, Seq<char>), Seq<char>>
    decreases kinds.len() - k,
{
    if k < 0 || k >= kinds.len() {
        Err(unrecognized_link_message())
    } else if !kinds[k].accepts(t) {
        chain_answer(kinds, t, k + 1, outcome)
    } else {
        match outcome(k) {
            Ok(TierView::NotFound { .. }) => chain_answer(kinds, t, k + 1, outcome),
            Ok(tier) => Ok((tier, t)),
            Err(e) => Err(e),
        }
    }
}

/// The first resolver, from position `from` on, that handles `t`.
pub open spec fn first_acceptor(kinds: Seq<ResolverKind>, t: Seq<char>, from: int) -> Option<int>
    decreases kinds.len() - from,
{
    if from < 0 || from >= kinds.len() {
        None
    } else if kinds[from].accepts(t) {
        Some(from)
    } else {
        first_acceptor(kinds, t, from + 1)
    }
}

/// What the chain does next.
pub enum ChainStep {
    /// Run resolver `k` on the trimmed link and report its answer.
    Try(usize),
    /// Resolving is over: the tier found with the trimmed link, or the error.
    Done(Result<(LinkTier, String), String>),
}

/// The mathematical value of a [`ChainStep`].
pub enum ChainStepView {
    Try(nat),
    Done(Result<(TierView, Seq<char>), Seq<char>>),
}

impl View for ChainStep {
    type V = ChainStepView;

    open spec fn view(&self) -> ChainStepView {
        match self {
            ChainStep::Try(k) => ChainStepView::Try(*k as nat),
            ChainStep::Done(Ok((tier, t))) => ChainStepView::Done(Ok((tier@, t@))),
            ChainStep::Done(Err(e)) => ChainStepView::Done(Err(e@)),
        }
    }
}

/// The step that follows looking for a resolver from position `from` on.
pub open spec fn step_from(kinds: Seq<ResolverKind>, t: Seq<char>, from: int) -> ChainStepView {
    match first_acceptor(kinds, t, from) {
        Some(k) => ChainStepView::Try(k as nat),
        None => ChainStepView::Done(Err(unrecognized_link_message())),
    }
}

impl ResolverChain {
    /// An empty chain.
    pub fn new() -> (r: Self)
        ensures
            r@ == Seq::<ResolverKind>::empty(),
    {
        ResolverChain { resolvers: Vec::new() }
    }

    /// Adds a resolver after those already registered (earlier ones are tried first).
    pub fn register(&mut self, resolver: ResolverKind)
        ensures
            final(self)@ == old(self)@.push(resolver),
    {
        self.resolvers.push(resolver);
    }

    /// The number of resolvers.
    pub fn len(&self) -> (n: usize)
        ensures
            n == self@.len(),
    {
        self.resolvers.len()
    }

    /// Resolver `k`.
    pub fn resolver_at(&self, k: usize) -> (r: &ResolverKind)
        requires
            k < self@.len(),
        ensures
            *r == self@[k as int],
    {
        &self.resolvers[k]
    }

    /// The next step when looking for a resolver for `input` from position `from` on.
    pub fn next_step(&self, input: &str, from: usize) -> (r: ChainStep)
        ensures
            r@ == step_from(self@, trim(input@), from as int),
            r matches ChainStep::Try(k) ==> from <= k < self@.len(),
    {
        let t = trim_str(input);
        let mut k = from;
        while k < self.resolvers.len()
            invariant
                from <= k,
                t@ == trim(input@),
                first_acceptor(self@, t@, from as int) == first_acceptor(self@, t@, k as int),
            decreases self@.len() - k,
        {
            if self.resolvers[k].can_handle(t) {
                return ChainStep::Try(k);
            }
            k += 1;
        }
        ChainStep::Done(Err(String::from_str("无法识别的链接类型，请输入 magnet: 或 .m3u8 地址")))
    }

    /// The next step once resolver `tried` answered `outcome` for `input`:
    /// `NotFound` moves on to the next resolver, anything else ends the chain.
    pub fn after_outcome(&self, input: &str, tried: usize, outcome: Result<LinkTier, String>) -> (r:
        ChainStep)
        requires
            tried < self@.len(),
        ensures
            match outcome_view(outcome) {
                Ok(TierView::NotFound { .. }) => r@ == step_from(
                    self@,
                    trim(input@),
                    tried + 1,
                ),
                Ok(tier) => r@ == ChainStepView::Done(Ok((tier, trim(input@)))),
                Err(e) => r@ == ChainStepView::Done(Err(e)),
            },
    {
        let n = self.resolvers.len();
        assert(tried < n);
        match outcome {
            Ok(LinkTier::NotFound { .. }) => self.next_step(input, tried + 1),
            Ok(tier) => ChainStep::Done(Ok((tier, String::from_str(trim_str(input))))),
            Err(e) => ChainStep::Done(Err(e)),
        }
    }
}

/// Running the chain step by step gives the chain's answer: from any position,
/// the answer is decided by the first resolver that handles the link, either
/// directly or, on `NotFound`, by the rest of the chain after it. With
/// [`ResolverChain::next_step`] and [`ResolverChain::after_outcome`] this means
/// that a caller that runs the resolver each `Try` names and stops at `Done`
/// ends with `chain_answer(.., 0, ..)`.
pub proof fn lemma_chain_steps(
    kinds: Seq<ResolverKind>,
    t: Seq<char>,
    from: int,
    outcome: spec_fn(int) -> Result<TierView, Seq<char>>,
)
    requires
        0 <= from,
    ensures
        chain_answer(kinds, t, from, outcome) == match first_acceptor(kinds, t, from) {
            None => Err(unrecognized_link_message()),
            Some(k) => match outcome(k) {
                Ok(TierView::NotFound { .. }) => chain_answer(kinds, t, k + 1, outcome),
                Ok(tier) => Ok((tier, t)),
                Err(e) => Err(e),
            },
        },
        first_acceptor(kinds, t, from) matches Some(k) ==> from <= k < kinds.len() && kinds[k].accepts(t),
    decreases kinds.len() - from,
{
    if from < kinds.len() && !kinds[from].accepts(t) {
        lemma_chain_steps(kinds, t, from + 1, outcome);
    }
}

} // verus!
