//! Download-error middlewares.
//!
//! A middleware looks at a failed download and either lets the error go on
//! (`Continue`, possibly changed), or drops the request (`Drop`), which ends
//! the chain.  The processor threads the error through the middlewares in
//! order and hands back the request to retry, or nothing where one dropped
//! it.  With no middleware the request comes back for a retry.
use crate::downloader::DownloadError;
use crate::request::{is_retry_of, Request};
use vstd::prelude::*;

verus! {

/// What a middleware decides about a failed download.
pub enum DownloadDecision<C> {
    /// Go on to the next middleware with this (possibly changed) error.
    Continue(DownloadError<C>),
    /// Drop the request; no later middleware runs.
    Drop(DownloadError<C>),
}

/// A download-error middleware.
///
/// An implementation states through [`DownloadMiddleware::decides`] what it
/// may answer to an error; the processor's contract is written over it.
/// (The method has no provided body: a body shared by every implementation
/// could not meet a contract that says what each one answers.  A middleware
/// that lets every error go on returns `Continue(err)`.)
pub trait DownloadMiddleware<C>: Send + Sync {
    /// Whether this middleware may answer `d` to the error `err`; an
    /// implementation that does not say may answer anything.
    open spec fn decides(&self, err: DownloadError<C>, d: DownloadDecision<C>) -> bool {
        true
    }

    /// Inspects a failed download and decides.
    fn process_error(&self, err: DownloadError<C>) -> (r: DownloadDecision<C>)
        ensures
            self.decides(err, r),
    ;
}

/// Where the chain goes after one middleware's decision: on to the next
/// middleware with the error it passed on, or to its end with nothing to
/// retry.
pub enum ChainStep<C> {
    Next(DownloadError<C>),
    Stop,
}

/// The chain's rule for one decision: `Continue` goes on with the error it
/// carries, `Drop` ends the chain.
pub fn after_decision<C>(decision: DownloadDecision<C>) -> (r: ChainStep<C>)
    ensures
        decision matches DownloadDecision::Continue(e) ==> r == ChainStep::Next(e),
        decision is Drop ==> r is Stop,
{
    match decision {
        DownloadDecision::Continue(next) => ChainStep::Next(next),
        DownloadDecision::Drop(_) => ChainStep::Stop,
    }
}

/// A sequence that equals `s` with `a` pushed on is one longer and keeps
/// what `s` held.  (Stated for any element type, so that it also serves
/// sequences of trait objects, whose values the solver has no typing facts
/// for.)
proof fn lemma_pushed<A>(s: Seq<A>, t: Seq<A>, a: A)
    requires
        t =~= s.push(a),
    ensures
        t.len() == s.len() + 1,
        forall|i: int| 0 <= i < s.len() ==> #[trigger] t[i] == s[i],
{
}

/// Chains middlewares in the order they were added.
#[verifier::reject_recursive_types(C)]
pub struct DownloadMiddlewareProcessor<C> {
    middlewares: Vec<Box<dyn DownloadMiddleware<C>>>,
}

impl<C> DownloadMiddlewareProcessor<C> {
    /// A processor with no middleware.
    pub fn new() -> (p: Self)
        ensures
            p.chain() == Seq::<Box<dyn DownloadMiddleware<C>>>::empty(),
    {
        DownloadMiddlewareProcessor { middlewares: Vec::new() }
    }

    /// The chained middlewares, in the order they run.
    pub closed spec fn chain(&self) -> Seq<Box<dyn DownloadMiddleware<C>>> {
        self.middlewares@
    }

    /// Adds a middleware at the end of the chain.
    pub fn add(&mut self, mw: Box<dyn DownloadMiddleware<C>>)
        ensures
            final(self).chain() == old(self).chain().push(mw),
            final(self).chain().len() == old(self).chain().len() + 1,
            forall|i: int|
                0 <= i < old(self).chain().len() ==> #[trigger] final(self).chain()[i] == old(self).chain()[i],
    {
        let ghost before = self.middlewares@;
        self.middlewares.push(mw);
        proof {
            lemma_pushed(before, self.middlewares@, mw);
        }
    }

    /// Threads the error through the middlewares in order: the first gets
    /// `de`, each later one the error the one before passed on.  `None`
    /// where one dropped the request (no later one runs); otherwise `Some`
    /// of the request in the last error passed on (with no middleware, the
    /// request as it came).
    pub fn process_error(&self, de: DownloadError<C>) -> (r: Option<Request<C>>)
        ensures
            chain_answers(self.chain(), 0, de, r),
    {
        let mut err = de;
        let n = self.middlewares.len();
        let mut i: usize = 0;
        while i < n
            invariant
                n == self.middlewares@.len(),
                i <= n,
                forall|x: Option<Request<C>>|
                    #[trigger] chain_answers(self.middlewares@, i as int, err, x) ==> chain_answers(
                        self.middlewares@,
                        0,
                        de,
                        x,
                    ),
            decreases n - i,
        {
            let ghost cur = err;
            let d = self.middlewares[i].process_error(err);
            let ghost gd = d;
            proof {
                let mw = self.middlewares@[i as int];
                assert(mw.decides(cur, gd));
                match gd {
                    DownloadDecision::Drop(_) => {
                        assert(chain_answers(self.middlewares@, i as int, cur, None));
                    },
                    DownloadDecision::Continue(e) => {
                        assert forall|x: Option<Request<C>>|
                            #[trigger] chain_answers(self.middlewares@, i + 1, e, x) implies chain_answers(
                            self.middlewares@,
                            i as int,
                            cur,
                            x,
                        ) by {
                            assert(mw.decides(cur, gd));
                        }
                    },
                }
            }
            match after_decision(d) {
                ChainStep::Next(next) => {
                    err = next;
                },
                ChainStep::Stop => {
                    return None;
                },
            }
            i = i + 1;
        }
        assert(chain_answers(self.middlewares@, n as int, err, Some(err.request)));
        Some(err.request)
    }
}

/// What a chain of middlewares, run from the one at `i`, may answer to the
/// error `de`: past the last one, the request of `de`; otherwise a decision
/// of the middleware at `i`, where `Drop` answers `None` and `Continue` hands
/// its error to the rest of the chain.
pub open spec fn chain_answers<C>(
    chain: Seq<Box<dyn DownloadMiddleware<C>>>,
    i: int,
    de: DownloadError<C>,
    r: Option<Request<C>>,
) -> bool
    decreases chain.len() - i,
{
    if i >= chain.len() {
        r == Some(de.request)
    } else {
        exists|d: DownloadDecision<C>|
            #[trigger] chain[i].decides(de, d) && match d {
                DownloadDecision::Drop(_) => r is None,
                DownloadDecision::Continue(e) => chain_answers(chain, i + 1, e, r),
            }
    }
}

/// Retries a failed request until it has been retried `max_retries` times,
/// then drops it.
pub struct RetryOnErrorMiddleware {
    pub max_retries: u32,
}

impl RetryOnErrorMiddleware {
    pub fn new(max_retries: u32) -> (m: Self)
        ensures
            m.max_retries == max_retries,
    {
        RetryOnErrorMiddleware { max_retries }
    }
}

/// Whether the retry middleware drops a request retried this often: once it
/// has been retried `max_retries` times (the count starts at 0; a negative
/// count reads as a huge one), or when the count cannot grow any more.
pub open spec fn retry_exhausted(retry_count: i8, max_retries: u32) -> bool {
    (retry_count as u32) >= max_retries || retry_count == i8::MAX
}

/// What the retry middleware answers: a request whose retries are
/// exhausted is dropped; otherwise the error goes on with one more retry
/// counted on its request.
pub open spec fn retry_decides<C>(max_retries: u32, de: DownloadError<C>, d: DownloadDecision<C>) -> bool {
    if retry_exhausted(de.request.spec_retry_count(), max_retries) {
        d == DownloadDecision::Drop(de)
    } else {
        d matches DownloadDecision::Continue(e) && is_retry_of(e.request, de.request) && e.error == de.error
    }
}

impl<C> DownloadMiddleware<C> for RetryOnErrorMiddleware {
    /// Drops a request whose retries are exhausted; otherwise lets the error
    /// go on with one more retry counted on its request.
    open spec fn decides(&self, de: DownloadError<C>, d: DownloadDecision<C>) -> bool {
        retry_decides(self.max_retries, de, d)
    }

    fn process_error(&self, de: DownloadError<C>) -> (r: DownloadDecision<C>)
        ensures
            retry_exhausted(de.request.spec_retry_count(), self.max_retries) ==> r == DownloadDecision::Drop(de),
            !retry_exhausted(de.request.spec_retry_count(), self.max_retries) ==> (r matches DownloadDecision::Continue(e)
                && is_retry_of(e.request, de.request) && e.error == de.error),
    {
        let mut de = de;
        let current = de.request.retry_count();
        if current as u32 >= self.max_retries || current == i8::MAX {
            DownloadDecision::Drop(de)
        } else {
            de.request.increment_retry_count();
            DownloadDecision::Continue(de)
        }
    }
}

/// Dropping the first element of a sequence shifts the others down by one.
/// (Stated for any element type, so that it also serves sequences of trait
/// objects.)
pub(crate) proof fn lemma_drop_first_shifts<A>(s: Seq<A>)
    requires
        s.len() > 0,
    ensures
        s.drop_first().len() == s.len() - 1,
        forall|i: int| 0 <= i < s.len() - 1 ==> #[trigger] s.drop_first()[i] == s[i + 1],
{
}

/// The chain from its middleware at `i + 1` answers as the chain without
/// its first middleware does from `i`.
proof fn lemma_chain_answers_shift<C>(
    chain: Seq<Box<dyn DownloadMiddleware<C>>>,
    i: int,
    de: DownloadError<C>,
    r: Option<Request<C>>,
)
    requires
        chain.len() > 0,
        0 <= i,
    ensures
        chain_answers(chain, i + 1, de, r) == chain_answers(chain.drop_first(), i, de, r),
    decreases chain.len() - i,
{
    lemma_drop_first_shifts(chain);
    let rest = chain.drop_first();
    if i + 1 < chain.len() {
        assert(rest[i] == chain[i + 1]);
        assert forall|e: DownloadError<C>| #[trigger] chain_answers(chain, i + 2, e, r) == chain_answers(rest, i + 1, e, r) by {
            lemma_chain_answers_shift(chain, i + 1, e, r);
        }
        assert forall|d: DownloadDecision<C>|
            (#[trigger] chain[i + 1].decides(de, d) && match d {
                DownloadDecision::Drop(_) => r is None,
                DownloadDecision::Continue(e) => chain_answers(chain, i + 2, e, r),
            }) == (rest[i].decides(de, d) && match d {
                DownloadDecision::Drop(_) => r is None,
                DownloadDecision::Continue(e) => chain_answers(rest, i + 1, e, r),
            }) by {
            if let DownloadDecision::Continue(e) = d {
                lemma_chain_answers_shift(chain, i + 1, e, r);
            }
        }
    }
}

/// Law: the middleware added first sees the error first.  What a chain may
/// answer is what its first middleware decides: `None` where it drops the
/// request, and where it lets the error go on, what the rest of the chain,
/// in the order it was added, answers to the error it passed on.
pub proof fn lemma_first_middleware_first<C>(
    chain: Seq<Box<dyn DownloadMiddleware<C>>>,
    de: DownloadError<C>,
    r: Option<Request<C>>,
)
    requires
        chain.len() > 0,
    ensures
        chain_answers(chain, 0, de, r) <==> exists|d: DownloadDecision<C>|
            #[trigger] chain[0].decides(de, d) && match d {
                DownloadDecision::Drop(_) => r is None,
                DownloadDecision::Continue(e) => chain_answers(chain.drop_first(), 0, e, r),
            },
{
    let rest = chain.drop_first();
    assert forall|e: DownloadError<C>| #[trigger] chain_answers(chain, 1, e, r) == chain_answers(rest, 0, e, r) by {
        lemma_chain_answers_shift(chain, 0, e, r);
    }
    if chain_answers(chain, 0, de, r) {
        let d = choose|d: DownloadDecision<C>|
            #[trigger] chain[0].decides(de, d) && match d {
                DownloadDecision::Drop(_) => r is None,
                DownloadDecision::Continue(e) => chain_answers(chain, 1, e, r),
            };
        if let DownloadDecision::Continue(e) = d {
            assert(chain_answers(rest, 0, e, r));
        }
        assert(chain[0].decides(de, d));
    }
    if exists|d: DownloadDecision<C>|
        #[trigger] chain[0].decides(de, d) && match d {
            DownloadDecision::Drop(_) => r is None,
            DownloadDecision::Continue(e) => chain_answers(rest, 0, e, r),
        } {
        let d = choose|d: DownloadDecision<C>|
            #[trigger] chain[0].decides(de, d) && match d {
                DownloadDecision::Drop(_) => r is None,
                DownloadDecision::Continue(e) => chain_answers(rest, 0, e, r),
            };
        if let DownloadDecision::Continue(e) = d {
            assert(chain_answers(chain, 1, e, r));
        }
        assert(chain[0].decides(de, d));
    }
}

/// Law: through a processor whose only middleware answers as the retry
/// middleware does, a failed request comes back with one more retry counted
/// until its retries are exhausted, and is then dropped.
pub proof fn lemma_retry_chain<C>(
    chain: Seq<Box<dyn DownloadMiddleware<C>>>,
    max_retries: u32,
    de: DownloadError<C>,
    r: Option<Request<C>>,
)
    requires
        chain.len() == 1,
        forall|e: DownloadError<C>, d: DownloadDecision<C>|
            #[trigger] chain[0].decides(e, d) == retry_decides(max_retries, e, d),
        chain_answers(chain, 0, de, r),
    ensures
        retry_exhausted(de.request.spec_retry_count(), max_retries) ==> r is None,
        !retry_exhausted(de.request.spec_retry_count(), max_retries) ==> (r matches Some(q) && is_retry_of(
            q,
            de.request,
        )),
{
    let d = choose|d: DownloadDecision<C>|
        #[trigger] chain[0].decides(de, d) && match d {
            DownloadDecision::Drop(_) => r is None,
            DownloadDecision::Continue(e) => chain_answers(chain, 1, e, r),
        };
    assert(retry_decides(max_retries, de, d));
}

/// Law: starting from a request never retried, the retry middleware lets a
/// failure through exactly `max_retries` times (each time counting one more
/// retry), then drops it.
pub proof fn lemma_retries_then_drops(max_retries: u32, count: i8)
    requires
        0 <= count,
        max_retries <= i8::MAX,
    ensures
        retry_exhausted(count, max_retries) <==> count >= max_retries,
{
}

} // verus!
