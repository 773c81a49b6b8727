//! The scheduler: a priority queue of requests behind a filter that lets
//! each fingerprint through once.
use crate::request::{bytes_equal, is_retry_of, Request};
use vstd::multiset::Multiset;
use vstd::prelude::*;

verus! {

/// A queued request with the priority it was queued under (lower first).
pub struct PrioritizedRequest<C> {
    pub priority: i32,
    pub request: Request<C>,
}

/// The priority a request is queued under: start requests get 0, other
/// requests their own priority (0 counting as 1), and each retry adds one.
pub open spec fn queue_priority<C>(r: Request<C>) -> int {
    (if r.spec_is_start_request() {
        0
    } else if r.spec_priority() == 0 {
        1
    } else {
        r.spec_priority() as int
    }) + r.spec_retry_count() as int
}

/// Whether the queue priority of a request fits in an `i32`.
pub open spec fn priority_fits<C>(r: Request<C>) -> bool {
    i32::MIN <= queue_priority(r) <= i32::MAX
}

/// The index of the first entry of least priority.
pub open spec fn first_min_index<C>(s: Seq<PrioritizedRequest<C>>) -> int
    decreases s.len(),
{
    if s.len() <= 1 {
        0
    } else {
        let k = first_min_index(s.drop_last());
        if s.last().priority < s[k].priority {
            s.len() - 1
        } else {
            k
        }
    }
}

/// The first entry of least priority has no entry of lower priority, and
/// every entry before it has a higher one.
pub proof fn lemma_first_min_index<C>(s: Seq<PrioritizedRequest<C>>)
    requires
        s.len() > 0,
    ensures
        0 <= first_min_index(s) < s.len(),
        forall|j: int| 0 <= j < s.len() ==> s[first_min_index(s)].priority <= #[trigger] s[j].priority,
        forall|j: int| 0 <= j < first_min_index(s) ==> s[first_min_index(s)].priority < #[trigger] s[j].priority,
    decreases s.len(),
{
    if s.len() > 1 {
        let t = s.drop_last();
        lemma_first_min_index(t);
        let k = first_min_index(t);
        assert(s[k] == t[k]);
        assert forall|j: int| 0 <= j < s.len() implies s[first_min_index(s)].priority <= #[trigger] s[j].priority by {
            if j < s.len() - 1 {
                assert(s[j] == t[j]);
            }
        }
        assert forall|j: int| 0 <= j < first_min_index(s) implies s[first_min_index(s)].priority < #[trigger] s[j].priority by {
            if j < s.len() - 1 {
                assert(s[j] == t[j]);
            }
        }
    }
}

/// A priority queue of requests: the request of least priority leaves
/// first, and among equals the one queued first.
pub struct PriorityQueue<C> {
    heap: Vec<PrioritizedRequest<C>>,
}

impl<C> PriorityQueue<C> {
    /// The queued entries, in the order they were queued.
    pub closed spec fn entries(&self) -> Seq<PrioritizedRequest<C>> {
        self.heap@
    }

    /// An empty queue.
    pub fn new() -> (q: Self)
        ensures
            q.entries() == Seq::<PrioritizedRequest<C>>::empty(),
    {
        PriorityQueue { heap: Vec::new() }
    }

    /// Queues a request under its [`queue_priority`].
    pub fn push(&mut self, request: Request<C>)
        requires
            priority_fits(request),
        ensures
            final(self).entries() == old(self).entries().push(
                PrioritizedRequest { priority: queue_priority(request) as i32, request },
            ),
    {
        let base_priority = request.priority();
        let priority: i32 = if request.is_start_request() {
            0
        } else if base_priority == 0 {
            1
        } else {
            base_priority
        };
        let priority: i32 = priority + request.retry_count() as i32;
        self.heap.push(PrioritizedRequest { priority, request });
    }

    fn first_min_position(&self) -> (i: usize)
        requires
            self.entries().len() > 0,
        ensures
            i == first_min_index(self.entries()),
    {
        let mut best: usize = 0;
        let mut i: usize = 1;
        while i < self.heap.len()
            invariant
                1 <= i <= self.heap@.len(),
                best == first_min_index(self.heap@.take(i as int)),
            decreases self.heap@.len() - i,
        {
            proof {
                let t = self.heap@.take(i + 1);
                assert(t.drop_last() =~= self.heap@.take(i as int));
                lemma_first_min_index(self.heap@.take(i as int));
            }
            if self.heap[i].priority < self.heap[best].priority {
                best = i;
            }
            i = i + 1;
        }
        assert(self.heap@.take(i as int) =~= self.heap@);
        best
    }

    /// Takes out the request of least priority (the first queued among equals).
    pub fn pop(&mut self) -> (r: Option<Request<C>>)
        ensures
            old(self).entries().len() == 0 ==> r is None && final(self).entries() == old(self).entries(),
            old(self).entries().len() > 0 ==> r == Some(old(self).entries()[first_min_index(old(self).entries())].request)
                && final(self).entries() == old(self).entries().remove(first_min_index(old(self).entries())),
    {
        if self.heap.len() == 0 {
            return None;
        }
        let i = self.first_min_position();
        proof {
            lemma_first_min_index(self.heap@);
        }
        let entry = self.heap.remove(i);
        Some(entry.request)
    }

    /// The request that [`PriorityQueue::pop`] would take out.
    pub fn peek(&self) -> (r: Option<&Request<C>>)
        ensures
            self.entries().len() == 0 ==> r is None,
            self.entries().len() > 0 ==> r == Some(&self.entries()[first_min_index(self.entries())].request),
    {
        if self.heap.len() == 0 {
            return None;
        }
        let i = self.first_min_position();
        proof {
            lemma_first_min_index(self.heap@);
        }
        Some(&self.heap[i].request)
    }

    pub fn is_empty(&self) -> (r: bool)
        ensures
            r == (self.entries().len() == 0),
    {
        self.heap.len() == 0
    }

    pub fn len(&self) -> (r: usize)
        ensures
            r == self.entries().len(),
    {
        self.heap.len()
    }
}

/// Law: what [`PriorityQueue::pop`] takes out has the least priority of the
/// queue.
pub proof fn lemma_pop_takes_least_priority<C>(s: Seq<PrioritizedRequest<C>>, j: int)
    requires
        0 <= j < s.len(),
    ensures
        s[first_min_index(s)].priority <= s[j].priority,
{
    lemma_first_min_index(s);
}

/// Law: among entries of equal priority, the one queued first leaves first.
pub proof fn lemma_pop_is_first_in_first_out_among_equals<C>(s: Seq<PrioritizedRequest<C>>, j: int)
    requires
        0 <= j < s.len(),
        s[j].priority == s[first_min_index(s)].priority,
    ensures
        first_min_index(s) <= j,
{
    lemma_first_min_index(s);
}

/// The order in which repeated pops empty a queue with these entries.
pub open spec fn drain_order<C>(s: Seq<PrioritizedRequest<C>>) -> Seq<PrioritizedRequest<C>>
    decreases s.len(),
{
    if s.len() == 0 {
        Seq::empty()
    } else {
        proof {
            lemma_first_min_index(s);
        }
        let i = first_min_index(s);
        seq![s[i]] + drain_order(s.remove(i))
    }
}

/// Law: popping a queue until it is empty hands out every queued entry
/// exactly once, in order of non-decreasing priority.
pub proof fn lemma_drain_order<C>(s: Seq<PrioritizedRequest<C>>)
    ensures
        drain_order(s).len() == s.len(),
        drain_order(s).to_multiset() == s.to_multiset(),
        forall|a: int, b: int|
            0 <= a <= b < s.len() ==> #[trigger] drain_order(s)[a].priority <= #[trigger] drain_order(s)[b].priority,
    decreases s.len(),
{
    broadcast use vstd::multiset::group_multiset_axioms;

    if s.len() == 0 {
        assert(drain_order(s) =~= s);
    } else {
        lemma_first_min_index(s);
        let i = first_min_index(s);
        let t = s.remove(i);
        lemma_drain_order(t);
        let dt = drain_order(t);
        let d = drain_order(s);
        assert(d == seq![s[i]] + dt);
        vstd::seq_lib::to_multiset_remove(s, i);
        vstd::seq_lib::lemma_multiset_commutative(seq![s[i]], dt);
        assert(seq![s[i]].to_multiset() =~= Multiset::empty().insert(s[i])) by {
            let e = Seq::<PrioritizedRequest<C>>::empty();
            vstd::seq_lib::to_multiset_build(e, s[i]);
            vstd::seq_lib::to_multiset_len(e);
            vstd::multiset::lemma_multiset_empty_len(e.to_multiset());
            assert(e.push(s[i]) =~= seq![s[i]]);
        }
        vstd::seq_lib::to_multiset_contains(s, s[i]);
        assert(d.to_multiset() =~= s.to_multiset());
        assert forall|b: int| 0 <= b < d.len() implies s[i].priority <= #[trigger] d[b].priority by {
            if b > 0 {
                assert(0 <= b - 1 < dt.len());
                let x = dt[b - 1];
                assert(d[b] == x);
                assert(dt.contains(x));
                vstd::seq_lib::to_multiset_contains(dt, x);
                vstd::seq_lib::to_multiset_contains(t, x);
                let k = t.index_of(x);
                if k < i {
                    assert(t[k] == s[k]);
                } else {
                    assert(t[k] == s[k + 1]);
                }
            }
        }
        assert forall|a: int, b: int| 0 <= a <= b < s.len() implies #[trigger] d[a].priority <= #[trigger] d[b].priority by {
            if a > 0 {
                assert(d[a] == dt[a - 1] && d[b] == dt[b - 1]);
            }
        }
    }
}

/// Law: each retry puts a request one place further back, whatever its
/// kind: a retry of a request is queued one priority higher than it.
pub proof fn lemma_retry_raises_queue_priority<C>(next: Request<C>, prev: Request<C>)
    requires
        is_retry_of(next, prev),
    ensures
        queue_priority(next) == queue_priority(prev) + 1,
{
}

/// Law: a request that was never retried is queued at 0 when it is a start
/// request, and otherwise at its priority, where 0 counts as 1.
pub proof fn lemma_fresh_queue_priority<C>(r: Request<C>)
    requires
        r.spec_retry_count() == 0,
    ensures
        r.spec_is_start_request() ==> queue_priority(r) == 0,
        !r.spec_is_start_request() && r.spec_priority() != 0 ==> queue_priority(r) == r.spec_priority(),
        !r.spec_is_start_request() && r.spec_priority() == 0 ==> queue_priority(r) == 1,
{
}

/// Law: a request pushed onto an empty queue is what comes out next.
pub proof fn lemma_push_then_pop_on_empty<C>(r: Request<C>, p: i32)
    ensures
        first_min_index(Seq::<PrioritizedRequest<C>>::empty().push(PrioritizedRequest { priority: p, request: r })) == 0,
{
}

/// Law: a start request that was never retried outranks every other request
/// of non-negative priority and retry count.
pub proof fn lemma_start_requests_first<C>(start: Request<C>, other: Request<C>)
    requires
        start.spec_is_start_request(),
        start.spec_retry_count() == 0,
        !other.spec_is_start_request(),
        other.spec_priority() >= 0,
        other.spec_retry_count() >= 0,
    ensures
        queue_priority(start) < queue_priority(other),
{
}

/// Records fingerprints and says whether a request was seen before.
pub trait DupeFilter<C> {
    /// Records the request; `true` when its fingerprint was not seen before.
    fn record_request_if_unseen(&mut self, request: &Request<C>) -> bool;
}

/// Pushing a value that does not occur yet keeps a sequence free of
/// duplicates.
proof fn lemma_push_new_no_duplicates(s: Seq<Seq<u8>>, f: Seq<u8>)
    requires
        s.no_duplicates(),
        !s.contains(f),
    ensures
        s.push(f).no_duplicates(),
{
    assert forall|a: int, b: int| 0 <= a < b < s.push(f).len() implies s.push(f)[a] != s.push(f)[b] by {
        if b == s.len() {
            assert(s.contains(s[a]));
        }
    }
}

/// A fingerprint filter held in memory.
pub struct MemoryDupeFilter {
    fingerprints: Vec<Vec<u8>>,
}

pub open spec fn fingerprint_views(v: Seq<Vec<u8>>) -> Seq<Seq<u8>> {
    v.map_values(|f: Vec<u8>| f@)
}

impl MemoryDupeFilter {
    /// No fingerprint is recorded twice.
    #[verifier::type_invariant]
    spec fn no_duplicates(&self) -> bool {
        fingerprint_views(self.fingerprints@).no_duplicates()
    }

    /// The fingerprints seen so far.
    pub closed spec fn seen(&self) -> Set<Seq<u8>> {
        fingerprint_views(self.fingerprints@).to_set()
    }

    /// A filter that has seen nothing.
    pub fn new() -> (f: Self)
        ensures
            f.seen() == Set::<Seq<u8>>::empty(),
    {
        let f = MemoryDupeFilter { fingerprints: Vec::new() };
        assert(fingerprint_views(f.fingerprints@) =~= Seq::<Seq<u8>>::empty());
        f
    }

    /// Whether the fingerprint was seen.
    pub fn has_seen(&self, fp: &[u8]) -> (r: bool)
        ensures
            r == self.seen().contains(fp@),
    {
        let n = self.fingerprints.len();
        let mut i: usize = 0;
        while i < n
            invariant
                n == self.fingerprints@.len(),
                i <= n,
                forall|k: int| 0 <= k < i ==> self.fingerprints@[k]@ != fp@,
            decreases n - i,
        {
            if bytes_equal(self.fingerprints[i].as_slice(), fp) {
                proof {
                    assert(fingerprint_views(self.fingerprints@)[i as int] == fp@);
                }
                return true;
            }
            i = i + 1;
        }
        proof {
            if self.seen().contains(fp@) {
                let k = fingerprint_views(self.fingerprints@).index_of(fp@);
                assert(fingerprint_views(self.fingerprints@)[k] == self.fingerprints@[k]@);
            }
        }
        false
    }

    /// Records a fingerprint; `true` when it was not seen before.
    pub fn record_if_unseen(&mut self, fp: Vec<u8>) -> (r: bool)
        ensures
            r == !old(self).seen().contains(fp@),
            final(self).seen() == old(self).seen().insert(fp@),
    {
        proof {
            use_type_invariant(&*self);
        }
        if self.has_seen(fp.as_slice()) {
            proof {
                assert(old(self).seen().insert(fp@) =~= old(self).seen());
            }
            return false;
        }
        let ghost old_v = fingerprint_views(self.fingerprints@);
        let ghost f = fp@;
        let mut v: Vec<Vec<u8>> = Vec::new();
        std::mem::swap(&mut v, &mut self.fingerprints);
        v.push(fp);
        proof {
            assert(fingerprint_views(v@) =~= old_v.push(f));
        }
        self.fingerprints = v;
        proof {
            assert(fingerprint_views(self.fingerprints@) =~= old_v.push(f));
            assert(old_v.push(f).to_set() =~= old_v.to_set().insert(f)) by {
                assert forall|x: Seq<u8>| old_v.push(f).to_set().contains(x) <==> old_v.to_set().insert(f).contains(x) by {
                    if x != f && old_v.push(f).contains(x) {
                        let k = old_v.push(f).index_of(x);
                        assert(old_v[k] == x);
                    }
                    if old_v.contains(x) {
                        let k = old_v.index_of(x);
                        assert(old_v.push(f)[k] == x);
                    }
                    assert(old_v.push(f)[old_v.len() as int] == f);
                }
            }
            lemma_push_new_no_duplicates(old_v, f);
        }
        true
    }
}

impl<C> DupeFilter<C> for MemoryDupeFilter {
    fn record_request_if_unseen(&mut self, request: &Request<C>) -> (r: bool)
        ensures
            r == !old(self).seen().contains(request.spec_fingerprint()),
            final(self).seen() == old(self).seen().insert(request.spec_fingerprint()),
    {
        let fp = request.fingerprint();
        self.record_if_unseen(fp)
    }
}

/// The scheduler: lets each fingerprint through once, then queues by priority.
pub struct Scheduler<C> {
    dupefilter: MemoryDupeFilter,
    queue: PriorityQueue<C>,
}

impl<C> Scheduler<C> {
    /// The fingerprints offered so far.
    pub closed spec fn seen(&self) -> Set<Seq<u8>> {
        self.dupefilter.seen()
    }

    /// The queued entries, in the order they were queued.
    pub closed spec fn pending(&self) -> Seq<PrioritizedRequest<C>> {
        self.queue.entries()
    }

    /// A scheduler that has seen nothing and holds nothing.
    pub fn new() -> (s: Self)
        ensures
            s.seen() == Set::<Seq<u8>>::empty(),
            s.pending() == Seq::<PrioritizedRequest<C>>::empty(),
    {
        Scheduler { dupefilter: MemoryDupeFilter::new(), queue: PriorityQueue::new() }
    }

    /// Queues the request if its fingerprint was not offered before; `true`
    /// when it was queued.
    pub fn enqueue_request(&mut self, request: Request<C>) -> (r: bool)
        requires
            !old(self).seen().contains(request.spec_fingerprint()) ==> priority_fits(request),
        ensures
            r == !old(self).seen().contains(request.spec_fingerprint()),
            final(self).seen() == old(self).seen().insert(request.spec_fingerprint()),
            r ==> final(self).pending() == old(self).pending().push(
                PrioritizedRequest { priority: queue_priority(request) as i32, request },
            ),
            !r ==> final(self).pending() == old(self).pending(),
    {
        if self.dupefilter.record_request_if_unseen(&request) {
            self.queue.push(request);
            true
        } else {
            false
        }
    }

    /// [`Scheduler::enqueue_request`] where the request can be queued:
    /// `None`, with nothing changed, where it is new and its queue priority
    /// does not fit in an `i32`.
    pub fn try_enqueue_request(&mut self, request: Request<C>) -> (r: Option<bool>)
        ensures
            r is None <==> (!old(self).seen().contains(request.spec_fingerprint()) && !priority_fits(request)),
            r is None ==> final(self).seen() == old(self).seen() && final(self).pending() == old(self).pending(),
            r matches Some(b) ==> b == !old(self).seen().contains(request.spec_fingerprint())
                && final(self).seen() == old(self).seen().insert(request.spec_fingerprint())
                && (b ==> final(self).pending() == old(self).pending().push(
                    PrioritizedRequest { priority: queue_priority(request) as i32, request },
                ))
                && (!b ==> final(self).pending() == old(self).pending()),
    {
        let fp = request.fingerprint();
        if !self.dupefilter.has_seen(fp.as_slice()) && !Self::fits(&request) {
            return None;
        }
        Some(self.enqueue_request(request))
    }

    /// Queues a request that the downloader sent back for a retry.  A retry
    /// keeps its fingerprint, which the filter let through when the request
    /// was first offered, so it skips the filter; `false`, with nothing
    /// changed, where its queue priority does not fit in an `i32`.
    pub fn requeue_request(&mut self, request: Request<C>) -> (r: bool)
        ensures
            r == priority_fits(request),
            final(self).seen() == old(self).seen(),
            r ==> final(self).pending() == old(self).pending().push(
                PrioritizedRequest { priority: queue_priority(request) as i32, request },
            ),
            !r ==> final(self).pending() == old(self).pending(),
    {
        if Self::fits(&request) {
            self.queue.push(request);
            true
        } else {
            false
        }
    }

    fn fits(request: &Request<C>) -> (r: bool)
        ensures
            r == priority_fits(*request),
    {
        let base = request.priority() as i64;
        let p: i64 = if request.is_start_request() {
            0
        } else if base == 0 {
            1
        } else {
            base
        };
        let q = p + request.retry_count() as i64;
        i32::MIN as i64 <= q && q <= i32::MAX as i64
    }

    /// Takes out the next request: least priority first, the first queued
    /// among equals.
    pub fn next_request(&mut self) -> (r: Option<Request<C>>)
        ensures
            final(self).seen() == old(self).seen(),
            old(self).pending().len() == 0 ==> r is None && final(self).pending() == old(self).pending(),
            old(self).pending().len() > 0 ==> r == Some(old(self).pending()[first_min_index(old(self).pending())].request)
                && final(self).pending() == old(self).pending().remove(first_min_index(old(self).pending())),
    {
        self.queue.pop()
    }

    /// Whether a request is waiting.
    pub fn has_pending_requests(&self) -> (r: bool)
        ensures
            r == (self.pending().len() > 0),
    {
        !self.queue.is_empty()
    }

    /// The request that [`Scheduler::next_request`] would take out.
    pub fn peek_next_request(&self) -> (r: Option<&Request<C>>)
        ensures
            self.pending().len() == 0 ==> r is None,
            self.pending().len() > 0 ==> r == Some(&self.pending()[first_min_index(self.pending())].request),
    {
        self.queue.peek()
    }

    /// The engine's fetch step: while the downloader asks to back off,
    /// nothing leaves; otherwise the next request does.
    pub fn next_for_download(&mut self, backoff: bool) -> (r: Option<Request<C>>)
        ensures
            final(self).seen() == old(self).seen(),
            backoff || old(self).pending().len() == 0 ==> r is None && final(self).pending() == old(self).pending(),
            !backoff && old(self).pending().len() > 0 ==> r == Some(old(self).pending()[first_min_index(old(self).pending())].request)
                && final(self).pending() == old(self).pending().remove(first_min_index(old(self).pending())),
    {
        if backoff {
            None
        } else {
            self.next_request()
        }
    }
}

/// The fingerprints a scheduler has seen after the given offers, in order.
pub open spec fn seen_after_offers(seen: Set<Seq<u8>>, offers: Seq<Seq<u8>>) -> Set<Seq<u8>>
    decreases offers.len(),
{
    if offers.len() == 0 {
        seen
    } else {
        seen_after_offers(seen, offers.drop_last()).insert(offers.last())
    }
}

/// Law: once a request has been offered to the scheduler, every later
/// request with the same fingerprint is refused, whatever was offered in
/// between: its fingerprint stays among the seen ones.
pub proof fn lemma_offered_fingerprint_refused_after(seen: Set<Seq<u8>>, offered: Seq<u8>, between: Seq<Seq<u8>>)
    ensures
        seen_after_offers(seen.insert(offered), between).contains(offered),
    decreases between.len(),
{
    if between.len() > 0 {
        lemma_offered_fingerprint_refused_after(seen, offered, between.drop_last());
    }
}

/// The scheduler's invariant: every queued request's fingerprint was seen,
/// and no two queued requests share a fingerprint.
pub open spec fn pending_distinct<C>(seen: Set<Seq<u8>>, pending: Seq<PrioritizedRequest<C>>) -> bool {
    &&& forall|i: int| 0 <= i < pending.len() ==> seen.contains(#[trigger] pending[i].request.spec_fingerprint())
    &&& forall|i: int, j: int|
        0 <= i < j < pending.len() ==> #[trigger] pending[i].request.spec_fingerprint()
            != #[trigger] pending[j].request.spec_fingerprint()
}

/// Law: a new scheduler holds the invariant.
pub proof fn lemma_new_scheduler_distinct<C>()
    ensures
        pending_distinct(Set::<Seq<u8>>::empty(), Seq::<PrioritizedRequest<C>>::empty()),
{
}

/// Law: offering a request keeps the invariant, whether it is queued (its
/// fingerprint was new) or refused.
pub proof fn lemma_enqueue_keeps_distinct<C>(seen: Set<Seq<u8>>, pending: Seq<PrioritizedRequest<C>>, q: Request<C>, p: i32)
    requires
        pending_distinct(seen, pending),
    ensures
        pending_distinct(
            seen.insert(q.spec_fingerprint()),
            if !seen.contains(q.spec_fingerprint()) {
                pending.push(PrioritizedRequest { priority: p, request: q })
            } else {
                pending
            },
        ),
{
    let fp = q.spec_fingerprint();
    if !seen.contains(fp) {
        let np = pending.push(PrioritizedRequest { priority: p, request: q });
        assert forall|i: int, j: int| 0 <= i < j < np.len() implies #[trigger] np[i].request.spec_fingerprint()
            != #[trigger] np[j].request.spec_fingerprint() by {
            if j == pending.len() {
                assert(seen.contains(pending[i].request.spec_fingerprint()));
            } else {
                assert(np[i] == pending[i] && np[j] == pending[j]);
            }
        }
        assert forall|i: int| 0 <= i < np.len() implies seen.insert(fp).contains(
            #[trigger] np[i].request.spec_fingerprint(),
        ) by {
            if i < pending.len() {
                assert(np[i] == pending[i]);
            }
        }
    }
}

/// Law: a retried request put back in the queue keeps the invariant, where
/// its fingerprint was let through before and no queued request carries it.
pub proof fn lemma_requeue_keeps_distinct<C>(seen: Set<Seq<u8>>, pending: Seq<PrioritizedRequest<C>>, q: Request<C>, p: i32)
    requires
        pending_distinct(seen, pending),
        seen.contains(q.spec_fingerprint()),
        forall|i: int| 0 <= i < pending.len() ==> #[trigger] pending[i].request.spec_fingerprint() != q.spec_fingerprint(),
    ensures
        pending_distinct(seen, pending.push(PrioritizedRequest { priority: p, request: q })),
{
    let np = pending.push(PrioritizedRequest { priority: p, request: q });
    assert forall|i: int, j: int| 0 <= i < j < np.len() implies #[trigger] np[i].request.spec_fingerprint()
        != #[trigger] np[j].request.spec_fingerprint() by {
        assert(np[i] == pending[i]);
        if j < pending.len() {
            assert(np[j] == pending[j]);
        }
    }
    assert forall|i: int| 0 <= i < np.len() implies seen.contains(#[trigger] np[i].request.spec_fingerprint()) by {
        if i < pending.len() {
            assert(np[i] == pending[i]);
        }
    }
}

/// Law: taking a request out keeps the invariant.
pub proof fn lemma_removal_keeps_distinct<C>(seen: Set<Seq<u8>>, pending: Seq<PrioritizedRequest<C>>, k: int)
    requires
        pending_distinct(seen, pending),
        0 <= k < pending.len(),
    ensures
        pending_distinct(seen, pending.remove(k)),
{
    let np = pending.remove(k);
    assert forall|i: int| 0 <= i < np.len() implies seen.contains(#[trigger] np[i].request.spec_fingerprint()) by {
        if i < k {
            assert(np[i] == pending[i]);
        } else {
            assert(np[i] == pending[i + 1]);
        }
    }
    assert forall|i: int, j: int| 0 <= i < j < np.len() implies #[trigger] np[i].request.spec_fingerprint()
        != #[trigger] np[j].request.spec_fingerprint() by {
        let a = if i < k { i } else { i + 1 };
        let b = if j < k { j } else { j + 1 };
        assert(np[i] == pending[a] && np[j] == pending[b]);
    }
}

} // verus!
