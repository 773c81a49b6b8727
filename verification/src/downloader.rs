//! The downloader's decisions: what becomes of a finished download, and the
//! counters that say whether downloading is idle or should back off.
use crate::download_middleware::{chain_answers, DownloadMiddlewareProcessor};
use crate::reply::{is_error_status, SuccessStatus};
use crate::request::Request;
use crate::response::Response;
use vstd::prelude::*;
use vstd::utf8::{decode_utf8, valid_utf8};

verus! {

/// `reqwest::Error` crosses the library unchanged, as the cause of a failed
/// download.
#[verifier::external_type_specification]
#[verifier::external_body]
pub struct ExReqwestError(reqwest::Error);

/// Wraps low-level HTTP errors.
pub struct HttpError {
    pub source: reqwest::Error,
}

/// A failed download, with the request that failed.
pub struct DownloadError<C> {
    pub request: Request<C>,
    pub error: HttpError,
}

/// What `String::from_utf8_lossy` makes of the bytes.
pub uninterp spec fn utf8_lossy(bytes: Seq<u8>) -> Seq<char>;

/// `String::from_utf8_lossy`, as an owned `String`.  The contract claims
/// that the result is the named [`utf8_lossy`] of the bytes, and, as the
/// documentation says, that valid UTF-8 is decoded as it is.
#[verifier::external_body]
pub fn from_utf8_lossy(bytes: &[u8]) -> (r: String)
    ensures
        r@ == utf8_lossy(bytes@),
        valid_utf8(bytes@) ==> r@ == decode_utf8(bytes@),
{
    String::from_utf8_lossy(bytes).into_owned()
}

/// How a download ended, as the network side reports it: a response whose
/// status is not an error, or an error (a transport error, or an error
/// status).
pub enum FetchOutcome {
    Fetched { status: SuccessStatus, headers: http::HeaderMap, body: Vec<u8> },
    Failed(reqwest::Error),
}

/// What the downloader does next with a finished download.
pub enum DownloadStep<C> {
    /// Hand the response to the scraper.
    Deliver(Response<C>),
    /// Send the request back to the scheduler.
    Retry(Request<C>),
    /// Give the request up.
    Dropped,
}

/// What the downloader does with the middlewares' answer to a failure: the
/// request they hand back is retried; none means the request is dropped.
pub open spec fn step_after_errors<C>(answer: Option<Request<C>>) -> DownloadStep<C> {
    match answer {
        Some(q) => DownloadStep::Retry(q),
        None => DownloadStep::Dropped,
    }
}

/// The downloader's decision on a finished download: a fetched response is
/// delivered with its text decoded from the body; a failure goes through
/// the error middlewares, which either send the request back or drop it.
pub fn complete_download<C>(
    processor: &DownloadMiddlewareProcessor<C>,
    request: Request<C>,
    outcome: FetchOutcome,
) -> (r: DownloadStep<C>)
    ensures
        outcome matches FetchOutcome::Fetched { status, headers, body } ==> r matches DownloadStep::Deliver(resp)
            && resp.request == request && resp.status == status.value() && resp.headers == headers
            && resp.body == body && resp.text@ == utf8_lossy(body@),
        r matches DownloadStep::Deliver(resp) ==> !is_error_status(resp.status),
        outcome matches FetchOutcome::Failed(source) ==> exists|answer: Option<Request<C>>|
            chain_answers(
                processor.chain(),
                0,
                DownloadError { request, error: HttpError { source } },
                answer,
            ) && r == step_after_errors(answer),
{
    match outcome {
        FetchOutcome::Fetched { status, headers, body } => {
            let text = from_utf8_lossy(body.as_slice());
            let status = status.code();
            DownloadStep::Deliver(Response { request, status, headers, body, text })
        },
        FetchOutcome::Failed(source) => {
            let de = DownloadError { request, error: HttpError { source } };
            let answer = processor.process_error(de);
            let ghost a = answer;
            let r = match answer {
                Some(retry) => DownloadStep::Retry(retry),
                None => DownloadStep::Dropped,
            };
            assert(r == step_after_errors(a));
            r
        },
    }
}

/// The counters after a piece of work is handed over: one more pending.
pub open spec fn enqueued_counts(c: (int, int)) -> (int, int) {
    (c.0 + 1, c.1)
}

/// The counters after a worker takes a pending piece: one less pending, one
/// more active.
pub open spec fn started_counts(c: (int, int)) -> (int, int) {
    (c.0 - 1, c.1 + 1)
}

/// The counters after a worker finishes: one less active.
pub open spec fn finished_counts(c: (int, int)) -> (int, int) {
    (c.0, c.1 - 1)
}

/// Counts the work of a pool of workers: what was handed over and waits
/// (`pending`), and what a worker is busy with (`active`).
pub struct WorkCounters {
    pending: usize,
    active: usize,
}

impl WorkCounters {
    /// The counters as `(pending, active)`.
    pub closed spec fn counts(&self) -> (int, int) {
        (self.pending as int, self.active as int)
    }

    /// Nothing pending, nothing active.
    pub fn new() -> (c: Self)
        ensures
            c.counts() == (0int, 0int),
    {
        WorkCounters { pending: 0, active: 0 }
    }

    pub fn pending(&self) -> (r: usize)
        ensures
            r == self.counts().0,
    {
        self.pending
    }

    pub fn active(&self) -> (r: usize)
        ensures
            r == self.counts().1,
    {
        self.active
    }

    /// One more piece of work was handed over.
    pub fn enqueued(&mut self)
        requires
            old(self).counts().0 < usize::MAX,
        ensures
            final(self).counts() == enqueued_counts(old(self).counts()),
    {
        self.pending = self.pending + 1;
    }

    /// A worker took a pending piece of work.
    pub fn started(&mut self)
        requires
            old(self).counts().0 > 0,
            old(self).counts().1 < usize::MAX,
        ensures
            final(self).counts() == started_counts(old(self).counts()),
    {
        self.pending = self.pending - 1;
        self.active = self.active + 1;
    }

    /// A worker finished its piece of work.
    pub fn finished(&mut self)
        requires
            old(self).counts().1 > 0,
        ensures
            final(self).counts() == finished_counts(old(self).counts()),
    {
        self.active = self.active - 1;
    }

    /// Idle: nothing pending and nothing active.
    pub fn is_idle(&self) -> (r: bool)
        ensures
            r == (self.counts() == (0int, 0int)),
    {
        self.pending == 0 && self.active == 0
    }

    /// The downloader backs off while its queue (of twice the concurrency
    /// limit) is full.
    pub fn needs_backoff(&self, concurrency_limit: usize) -> (r: bool)
        requires
            concurrency_limit * 2 <= usize::MAX,
        ensures
            r == (self.counts().0 == concurrency_limit * 2),
    {
        self.pending == concurrency_limit * 2
    }
}

/// Law: a piece of work that is handed over, taken and finished leaves the
/// counters as they were; so idle counters are idle again.
pub proof fn lemma_round_trip_restores(c: (int, int))
    ensures
        finished_counts(started_counts(enqueued_counts(c))) == c,
{
}

/// Law: while a piece of work is pending or active, the counters are not
/// idle.
pub proof fn lemma_work_in_flight_not_idle(c: (int, int))
    requires
        c.0 >= 0,
        c.1 >= 0,
    ensures
        enqueued_counts(c) != (0int, 0int),
        c.0 > 0 ==> started_counts(c) != (0int, 0int),
{
}

/// A change of the work counters.
pub enum WorkEvent {
    /// A piece of work was handed over.
    Enqueued,
    /// A worker took a pending piece.
    Started,
    /// A worker finished its piece.
    Finished,
}

/// The counters after the events, in order, starting from `c`.
pub open spec fn counts_after(c: (int, int), events: Seq<WorkEvent>) -> (int, int)
    decreases events.len(),
{
    if events.len() == 0 {
        c
    } else {
        let before = counts_after(c, events.drop_last());
        match events.last() {
            WorkEvent::Enqueued => enqueued_counts(before),
            WorkEvent::Started => started_counts(before),
            WorkEvent::Finished => finished_counts(before),
        }
    }
}

/// How many of the events are `e`.
pub open spec fn tally(events: Seq<WorkEvent>, e: WorkEvent) -> int
    decreases events.len(),
{
    if events.len() == 0 {
        0
    } else {
        tally(events.drop_last(), e) + if events.last() == e {
            1int
        } else {
            0int
        }
    }
}

/// Law: whatever the order of the events, what is pending is what was
/// handed over and not yet taken, and what is active is what was taken and
/// not yet finished.
pub proof fn lemma_counts_after(c: (int, int), events: Seq<WorkEvent>)
    ensures
        counts_after(c, events) == (
            c.0 + tally(events, WorkEvent::Enqueued) - tally(events, WorkEvent::Started),
            c.1 + tally(events, WorkEvent::Started) - tally(events, WorkEvent::Finished),
        ),
    decreases events.len(),
{
    if events.len() > 0 {
        lemma_counts_after(c, events.drop_last());
    }
}

/// Law: counters that start idle are idle again exactly when every piece of
/// work handed over has been taken and finished.
pub proof fn lemma_idle_iff_all_done(events: Seq<WorkEvent>)
    ensures
        counts_after((0int, 0int), events) == (0int, 0int) <==> (tally(events, WorkEvent::Enqueued)
            == tally(events, WorkEvent::Started) && tally(events, WorkEvent::Started) == tally(
            events,
            WorkEvent::Finished,
        )),
{
    lemma_counts_after((0int, 0int), events);
}

} // verus!
