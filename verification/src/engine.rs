//! The engine's decisions: what it does with each event of its loop.
use crate::request::Request;
use crate::scheduler::{first_min_index, priority_fits, queue_priority, PrioritizedRequest, Scheduler};
use vstd::prelude::*;

verus! {

/// The engine stops once the downloader and the scraper are idle, the
/// scheduler holds nothing, and no response, spider request or retried
/// request waits in a channel.
pub fn should_shutdown(
    downloader_idle: bool,
    scraper_idle: bool,
    scheduler_has_pending: bool,
    responses_waiting: bool,
    spider_requests_waiting: bool,
    retried_requests_waiting: bool,
) -> (r: bool)
    ensures
        r == (downloader_idle && scraper_idle && !scheduler_has_pending && !responses_waiting
            && !spider_requests_waiting && !retried_requests_waiting),
{
    downloader_idle && scraper_idle && !scheduler_has_pending && !responses_waiting
        && !spider_requests_waiting && !retried_requests_waiting
}

/// What happens around the engine.
pub enum EngineEvent<C> {
    /// A spider yielded a request.
    SpiderRequest(Request<C>),
    /// The downloader sent a failed request back for a retry.
    RetriedRequest(Request<C>),
    /// The downloader can take a request, unless it asks to back off.
    DownloaderReady { backoff: bool },
    /// The state of the rest of the crawl, to decide whether to stop.
    IdleCheck {
        downloader_idle: bool,
        scraper_idle: bool,
        responses_waiting: bool,
        spider_requests_waiting: bool,
        retried_requests_waiting: bool,
    },
}

/// What the engine asks its loop to do.
pub enum EngineAction<C> {
    Nothing,
    /// Hand this request to the downloader.
    Download(Request<C>),
    /// Stop the crawl.
    Shutdown,
    /// A new request whose queue priority does not fit in an `i32`: the
    /// crawl cannot go on.
    PriorityOverflow,
}

/// The engine's state: its scheduler.
pub struct EngineCore<C> {
    pub scheduler: Scheduler<C>,
}

impl<C> EngineCore<C> {
    /// An engine whose scheduler has seen nothing.
    pub fn new() -> (e: Self)
        ensures
            e.scheduler.seen() == Set::<Seq<u8>>::empty(),
            e.scheduler.pending() == Seq::<PrioritizedRequest<C>>::empty(),
    {
        EngineCore { scheduler: Scheduler::new() }
    }

    /// One step of the engine's loop.  A request from the spider goes to the
    /// scheduler, which lets each fingerprint through once; a request the
    /// downloader sent back for a retry is queued again; a ready downloader
    /// gets the next request unless it backs off; an idle check says whether
    /// to stop.
    pub fn step(&mut self, event: EngineEvent<C>) -> (r: EngineAction<C>)
        ensures
            match event {
                EngineEvent::RetriedRequest(q) => {
                    &&& final(self).scheduler.seen() == old(self).scheduler.seen()
                    &&& if priority_fits(q) {
                        r is Nothing && final(self).scheduler.pending() == old(self).scheduler.pending().push(
                            PrioritizedRequest { priority: queue_priority(q) as i32, request: q },
                        )
                    } else {
                        r is PriorityOverflow && final(self).scheduler.pending() == old(self).scheduler.pending()
                    }
                },
                EngineEvent::SpiderRequest(q) => {
                    let fp = q.spec_fingerprint();
                    let new = !old(self).scheduler.seen().contains(fp);
                    if new && !priority_fits(q) {
                        r is PriorityOverflow && final(self).scheduler.seen() == old(self).scheduler.seen()
                            && final(self).scheduler.pending() == old(self).scheduler.pending()
                    } else {
                        r is Nothing && final(self).scheduler.seen() == old(self).scheduler.seen().insert(fp)
                            && final(self).scheduler.pending() == if new {
                            old(self).scheduler.pending().push(
                                PrioritizedRequest { priority: queue_priority(q) as i32, request: q },
                            )
                        } else {
                            old(self).scheduler.pending()
                        }
                    }
                },
                EngineEvent::DownloaderReady { backoff } => {
                    &&& final(self).scheduler.seen() == old(self).scheduler.seen()
                    &&& if backoff || old(self).scheduler.pending().len() == 0 {
                        r is Nothing && final(self).scheduler.pending() == old(self).scheduler.pending()
                    } else {
                        let i = first_min_index(old(self).scheduler.pending());
                        r == EngineAction::Download(old(self).scheduler.pending()[i].request)
                            && final(self).scheduler.pending() == old(self).scheduler.pending().remove(i)
                    }
                },
                EngineEvent::IdleCheck {
                    downloader_idle,
                    scraper_idle,
                    responses_waiting,
                    spider_requests_waiting,
                    retried_requests_waiting,
                } => {
                    &&& final(self).scheduler.seen() == old(self).scheduler.seen()
                    &&& final(self).scheduler.pending() == old(self).scheduler.pending()
                    &&& (r is Shutdown <==> (downloader_idle && scraper_idle
                        && old(self).scheduler.pending().len() == 0 && !responses_waiting
                        && !spider_requests_waiting && !retried_requests_waiting))
                    &&& (r is Shutdown || r is Nothing)
                },
            },
    {
        match event {
            EngineEvent::SpiderRequest(q) => {
                match self.scheduler.try_enqueue_request(q) {
                    None => EngineAction::PriorityOverflow,
                    Some(_) => EngineAction::Nothing,
                }
            },
            EngineEvent::RetriedRequest(q) => {
                if self.scheduler.requeue_request(q) {
                    EngineAction::Nothing
                } else {
                    EngineAction::PriorityOverflow
                }
            },
            EngineEvent::DownloaderReady { backoff } => {
                match self.scheduler.next_for_download(backoff) {
                    Some(q) => EngineAction::Download(q),
                    None => EngineAction::Nothing,
                }
            },
            EngineEvent::IdleCheck {
                downloader_idle,
                scraper_idle,
                responses_waiting,
                spider_requests_waiting,
                retried_requests_waiting,
            } => {
                if should_shutdown(
                    downloader_idle,
                    scraper_idle,
                    self.scheduler.has_pending_requests(),
                    responses_waiting,
                    spider_requests_waiting,
                    retried_requests_waiting,
                ) {
                    EngineAction::Shutdown
                } else {
                    EngineAction::Nothing
                }
            },
        }
    }
}

} // verus!
