use skrapy::request::{Callback, Method, Request};
use skrapy::scheduler::{DupeFilter, MemoryDupeFilter, PriorityQueue, Scheduler};

type Cb = fn(u8) -> u8;

fn dummy_callback(x: u8) -> u8 {
    x
}

fn dummy_request(url: &str) -> Request<Cb> {
    dummy_request_with_priority(url, 0, false)
}

fn dummy_request_with_priority(url: &str, priority: i32, is_start: bool) -> Request<Cb> {
    Request::new(
        url.to_string(),
        Method::GET,
        http::HeaderMap::new(),
        Vec::new(),
        Callback::Call(dummy_callback as Cb),
        priority,
        0,
        is_start,
    )
}

#[test]
fn test_dupefilter_detects_duplicates() {
    let mut filter = MemoryDupeFilter::new();

    let req1 = dummy_request("http://example.com/page");
    let req2 = dummy_request("http://example.com/page");
    let req3 = dummy_request("http://example.com/other");

    assert!(filter.record_request_if_unseen(&req1));
    assert!(!filter.record_request_if_unseen(&req2));
    assert!(filter.record_request_if_unseen(&req3));
}

#[test]
fn test_priority_queue_push_and_pop() {
    let mut queue = PriorityQueue::new();

    let r1 = dummy_request_with_priority("http://example.com/low", 50, false);
    let r2 = dummy_request_with_priority("http://example.com/high", 0, false);
    let r3 = dummy_request_with_priority("http://example.com/medium", 10, false);

    queue.push(r1);
    queue.push(r2);
    queue.push(r3);

    let popped1 = queue.pop().unwrap();
    let popped2 = queue.pop().unwrap();
    let popped3 = queue.pop().unwrap();

    assert_eq!(popped1.url.as_str(), "http://example.com/high");
    assert_eq!(popped2.url.as_str(), "http://example.com/medium");
    assert_eq!(popped3.url.as_str(), "http://example.com/low");
}

#[test]
fn test_priority_queue_respects_start_request() {
    let mut queue = PriorityQueue::new();

    let r1 = dummy_request_with_priority("http://example.com/start", 50, true);
    let r2 = dummy_request_with_priority("http://example.com/normal", 0, false);

    queue.push(r2);
    queue.push(r1);

    let popped = queue.pop().unwrap();
    assert_eq!(popped.url.as_str(), "http://example.com/start");
}

#[test]
fn test_priority_queue_peek() {
    let mut queue = PriorityQueue::new();

    let r1 = dummy_request_with_priority("http://example.com/first", 5, false);
    let r2 = dummy_request_with_priority("http://example.com/second", 3, false);

    queue.push(r1);
    queue.push(r2);

    let peeked = queue.peek().unwrap();
    assert_eq!(peeked.url.as_str(), "http://example.com/second");

    let popped = queue.pop().unwrap();
    assert_eq!(popped.url.as_str(), "http://example.com/second");
}

#[test]
fn test_priority_queue_len_and_empty() {
    let mut queue = PriorityQueue::new();
    assert!(queue.is_empty());

    let r1 = dummy_request_with_priority("http://example.com", 2, false);
    queue.push(r1);
    assert_eq!(queue.len(), 1);
    assert!(!queue.is_empty());

    queue.pop();
    assert!(queue.is_empty());
}

#[test]
fn test_peek_next_request_matches_next_request() {
    let mut scheduler = Scheduler::new();
    let req = dummy_request("http://example.com");
    assert!(scheduler.enqueue_request(req.clone()));

    let peeked = scheduler.peek_next_request().expect("Expected peek to return a request");
    assert_eq!(peeked.url.as_str(), req.url.as_str());

    let next = scheduler.next_request().expect("Expected next_request to return a request");
    assert_eq!(next.url.as_str(), req.url.as_str());
}

// Further cases of the library's own.

#[test]
fn scheduler_refuses_duplicate_even_after_it_left() {
    let mut scheduler = Scheduler::new();
    assert!(scheduler.enqueue_request(dummy_request("http://example.com/a?x=1&y=2")));
    assert!(scheduler.next_request().is_some());
    assert!(!scheduler.has_pending_requests());
    // Same canonical URL, other parameter order: refused.
    assert!(!scheduler.enqueue_request(dummy_request("http://example.com/a?y=2&x=1")));
    assert!(!scheduler.has_pending_requests());
    assert!(scheduler.enqueue_request(dummy_request("http://example.com/b")));
    assert!(scheduler.has_pending_requests());
}

#[test]
fn queue_ties_leave_in_queue_order() {
    let mut queue = PriorityQueue::new();
    queue.push(dummy_request_with_priority("http://example.com/1", 4, false));
    queue.push(dummy_request_with_priority("http://example.com/2", 4, false));
    queue.push(dummy_request_with_priority("http://example.com/3", 4, false));
    assert_eq!(queue.pop().unwrap().url, "http://example.com/1");
    assert_eq!(queue.pop().unwrap().url, "http://example.com/2");
    assert_eq!(queue.pop().unwrap().url, "http://example.com/3");
    assert!(queue.pop().is_none());
    assert!(queue.peek().is_none());
}

#[test]
fn queue_priority_counts_retries() {
    let mut queue = PriorityQueue::new();
    let mut retried = dummy_request_with_priority("http://example.com/retried", 2, false);
    retried.increment_retry_count();
    retried.increment_retry_count();
    queue.push(retried); // 2 + 2 = 4
    queue.push(dummy_request_with_priority("http://example.com/three", 3, false));
    assert_eq!(queue.pop().unwrap().url, "http://example.com/three");
    assert_eq!(queue.pop().unwrap().url, "http://example.com/retried");
}

#[test]
fn queue_zero_priority_counts_as_one() {
    let mut queue = PriorityQueue::new();
    queue.push(dummy_request_with_priority("http://example.com/zero", 0, false));
    queue.push(dummy_request_with_priority("http://example.com/one", 1, false));
    // Both are queued under priority 1: the first queued leaves first.
    assert_eq!(queue.pop().unwrap().url, "http://example.com/zero");
    let mut queue = PriorityQueue::new();
    queue.push(dummy_request_with_priority("http://example.com/one", 1, false));
    queue.push(dummy_request_with_priority("http://example.com/zero", 0, false));
    assert_eq!(queue.pop().unwrap().url, "http://example.com/one");
}

#[test]
fn next_for_download_waits_while_backing_off() {
    let mut scheduler = Scheduler::new();
    assert!(scheduler.enqueue_request(dummy_request("http://example.com/")));
    assert!(scheduler.next_for_download(true).is_none());
    assert!(scheduler.has_pending_requests());
    assert!(scheduler.next_for_download(false).is_some());
    assert!(scheduler.next_for_download(false).is_none());
}

#[test]
fn try_enqueue_refuses_overflowing_priority() {
    let mut scheduler = Scheduler::new();
    let mut r = dummy_request_with_priority("http://example.com/max", i32::MAX, false);
    r.increment_retry_count();
    assert_eq!(scheduler.try_enqueue_request(r.clone()), None);
    assert!(!scheduler.has_pending_requests());
    assert_eq!(scheduler.try_enqueue_request(dummy_request("http://example.com/ok")), Some(true));
    assert_eq!(scheduler.try_enqueue_request(dummy_request("http://example.com/ok")), Some(false));
}

#[test]
fn dupefilter_has_seen() {
    let mut filter = MemoryDupeFilter::new();
    let fp = dummy_request("http://example.com/").fingerprint();
    assert!(!filter.has_seen(&fp));
    assert!(filter.record_if_unseen(fp.clone()));
    assert!(filter.has_seen(&fp));
    assert!(!filter.record_if_unseen(fp));
}

#[test]
fn scheduler_requeues_a_retried_request() {
    let mut scheduler = Scheduler::new();
    assert!(scheduler.enqueue_request(dummy_request("http://example.com/r")));
    let mut taken = scheduler.next_request().unwrap();
    taken.increment_retry_count();
    // The filter has seen it, but a retry goes back in the queue.
    assert!(scheduler.requeue_request(taken));
    let again = scheduler.next_request().unwrap();
    assert_eq!(again.url, "http://example.com/r");
    assert_eq!(again.retry_count(), 1);
    assert!(!scheduler.has_pending_requests());
    // A new offer of the same request from a spider is still refused.
    assert!(!scheduler.enqueue_request(dummy_request("http://example.com/r")));
}

#[test]
fn requeue_refuses_an_overflowing_priority() {
    let mut scheduler: Scheduler<Cb> = Scheduler::new();
    let mut big = dummy_request_with_priority("http://example.com/big", i32::MAX, false);
    big.increment_retry_count();
    assert!(!scheduler.requeue_request(big));
    assert!(!scheduler.has_pending_requests());
}

#[test]
fn draining_a_queue_gives_every_entry_once_by_priority() {
    let mut queue = PriorityQueue::new();
    let priorities = [5, 2, 9, 2, 7, 1];
    for (k, p) in priorities.iter().enumerate() {
        queue.push(dummy_request_with_priority(&format!("http://example.com/{}", k), *p, false));
    }
    let mut seen = Vec::new();
    let mut last = i32::MIN;
    while let Some(r) = queue.pop() {
        assert!(r.priority() >= last);
        last = r.priority();
        seen.push(r.url.clone());
    }
    assert_eq!(seen.len(), priorities.len());
    seen.sort();
    seen.dedup();
    assert_eq!(seen.len(), priorities.len());
}
