//! The scraper's decision on each thing a spider yields.
use crate::request::is_retry_of;
use crate::spider::SpiderOutput;
use vstd::prelude::*;

verus! {

/// Prepares a spider output for its way on: items go to the pipelines as
/// they are; requests go to the scheduler, marked as start requests when
/// they came from the spider's start.
pub fn prepare_spider_output<C>(output: SpiderOutput<C>, is_start: bool) -> (r: SpiderOutput<C>)
    ensures
        output matches SpiderOutput::Item(i) ==> r == SpiderOutput::<C>::Item(i),
        output matches SpiderOutput::Request(q) ==> r matches SpiderOutput::Request(q2) && q2.url == q.url
            && q2.method == q.method && q2.headers == q.headers && q2.body == q.body
            && q2.callback == q.callback && q2.spec_priority() == q.spec_priority()
            && q2.spec_retry_count() == q.spec_retry_count()
            && q2.spec_is_start_request() == (q.spec_is_start_request() || is_start),
{
    match output {
        SpiderOutput::Item(i) => SpiderOutput::Item(i),
        SpiderOutput::Request(q) => {
            if is_start {
                SpiderOutput::Request(q.as_start())
            } else {
                SpiderOutput::Request(q)
            }
        },
    }
}

} // verus!
