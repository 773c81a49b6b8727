//! What spiders produce, and their settings.
use crate::item_pipeline::Pipeline;
use crate::items::ItemBox;
use crate::request::Request;
use vstd::prelude::*;

verus! {

/// One thing a spider callback yields: an item, or a request to follow.
pub enum SpiderOutput<C> {
    Item(ItemBox),
    Request(Request<C>),
}

/// A spider's settings: the pipelines its items go through.
pub struct SpiderSettings {
    pub pipelines: Vec<Box<dyn Pipeline>>,
}

impl SpiderSettings {
    /// No pipeline.
    pub fn new() -> (s: Self)
        ensures
            s.pipelines@.len() == 0,
    {
        SpiderSettings { pipelines: Vec::new() }
    }
}

} // verus!
