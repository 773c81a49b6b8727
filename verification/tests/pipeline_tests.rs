use skrapy::item_pipeline::check_required_fields;
use skrapy::engine::{should_shutdown, EngineAction, EngineCore, EngineEvent};
use skrapy::item_pipeline::{
    export_outcome, json_line, Pipeline, PipelineError, PipelineManager, PipelineOutcome, RequireFields,
};
use skrapy::items::ItemBox;
use skrapy::request::Request;
use skrapy::scraper::prepare_spider_output;
use skrapy::spider::{SpiderOutput, SpiderSettings};
use std::sync::atomic::{AtomicUsize, Ordering};
use serde::ser::SerializeStruct;
use std::sync::Arc;

fn item(json: &str) -> ItemBox {
    ItemBox::from_json(json.as_bytes().to_vec())
}

fn fields(names: &[&str]) -> Vec<String> {
    names.iter().map(|s| s.to_string()).collect()
}

#[test]
fn require_fields_passes_on_object() {
    let pipe = RequireFields::new(fields(&["title", "price"]));
    match pipe.process(item(r#"{"title":"Widget","price":9.99}"#)).unwrap() {
        PipelineOutcome::Continue(_) => {}
        other => panic!("expected Continue, got {:?}", other),
    }
}

#[test]
fn require_fields_drops_when_missing() {
    let pipe = RequireFields::new(fields(&["title", "price"]));
    match pipe.process(item(r#"{"title":"Widget"}"#)).unwrap() {
        PipelineOutcome::Drop(reason) => assert!(reason.contains("missing field")),
        _ => panic!("expected Drop"),
    }
}

#[test]
fn require_fields_drops_non_object() {
    let pipe = RequireFields::new(fields(&["anything"]));
    match pipe.process(item(r#""just a string""#)).unwrap() {
        PipelineOutcome::Drop(reason) => assert!(reason.contains("not an object")),
        _ => panic!("expected Drop for non-object"),
    }
}

struct Product {
    title: String,
    price: f64,
}

impl serde::Serialize for Product {
    fn serialize<S: serde::Serializer>(&self, serializer: S) -> Result<S::Ok, S::Error> {
        let mut st = serializer.serialize_struct("Product", 2)?;
        st.serialize_field("title", &self.title)?;
        st.serialize_field("price", &self.price)?;
        st.end()
    }
}

#[test]
fn require_fields_handles_typed_struct() {
    let json = serde_json::to_vec(&Product { title: "Widget".into(), price: 9.99 }).unwrap();
    let pipe = RequireFields::new(fields(&["title", "price"]));
    match pipe.process(ItemBox::from_json(json)).unwrap() {
        PipelineOutcome::Continue(_) => {}
        _ => panic!("typed struct should pass"),
    }
}

struct CountingPipeline {
    hits: Arc<AtomicUsize>,
}
impl Pipeline for CountingPipeline {
    fn open(&self) -> Result<(), PipelineError> {
        Ok(())
    }
    fn close(&self) -> Result<(), PipelineError> {
        Ok(())
    }
    fn process(&self, item: ItemBox) -> Result<PipelineOutcome, PipelineError> {
        self.hits.fetch_add(1, Ordering::SeqCst);
        Ok(PipelineOutcome::Continue(item))
    }
}

struct Dropper;
impl Pipeline for Dropper {
    fn open(&self) -> Result<(), PipelineError> {
        Ok(())
    }
    fn close(&self) -> Result<(), PipelineError> {
        Ok(())
    }
    fn process(&self, _item: ItemBox) -> Result<PipelineOutcome, PipelineError> {
        Ok(PipelineOutcome::Drop("nope".into()))
    }
}

#[test]
fn manager_runs_pipelines_and_stops_after_drop() {
    let hits = Arc::new(AtomicUsize::new(0));
    let p1: Box<dyn Pipeline> = Box::new(CountingPipeline { hits: hits.clone() });
    let p2: Box<dyn Pipeline> = Box::new(Dropper);
    let p3: Box<dyn Pipeline> = Box::new(CountingPipeline { hits: hits.clone() });
    let mgr = PipelineManager::new(vec![p1, p2, p3]);

    mgr.open().unwrap();
    let out = mgr.process(item(r#"{"a":1}"#)).unwrap();
    mgr.close().unwrap();

    assert!(out.is_none(), "item should be dropped by Dropper");
    assert_eq!(hits.load(Ordering::SeqCst), 1, "pipelines after Drop must not run");
}

struct AddField {
    key: &'static str,
    val: i32,
}
impl Pipeline for AddField {
    fn open(&self) -> Result<(), PipelineError> {
        Ok(())
    }
    fn close(&self) -> Result<(), PipelineError> {
        Ok(())
    }
    fn process(&self, item: ItemBox) -> Result<PipelineOutcome, PipelineError> {
        let mut v: serde_json::Value =
            serde_json::from_slice(item.json()).map_err(|e| PipelineError::Other(e.to_string()))?;
        let obj = v.as_object_mut().ok_or_else(|| PipelineError::Drop("not an object".into()))?;
        obj.insert(self.key.to_string(), serde_json::Value::from(self.val));
        Ok(PipelineOutcome::Continue(ItemBox::from_json(serde_json::to_vec(&v).unwrap())))
    }
}

#[test]
fn manager_applies_transforms_in_order() {
    let p1: Box<dyn Pipeline> = Box::new(AddField { key: "x", val: 1 });
    let p2: Box<dyn Pipeline> = Box::new(AddField { key: "y", val: 2 });
    let mgr = PipelineManager::new(vec![p1, p2]);
    mgr.open().unwrap();
    let out = mgr.process(item(r#"{"title":"T"}"#)).unwrap().unwrap();
    mgr.close().unwrap();

    let v: serde_json::Value = serde_json::from_slice(out.json()).unwrap();
    assert_eq!(v["x"], 1);
    assert_eq!(v["y"], 2);
    assert_eq!(v["title"], "T");
}

// Further cases of the library's own.

#[test]
fn require_fields_names_first_missing_field() {
    let pipe = RequireFields::new(fields(&["a", "b", "c"]));
    match pipe.process(item(r#"{"a":1}"#)).unwrap() {
        PipelineOutcome::Drop(reason) => assert_eq!(reason, "missing field: b"),
        _ => panic!("expected Drop"),
    }
}

#[test]
fn require_fields_reports_invalid_json() {
    let pipe = RequireFields::new(fields(&["a"]));
    match pipe.process(item("{not json")) {
        Err(PipelineError::Other(m)) => assert_eq!(m, "item is not valid JSON"),
        _ => panic!("expected Other"),
    }
}

#[test]
fn empty_manager_passes_item_through() {
    let mgr = PipelineManager::new(Vec::new());
    assert!(mgr.open().is_ok());
    let out = mgr.process(item(r#"{"k":"v"}"#)).unwrap().unwrap();
    assert_eq!(out.json(), &br#"{"k":"v"}"#.to_vec());
    assert!(mgr.close().is_ok());
}

struct Failing;
impl Pipeline for Failing {
    fn open(&self) -> Result<(), PipelineError> {
        Err(PipelineError::Other("cannot open".into()))
    }
    fn process(&self, _item: ItemBox) -> Result<PipelineOutcome, PipelineError> {
        Err(PipelineError::Drop("bad".into()))
    }
    fn close(&self) -> Result<(), PipelineError> {
        Ok(())
    }
}

#[test]
fn manager_returns_first_error() {
    let p: Box<dyn Pipeline> = Box::new(Failing);
    let mgr = PipelineManager::new(vec![p]);
    assert!(matches!(mgr.open(), Err(PipelineError::Other(m)) if m == "cannot open"));
    assert!(matches!(mgr.process(item("{}")), Err(PipelineError::Drop(m)) if m == "bad"));
    assert!(mgr.close().is_ok());
}

#[test]
fn json_line_appends_newline() {
    assert_eq!(json_line(&item(r#"{"a":1}"#)), b"{\"a\":1}\n".to_vec());
}

#[test]
fn export_outcomes() {
    assert!(matches!(export_outcome(None), Err(PipelineError::Other(m)) if m == "JsonLinesExporter not opened"));
    assert!(matches!(export_outcome(Some(Err("disk full".into()))), Err(PipelineError::Other(m)) if m == "disk full"));
    assert!(matches!(export_outcome(Some(Ok(()))), Ok(PipelineOutcome::Drop(m)) if m == "exported"));
}

#[test]
fn spider_output_marked_start_only_when_from_start() {
    let req = Request::<u8>::get("http://example.com/");
    match prepare_spider_output(SpiderOutput::Request(req.clone()), true) {
        SpiderOutput::Request(r) => assert!(r.is_start_request()),
        _ => panic!("expected Request"),
    }
    match prepare_spider_output(SpiderOutput::Request(req), false) {
        SpiderOutput::Request(r) => assert!(!r.is_start_request()),
        _ => panic!("expected Request"),
    }
    match prepare_spider_output::<u8>(SpiderOutput::Item(item("{}")), true) {
        SpiderOutput::Item(i) => assert_eq!(i.json(), &b"{}".to_vec()),
        _ => panic!("expected Item"),
    }
}

#[test]
fn engine_shuts_down_only_when_all_idle() {
    assert!(should_shutdown(true, true, false, false, false, false));
    assert!(!should_shutdown(false, true, false, false, false, false));
    assert!(!should_shutdown(true, true, true, false, false, false));
    assert!(!should_shutdown(true, true, false, false, false, true));
}

#[test]
fn spider_settings_start_without_pipelines() {
    assert!(SpiderSettings::new().pipelines.is_empty());
}

#[test]
fn item_placeholder_default() {
    let _ = skrapy::items::Item::default();
}

#[test]
fn engine_core_steps() {
    let mut core = EngineCore::<u8>::new();
    let idle = || EngineEvent::IdleCheck {
        downloader_idle: true,
        scraper_idle: true,
        responses_waiting: false,
        spider_requests_waiting: false,
        retried_requests_waiting: false,
    };
    assert!(matches!(core.step(EngineEvent::SpiderRequest(Request::get("http://example.com/"))), EngineAction::Nothing));
    // A duplicate from the spider is refused, nothing more is queued.
    assert!(matches!(core.step(EngineEvent::SpiderRequest(Request::get("http://example.com/"))), EngineAction::Nothing));
    assert!(matches!(core.step(idle()), EngineAction::Nothing));
    assert!(matches!(core.step(EngineEvent::DownloaderReady { backoff: true }), EngineAction::Nothing));
    let mut downloaded = match core.step(EngineEvent::DownloaderReady { backoff: false }) {
        EngineAction::Download(r) => r,
        _ => panic!("expected Download"),
    };
    assert_eq!(downloaded.url, "http://example.com/");
    assert!(matches!(core.step(EngineEvent::DownloaderReady { backoff: false }), EngineAction::Nothing));
    // The download failed and comes back for a retry: it is queued again,
    // though its fingerprint was seen, and handed out once more.
    downloaded.increment_retry_count();
    assert!(matches!(core.step(EngineEvent::RetriedRequest(downloaded)), EngineAction::Nothing));
    assert!(matches!(core.step(idle()), EngineAction::Nothing));
    match core.step(EngineEvent::DownloaderReady { backoff: false }) {
        EngineAction::Download(r) => {
            assert_eq!(r.url, "http://example.com/");
            assert_eq!(r.retry_count(), 1);
        }
        _ => panic!("expected the retried request"),
    }
    assert!(matches!(core.step(EngineEvent::DownloaderReady { backoff: false }), EngineAction::Nothing));
    assert!(matches!(core.step(idle()), EngineAction::Shutdown));
    let mut big = Request::<u8>::new(
        "http://example.com/big".to_string(),
        skrapy::request::Method::GET,
        http::HeaderMap::new(),
        Vec::new(),
        skrapy::request::Callback::Noop,
        i32::MAX,
        0,
        false,
    );
    big.increment_retry_count();
    assert!(matches!(core.step(EngineEvent::SpiderRequest(big)), EngineAction::PriorityOverflow));
}

#[test]
fn check_required_fields_on_parsed_keys() {
    let required = vec!["a".to_string(), "b".to_string()];
    let it = ItemBox::from_json(b"{}".to_vec());
    assert!(matches!(check_required_fields(&required, None, it.clone()), Err(PipelineError::Other(m)) if m == "item is not valid JSON"));
    assert!(matches!(check_required_fields(&required, Some(None), it.clone()), Ok(PipelineOutcome::Drop(m)) if m == "item is not an object"));
    assert!(matches!(
        check_required_fields(&required, Some(Some(vec!["a".to_string()])), it.clone()),
        Ok(PipelineOutcome::Drop(m)) if m == "missing field: b"
    ));
    assert!(matches!(
        check_required_fields(&required, Some(Some(vec!["b".to_string(), "a".to_string()])), it),
        Ok(PipelineOutcome::Continue(_))
    ));
}
