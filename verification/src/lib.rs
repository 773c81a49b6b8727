//! A small crawling framework: requests and their fingerprints, a
//! de-duplicating priority scheduler, download-error middlewares, item
//! pipelines, and the decisions that the engine, the downloader and the
//! scraper take.
pub mod canonical;
pub mod url_ops;
pub mod request;
pub mod scheduler;
pub mod download_middleware;
pub mod reply;
pub mod downloader;
pub mod response;
pub mod engine;
pub mod item_pipeline;
pub mod items;
pub mod scraper;
pub mod spider;
pub mod requests;
