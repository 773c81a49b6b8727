# skrapy

A small crawling framework in the style of Scrapy, written in Verus.

`src/` is the verified library:

- `request`, `requests`: requests, canonical URLs and SHA-1 fingerprints
  (`url_ops` holds the calls into the `url` crate, `canonical` the
  canonical order of query parameters and its laws);
- `scheduler`: the de-duplicating priority scheduler;
- `download_middleware`, `downloader`: download-error middlewares, the
  decision taken on a finished download, and the work counters;
- `item_pipeline`, `items`: item pipelines over items held as JSON;
- `spider`, `scraper`, `engine`, `response`: what spiders yield and the
  decisions of the scraper and the engine.

`app/` is the asynchronous program around it: the engine's event loop, the
download and scraper workers (tokio, reqwest), the JSON-lines exporter,
XPath selection (libxml), logging, and an example spider.
