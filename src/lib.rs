//! A breadth-first web crawler core: URL normalization, link extraction,
//! and the frontier / link-graph state machine that drives a crawl.

pub mod url_norm;
pub mod extract;
pub mod crawler;
