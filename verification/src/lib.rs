//! A small web-crawler core: a work frontier of pending URLs, a visited set
//! with a claim-before-fetch discipline, host and visit-budget filtering, and
//! best-effort relative-to-absolute URL resolution. The crawl is pull-driven:
//! the caller asks for the next action, performs the HTTP fetch itself, and
//! hands the outcome back; everything around the fetch is verified.

pub mod crawler;
pub mod html;
pub mod url;
pub mod visited;
pub mod visitor;

pub use crawler::Crawler;
