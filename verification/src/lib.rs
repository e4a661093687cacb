//! Turns rustdoc HTML pages into compact plain-text summaries.
pub mod text;
pub mod markup;
pub mod engines;
pub mod scrape;
pub mod pages;
pub mod crawl;
pub mod rich;
