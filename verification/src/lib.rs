//! Scraping of tab data and search results from Ultimate Guitar pages.

pub mod error;
pub mod text;
pub mod types;
pub mod patterns;
pub mod network;
pub mod tab_scraper;
pub mod search_scraper;
