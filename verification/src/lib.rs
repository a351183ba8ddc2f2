//! Verified core of a media-site scraping engine: M3U8 playlist parsing,
//! danmaku (bullet comment) extraction, a small XPath engine over HTML,
//! rule-driven extraction and a string middleware chain.
pub mod text;
pub mod m3u8;
pub mod middleware;
pub mod dom;
pub mod xpath;
pub mod json;
pub mod xpath_json;
pub mod rule;
pub mod executor;
pub mod danmaku;
pub mod config;
