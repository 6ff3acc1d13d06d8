//! Verified core of an anime search and download tool: episode range
//! parsing, playlist and URL handling, provider response processing and
//! the configuration model.

pub mod text;
pub mod bridge;
pub mod types;
pub mod m3u8;
pub mod utils;
pub mod providers;
pub mod config;
pub mod extractors;
pub mod terminal;
pub mod self_test;
