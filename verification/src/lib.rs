//! The logic of a personal browser-history indexer.

pub mod browser;
pub mod cluster;
pub mod config;
pub mod desktop;
pub mod fetch;
pub mod index;
pub mod json;
pub mod lists;
pub mod mcp;
pub mod order;
pub mod paths;
pub mod rag;
pub mod score;
pub mod server;
pub mod session_log;
pub mod sync;
pub mod text;
pub mod time;
