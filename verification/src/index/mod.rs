//! The index of visited pages.

pub mod backup;
pub mod effects;
pub mod laws;
pub mod query;
pub mod schema;
pub mod search;
pub mod store;
pub mod vectors;
