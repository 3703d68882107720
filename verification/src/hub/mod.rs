//! The hub through which nodes share policies.

pub mod api;
pub mod auth;
pub mod feed;
pub mod laws;
pub mod limiter;
pub mod models;
pub mod registry;
pub mod reports;
pub mod row_key;
pub mod store;
