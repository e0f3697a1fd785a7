//! Context resolution, paginated retrieval and diff filtering for a
//! terminal client of a hosted pull-request review service.

pub mod api;
pub mod args;
pub mod config;
pub mod context;
pub mod credentials;
pub mod debug;
pub mod diff;
pub mod models;
pub mod remote;
pub mod store;
pub mod text;
