//! The link engine of a URL shortener: validation of URLs, codes and
//! lifetimes, code generation, creation and resolution of links with expiry,
//! the expiry sweep, per-client rate limiting, and visit analytics.

use vstd::prelude::*;

pub mod analytics;
pub mod client;
pub mod clientkey;
pub mod clock;
pub mod codegen;
pub mod config;
pub mod daily;
pub mod models;
pub mod ratelimit;
pub mod report;
pub mod service;
pub mod status;
pub mod store;
pub mod text;
pub mod validation;

verus! {

} // verus!
