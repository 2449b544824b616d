use vstd::prelude::*;

verus! {

/// Settings of the server.
#[derive(Debug, Clone)]
pub struct Config {
    /// Where the database lives, such as `sqlite:cutl.db`.
    pub database_url: String,
    /// The base of the short URLs handed out, such as `http://localhost:3000`.
    pub base_url: String,
    /// The address the server listens on, such as `0.0.0.0:3000`.
    pub bind_address: String,
    /// The bearer token that creation and analytics ask for, if any.
    pub auth_token: Option<String>,
    /// Requests a minute that one client may make in the long run.
    pub rate_limit: u32,
    /// Requests that one client may make at once.
    pub rate_limit_burst: u32,
}

/// The server's default rate: ten requests a minute.
pub const DEFAULT_RATE_LIMIT: u32 = 10;

/// The server's default burst: two requests at once.
pub const DEFAULT_RATE_LIMIT_BURST: u32 = 2;

/// Seconds between two runs of the expiry sweep.
pub const SWEEP_INTERVAL_SECONDS: u64 = 60;

} // verus!
