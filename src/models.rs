use vstd::prelude::*;

verus! {

/// A stored short link.
#[derive(Debug, Clone)]
pub struct Link {
    pub code: String,
    pub original_url: String,
    pub expires_at: i64,
    pub created_at: i64,
}

/// What a [`Link`] holds, as plain values.
pub ghost struct LinkView {
    pub code: Seq<char>,
    pub original_url: Seq<char>,
    pub expires_at: int,
    pub created_at: int,
}

impl View for Link {
    type V = LinkView;

    open spec fn view(&self) -> LinkView {
        LinkView {
            code: self.code@,
            original_url: self.original_url@,
            expires_at: self.expires_at as int,
            created_at: self.created_at as int,
        }
    }
}

impl LinkView {
    /// A link is live up to and including its expiry instant.
    pub open spec fn is_live(self, now: int) -> bool {
        now <= self.expires_at
    }
}

/// One recorded visit of a short link.
#[derive(Debug, Clone)]
pub struct Visit {
    pub code: String,
    pub visited_at: i64,
    pub ip: Option<String>,
    pub country: Option<String>,
    pub city: Option<String>,
    pub user_agent: Option<String>,
    pub referer: Option<String>,
}

/// What the client of a redirect tells about itself; every part may be absent.
#[derive(Debug, Clone)]
pub struct VisitInfo {
    pub ip: Option<String>,
    pub country: Option<String>,
    pub city: Option<String>,
    pub user_agent: Option<String>,
    pub referer: Option<String>,
}

/// One visit as the analytics report lists it.
#[derive(Debug, Clone)]
pub struct VisitRow {
    pub visited_at: i64,
    pub ip: Option<String>,
    pub country: Option<String>,
    pub city: Option<String>,
    pub user_agent: Option<String>,
    pub referer: Option<String>,
}

/// A number of visits that share a value (a country or a referer).
#[derive(Debug, Clone)]
pub struct CountStat {
    pub value: Option<String>,
    pub count: i64,
}

/// A number of visits on one day, written `YYYY-MM-DD`.
#[derive(Debug, Clone)]
pub struct DailyStat {
    pub date: String,
    pub count: i64,
}

/// The visit statistics of one link.
#[derive(Debug, Clone)]
pub struct AnalyticsResponse {
    pub code: String,
    pub original_url: String,
    pub created_at: i64,
    pub expires_at: i64,
    pub total_visits: i64,
    pub countries: Vec<CountStat>,
    pub referers: Vec<CountStat>,
    pub daily: Vec<DailyStat>,
    pub recent_visits: Vec<VisitRow>,
}

/// A request to shorten `url`, optionally under `code` and for `ttl`.
#[derive(Debug, Clone)]
pub struct ShortenRequest {
    pub url: String,
    pub code: Option<String>,
    pub ttl: Option<String>,
}

/// The answer to a successful [`ShortenRequest`].
#[derive(Debug, Clone)]
pub struct ShortenResponse {
    pub code: String,
    pub short_url: String,
    pub expires_at: i64,
}

/// An error answered to an HTTP client: its status code and a message.
#[derive(Debug, Clone)]
pub struct ApiError {
    pub status: u16,
    pub message: String,
}

impl ApiError {
    pub fn new(status: u16, message: String) -> (r: ApiError)
        ensures
            r.status == status,
            r.message == message,
    {
        ApiError { status, message }
    }

    /// An error with status 400.
    pub fn bad_request(message: String) -> (r: ApiError)
        ensures
            r.status == 400,
            r.message == message,
    {
        Self::new(400, message)
    }

    /// An error with status 401.
    pub fn unauthorized(message: String) -> (r: ApiError)
        ensures
            r.status == 401,
            r.message == message,
    {
        Self::new(401, message)
    }

    /// An error with status 404.
    pub fn not_found(message: String) -> (r: ApiError)
        ensures
            r.status == 404,
            r.message == message,
    {
        Self::new(404, message)
    }

    /// An error with status 409.
    pub fn conflict(message: String) -> (r: ApiError)
        ensures
            r.status == 409,
            r.message == message,
    {
        Self::new(409, message)
    }

    /// An error with status 500.
    pub fn internal(message: String) -> (r: ApiError)
        ensures
            r.status == 500,
            r.message == message,
    {
        Self::new(500, message)
    }
}

} // verus!
