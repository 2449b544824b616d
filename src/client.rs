use vstd::prelude::*;

verus! {

/// The server that the command-line client talks to when none is named.
pub open spec fn default_server() -> Seq<char> {
    "https://cutl.my.id"@
}

/// Settings of the command-line client.
#[derive(Debug, Clone)]
pub struct Config {
    /// The URL to shorten.
    pub url: String,
    /// A custom short code, if one is asked for.
    pub code: Option<String>,
    /// A lifetime such as `1h`, if one is asked for.
    pub ttl: Option<String>,
    /// The server to ask.
    pub server_url: String,
    /// The bearer token to send, if any.
    pub auth_token: Option<String>,
}

impl Config {
    /// Settings from the command line, then the environment: the server named
    /// on the command line wins over `env_server`, and both over the default.
    pub fn new(
        url: String,
        code: Option<String>,
        ttl: Option<String>,
        server: Option<String>,
        env_server: Option<String>,
        env_token: Option<String>,
    ) -> (r: Config)
        ensures
            r.url == url,
            r.code == code,
            r.ttl == ttl,
            r.auth_token == env_token,
            r.server_url@ == (match server {
                Some(s) => s@,
                None => match env_server {
                    Some(s) => s@,
                    None => default_server(),
                },
            }),
    {
        let server_url = match server {
            Some(s) => s,
            None => match env_server {
                Some(s) => s,
                None => "https://cutl.my.id".to_owned(),
            },
        };
        Config { url, code, ttl, server_url, auth_token: env_token }
    }
}

} // verus!
