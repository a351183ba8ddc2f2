//! Settings of the HTTP client.
//!
//! Timeouts are whole seconds; the client turns them into `Duration`s.
use vstd::prelude::*;

use crate::text::{from_chars, to_chars};

verus! {

/// Timeouts (in seconds), user agent and retry budget of the HTTP client.
pub struct HttpClientConfig {
    pub timeout_secs: u64,
    pub connect_timeout_secs: u64,
    pub user_agent: String,
    pub max_retries: u32,
}

impl Default for HttpClientConfig {
    /// Thirty seconds per request, ten to connect, an Android browser user
    /// agent and three retries.
    fn default() -> (r: Self)
        ensures
            r.timeout_secs == 30,
            r.connect_timeout_secs == 10,
            r.user_agent@ == "Mozilla/5.0 (Linux; Android 14)"@,
            r.max_retries == 3,
    {
        HttpClientConfig {
            timeout_secs: 30,
            connect_timeout_secs: 10,
            user_agent: from_chars(&to_chars("Mozilla/5.0 (Linux; Android 14)")),
            max_retries: 3,
        }
    }
}

} // verus!
