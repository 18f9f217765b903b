//! Configuration for the store connection and for one service
//! registration.

use vstd::prelude::*;
use vstd::string::StringExecFns;

verus! {

/// Connection settings for the lease-backed store: the endpoints to dial,
/// the connect/request timeout in milliseconds, and the keep-alive
/// interval in seconds.
#[derive(Debug, Clone)]
pub struct EtcdConfig {
    pub endpoints: Vec<String>,
    pub timeout: u64,
    pub keep_alive: u64,
}

impl Default for EtcdConfig {
    /// The out-of-the-box connection settings: one local endpoint, a two
    /// second timeout, and a five minute keep-alive interval.
    fn default() -> (r: Self)
        ensures
            r.endpoints@.len() == 1,
            r.endpoints@[0]@ == "http://127.0.0.1:2379"@,
            r.timeout == 2000,
            r.keep_alive == 300,
    {
        let mut endpoints: Vec<String> = Vec::new();
        endpoints.push(String::from_str("http://127.0.0.1:2379"));
        EtcdConfig { endpoints, timeout: 2000, keep_alive: 300 }
    }
}

/// What one call to start a registration carries: the endpoint URL to
/// advertise, the tag list, and the lease time-to-live in seconds.
///
/// A `ttl` of zero means records are written without a lease and never
/// expire; the renewal schedule requires a positive `ttl`.
#[derive(Debug, Clone)]
pub struct ServiceRegisterConfig {
    pub url: String,
    pub tags: Vec<String>,
    pub ttl: i64,
}

} // verus!
