use vstd::prelude::*;

verus! {

/// Where the service listens unless configured otherwise.
pub fn default_listen_addr() -> (r: String)
    ensures
        r@ == "0.0.0.0:8080"@,
{
    "0.0.0.0:8080".to_owned()
}

/// How long a resolution outcome is served, in seconds, unless configured
/// otherwise.
pub fn default_cache_ttl_seconds() -> (r: u64)
    ensures
        r == 60,
{
    60
}

/// How many credential keys the cache holds, unless configured otherwise.
pub fn default_cache_max_size() -> (r: usize)
    ensures
        r == 1000,
{
    1000
}

/// The service's settings, as loaded from the environment.
#[derive(Debug, Clone)]
pub struct Config {
    pub listen_addr: String,
    pub issuer: String,
    pub client_id: String,
    pub client_secret: String,
    pub groups_claim: Option<String>,
    pub additional_scopes: Vec<String>,
    pub cache_ttl_seconds: u64,
    pub cache_max_size: usize,
}

} // verus!
