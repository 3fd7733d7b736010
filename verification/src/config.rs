use vstd::prelude::*;

verus! {

/// The run's settings: the bearer credential, the base endpoint, and the
/// upload parallelism knob. Read-only for the duration of a run.
#[derive(Debug, Clone)]
pub struct Config {
    pub token: String,
    pub api_url: String,
    pub concurrent_requests: u32,
}

impl Default for Config {
    /// The documented placeholder settings used when no configuration has
    /// been stored yet.
    fn default() -> (c: Config)
        ensures
            c.token@ == "MISSING_TOKEN"@,
            c.api_url@ == "MISSING_API"@,
            c.concurrent_requests == 2,
    {
        Config {
            token: String::from_str("MISSING_TOKEN"),
            api_url: String::from_str("MISSING_API"),
            concurrent_requests: 2,
        }
    }
}

} // verus!
