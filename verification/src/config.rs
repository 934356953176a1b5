//! Server configuration: a few constants read once at startup.
//!
//! The file on disk may leave any field out; a missing field takes its
//! default.  Reading the file is the runtime shell's business — this
//! module holds the values and the defaulting rule.

use vstd::prelude::*;

verus! {

/// The constants the server runs with.
#[derive(Clone, Copy, Debug)]
pub struct Config {
    /// Serve locally over plain sockets instead of the public address.
    pub local: bool,
    /// The matchmaker's period in milliseconds.
    pub pair_interval_millis: u64,
    /// The per-endpoint read-timeout in seconds.
    pub timeout_secs: u64,
}

/// The matchmaker period used when the file names none.
pub fn default_pair_interval_millis() -> (r: u64)
    ensures
        r == 1000,
{
    1000
}

/// The locality flag used when the file names none.
pub fn default_local() -> (r: bool)
    ensures
        r == false,
{
    false
}

/// The read-timeout used when the file names none.
pub fn default_timeout() -> (r: u64)
    ensures
        r == 120,
{
    120
}

impl Default for Config {
    /// The configuration with every field at its default.
    fn default() -> (r: Config)
        ensures
            r == (Config { local: false, pair_interval_millis: 1000, timeout_secs: 120 }),
    {
        Config { local: false, pair_interval_millis: 1000, timeout_secs: 120 }
    }
}

impl Config {
    /// Combines what the file held with the defaults for what it left
    /// out.
    pub fn from_options(
        local: Option<bool>,
        pair_interval_millis: Option<u64>,
        timeout_secs: Option<u64>,
    ) -> (r: Config)
        ensures
            r.local == (if local is Some {
                local->0
            } else {
                false
            }),
            r.pair_interval_millis == (if pair_interval_millis is Some {
                pair_interval_millis->0
            } else {
                1000
            }),
            r.timeout_secs == (if timeout_secs is Some {
                timeout_secs->0
            } else {
                120
            }),
    {
        Config {
            local: match local {
                Some(v) => v,
                None => default_local(),
            },
            pair_interval_millis: match pair_interval_millis {
                Some(v) => v,
                None => default_pair_interval_millis(),
            },
            timeout_secs: match timeout_secs {
                Some(v) => v,
                None => default_timeout(),
            },
        }
    }

    /// The address clients connect to: the loopback socket when serving
    /// locally, the public name otherwise.
    pub fn server_address(&self) -> (r: &'static str)
        ensures
            self.local ==> r@ == "ws://127.0.0.1:3000"@,
            !self.local ==> r@ == "wss://95.179.226.104"@,
    {
        if self.local {
            "ws://127.0.0.1:3000"
        } else {
            "wss://95.179.226.104"
        }
    }
}

} // verus!
