//! The short configuration: server URL, mount point and cache size.
use vstd::prelude::*;

verus! {

/// The short configuration.
#[derive(Debug, Clone)]
pub struct Config {
    pub rqbit_url: String,
    pub mount_point: String,
    pub cache_size_mb: usize,
}

impl Default for Config {
    fn default() -> (c: Self)
        ensures
            c.rqbit_url@ == "http://localhost:3030"@,
            c.mount_point@ == "/mnt/torrents"@,
            c.cache_size_mb == 100,
    {
        Self {
            rqbit_url: String::from_str("http://localhost:3030"),
            mount_point: String::from_str("/mnt/torrents"),
            cache_size_mb: 100,
        }
    }
}

} // verus!
