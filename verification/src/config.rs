//! Configuration of one discovery run.

use vstd::prelude::*;

verus! {

/// Externally supplied, read-only settings for a discovery run.
#[derive(Debug, Clone)]
pub struct Config {
    /// Local endpoint to bind, in `host:port` form.
    pub bind_address: String,
    /// Multicast target endpoint, in `host:port` form.
    pub discovery_broadcast_address: String,
    /// How long to collect replies, in milliseconds.
    pub discovery_wait_time: u64,
    /// Client identification sent in the `USER-AGENT` header.
    pub user_agent: String,
    /// When set, the host of each advertised description location is
    /// replaced by the address the reply actually came from.
    pub prefer_source_addr: bool,
}

/// The stock configuration: bind anywhere, query the standard SSDP
/// multicast group, and wait five seconds for replies.
pub fn default_config() -> (c: Config)
    ensures
        c.bind_address@ == "0.0.0.0:0"@,
        c.discovery_broadcast_address@ == "239.255.255.250:1900"@,
        c.discovery_wait_time == 5000,
        c.user_agent@ == "Linux/1.0 UPnP/1.1 ernasatip/1.0"@,
        !c.prefer_source_addr,
{
    Config {
        bind_address: "0.0.0.0:0".to_owned(),
        discovery_broadcast_address: "239.255.255.250:1900".to_owned(),
        discovery_wait_time: 5000,
        user_agent: "Linux/1.0 UPnP/1.1 ernasatip/1.0".to_owned(),
        prefer_source_addr: false,
    }
}

} // verus!
