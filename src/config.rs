//! Configuration values, as an outside loader supplies them.
use vstd::prelude::*;

verus! {

/// The upstream server the uplink connects to, and how it logs in.
pub struct UplinkConfig {
    pub host: String,
    pub port: u16,
    pub callsign: String,
    pub passcode: u16,
}

/// A peer the relay links to.
pub struct S2SPeerConfig {
    pub host: String,
    pub port: u16,
    pub passcode: u16,
    pub peer_name: Option<String>,
}

/// The relay's configuration.
pub struct Config {
    pub server_name: String,
    pub user_port: u16,
    pub server_port: u16,
    pub s2s_port: Option<u16>,
    pub allow_callsigns: Option<Vec<String>>,
    pub deny_callsigns: Option<Vec<String>>,
    pub uplink: Option<UplinkConfig>,
    pub s2s_peers: Option<Vec<S2SPeerConfig>>,
}

/// The peer port used where none is configured.
pub const DEFAULT_S2S_PORT: u16 = 14579;

impl Config {
    /// The port to accept peer links on.
    pub fn s2s_port_or_default(&self) -> (r: u16)
        ensures
            r == match self.s2s_port {
                Some(p) => p,
                None => DEFAULT_S2S_PORT,
            },
    {
        match self.s2s_port {
            Some(p) => p,
            None => DEFAULT_S2S_PORT,
        }
    }
}

} // verus!
