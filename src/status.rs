//! Link statuses of the uplink and of peer links.
use vstd::prelude::*;
use crate::client::sat_add;
use crate::config::UplinkConfig;

verus! {

/// What happened on an outbound link; times are seconds since the Unix
/// epoch.
pub enum LinkEvent {
    /// The connection was made.
    Connected { now: u64 },
    /// The connection could not be made.
    ConnectFailed { error: String },
    /// A line of `bytes` bytes was written.
    Sent { bytes: usize, now: u64 },
    /// A line of `bytes` bytes was read.
    Received { bytes: usize, now: u64 },
    /// Reading failed.
    ReadFailed { error: String },
    /// Writing failed.
    WriteFailed { error: String },
    /// The remote end closed the connection.
    Closed,
}

/// Connection state and traffic counters of a link. Counters never
/// decrease; they stop at `u64::MAX`.
pub struct LinkStats {
    pub connected: bool,
    pub last_connect: Option<u64>,
    pub packets_rx: u64,
    pub packets_tx: u64,
    pub bytes_rx: u64,
    pub bytes_tx: u64,
    pub connect_errors: u64,
    pub read_errors: u64,
    pub write_errors: u64,
    pub last_error: Option<String>,
    pub last_rx_time: Option<u64>,
    pub last_tx_time: Option<u64>,
}

/// The statistics after `e`: a connection sets `connected`, its time and
/// clears the last error; a failure clears `connected`, counts itself and
/// records its text; traffic counts a packet and its bytes and records its
/// time; a close clears `connected`.
pub open spec fn link_after(s: LinkStats, e: LinkEvent) -> LinkStats {
    match e {
        LinkEvent::Connected { now } => LinkStats {
            connected: true,
            last_connect: Some(now),
            last_error: None,
            ..s
        },
        LinkEvent::ConnectFailed { error } => LinkStats {
            connected: false,
            connect_errors: sat_add(s.connect_errors, 1),
            last_error: Some(error),
            ..s
        },
        LinkEvent::Sent { bytes, now } => LinkStats {
            packets_tx: sat_add(s.packets_tx, 1),
            bytes_tx: sat_add(s.bytes_tx, bytes as int),
            last_tx_time: Some(now),
            ..s
        },
        LinkEvent::Received { bytes, now } => LinkStats {
            packets_rx: sat_add(s.packets_rx, 1),
            bytes_rx: sat_add(s.bytes_rx, bytes as int),
            last_rx_time: Some(now),
            ..s
        },
        LinkEvent::ReadFailed { error } => LinkStats {
            connected: false,
            read_errors: sat_add(s.read_errors, 1),
            last_error: Some(error),
            ..s
        },
        LinkEvent::WriteFailed { error } => LinkStats {
            connected: false,
            write_errors: sat_add(s.write_errors, 1),
            last_error: Some(error),
            ..s
        },
        LinkEvent::Closed => LinkStats { connected: false, ..s },
    }
}

impl LinkStats {
    /// A link never connected, with zero counters.
    pub fn new() -> (r: LinkStats)
        ensures
            !r.connected,
            r.last_connect is None && r.last_error is None,
            r.last_rx_time is None && r.last_tx_time is None,
            r.packets_rx == 0 && r.packets_tx == 0 && r.bytes_rx == 0 && r.bytes_tx == 0,
            r.connect_errors == 0 && r.read_errors == 0 && r.write_errors == 0,
    {
        LinkStats {
            connected: false,
            last_connect: None,
            packets_rx: 0,
            packets_tx: 0,
            bytes_rx: 0,
            bytes_tx: 0,
            connect_errors: 0,
            read_errors: 0,
            write_errors: 0,
            last_error: None,
            last_rx_time: None,
            last_tx_time: None,
        }
    }

    /// Records `e`.
    pub fn apply(&mut self, e: LinkEvent)
        ensures
            *final(self) == link_after(*old(self), e),
    {
        match e {
            LinkEvent::Connected { now } => {
                self.connected = true;
                self.last_connect = Some(now);
                self.last_error = None;
            },
            LinkEvent::ConnectFailed { error } => {
                self.connected = false;
                self.connect_errors = self.connect_errors.saturating_add(1);
                self.last_error = Some(error);
            },
            LinkEvent::Sent { bytes, now } => {
                self.packets_tx = self.packets_tx.saturating_add(1);
                self.bytes_tx = self.bytes_tx.saturating_add(bytes as u64);
                self.last_tx_time = Some(now);
            },
            LinkEvent::Received { bytes, now } => {
                self.packets_rx = self.packets_rx.saturating_add(1);
                self.bytes_rx = self.bytes_rx.saturating_add(bytes as u64);
                self.last_rx_time = Some(now);
            },
            LinkEvent::ReadFailed { error } => {
                self.connected = false;
                self.read_errors = self.read_errors.saturating_add(1);
                self.last_error = Some(error);
            },
            LinkEvent::WriteFailed { error } => {
                self.connected = false;
                self.write_errors = self.write_errors.saturating_add(1);
                self.last_error = Some(error);
            },
            LinkEvent::Closed => {
                self.connected = false;
            },
        }
    }
}

/// Status of the uplink, for observation.
pub struct UplinkStatus {
    pub host: String,
    pub port: u16,
    pub link: LinkStats,
}

impl UplinkStatus {
    /// The status of an uplink to `cfg`'s server, not yet connected.
    pub fn new(cfg: &UplinkConfig) -> (r: UplinkStatus)
        ensures
            r.host@ == cfg.host@,
            r.port == cfg.port,
            !r.link.connected,
            r.link.last_connect is None && r.link.last_error is None,
            r.link.last_rx_time is None && r.link.last_tx_time is None,
            r.link.packets_rx == 0 && r.link.packets_tx == 0,
            r.link.bytes_rx == 0 && r.link.bytes_tx == 0,
            r.link.connect_errors == 0 && r.link.read_errors == 0 && r.link.write_errors == 0,
    {
        UplinkStatus { host: cfg.host.clone(), port: cfg.port, link: LinkStats::new() }
    }
}

/// Status of a peer link, for observation.
pub struct S2SPeerStatus {
    pub host: String,
    pub port: u16,
    pub peer_name: Option<String>,
    pub link: LinkStats,
}

impl S2SPeerStatus {
    /// The status of a link to the peer at `host:port`, not yet connected.
    pub fn new(host: String, port: u16, peer_name: Option<String>) -> (r: S2SPeerStatus)
        ensures
            r.host == host,
            r.port == port,
            r.peer_name == peer_name,
            !r.link.connected,
            r.link.last_connect is None && r.link.last_error is None,
            r.link.last_rx_time is None && r.link.last_tx_time is None,
            r.link.packets_rx == 0 && r.link.packets_tx == 0,
            r.link.bytes_rx == 0 && r.link.bytes_tx == 0,
            r.link.connect_errors == 0 && r.link.read_errors == 0 && r.link.write_errors == 0,
    {
        S2SPeerStatus { host, port, peer_name, link: LinkStats::new() }
    }
}

} // verus!
