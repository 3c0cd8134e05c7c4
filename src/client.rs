//! The record of one connected client.
use vstd::prelude::*;
use tokio::sync::mpsc::UnboundedSender;
use crate::filter::ClientFilter;

verus! {

/// The sending half of tokio's unbounded channel: a writer task drains the
/// receiving half to the connection.
#[verifier::external_type_specification]
#[verifier::external_body]
#[verifier::reject_recursive_types(T)]
pub struct ExUnboundedSender<T>(UnboundedSender<T>);

/// Relies on tokio's `UnboundedSender::send`: queues the line without
/// waiting; it fails once the receiving half is gone.
#[verifier::external_body]
pub(crate) fn send_line(sink: &UnboundedSender<String>, line: String) -> (r: bool) {
    sink.send(line).is_ok()
}

/// A connected client: its outbound queue, what it logged in as, its
/// filters and its traffic counters. The counters never decrease; they stop
/// at `u64::MAX`.
pub struct Client {
    pub id: usize,
    pub sink: UnboundedSender<String>,
    pub filter: Option<Vec<ClientFilter>>,
    pub callsign: Option<String>,
    /// Seconds since the Unix epoch at which the connection was accepted.
    pub connect_time: u64,
    pub packets_rx: u64,
    pub packets_tx: u64,
    pub bytes_rx: u64,
    pub bytes_tx: u64,
}

/// `a + b`, or `u64::MAX` where the sum does not fit.
pub open spec fn sat_add(a: u64, b: int) -> u64 {
    if a + b > u64::MAX {
        u64::MAX
    } else {
        (a + b) as u64
    }
}

impl Client {
    /// A client with no callsign, no filters and zero counters.
    pub fn new(id: usize, sink: UnboundedSender<String>, connect_time: u64) -> (r: Client)
        ensures
            r.id == id,
            r.sink == sink,
            r.filter is None,
            r.callsign is None,
            r.connect_time == connect_time,
            r.packets_rx == 0 && r.packets_tx == 0 && r.bytes_rx == 0 && r.bytes_tx == 0,
    {
        Client {
            id,
            sink,
            filter: None,
            callsign: None,
            connect_time,
            packets_rx: 0,
            packets_tx: 0,
            bytes_rx: 0,
            bytes_tx: 0,
        }
    }

    /// Counts one packet of `bytes` bytes received from the client.
    pub fn inc_rx(&mut self, bytes: usize)
        ensures
            final(self).packets_rx == sat_add(old(self).packets_rx, 1),
            final(self).bytes_rx == sat_add(old(self).bytes_rx, bytes as int),
            final(self).packets_tx == old(self).packets_tx,
            final(self).bytes_tx == old(self).bytes_tx,
            final(self).id == old(self).id,
            final(self).sink == old(self).sink,
            final(self).filter == old(self).filter,
            final(self).callsign == old(self).callsign,
            final(self).connect_time == old(self).connect_time,
    {
        self.packets_rx = self.packets_rx.saturating_add(1);
        self.bytes_rx = self.bytes_rx.saturating_add(bytes as u64);
    }

    /// Counts one packet of `bytes` bytes sent to the client.
    pub fn inc_tx(&mut self, bytes: usize)
        ensures
            final(self).packets_tx == sat_add(old(self).packets_tx, 1),
            final(self).bytes_tx == sat_add(old(self).bytes_tx, bytes as int),
            final(self).packets_rx == old(self).packets_rx,
            final(self).bytes_rx == old(self).bytes_rx,
            final(self).id == old(self).id,
            final(self).sink == old(self).sink,
            final(self).filter == old(self).filter,
            final(self).callsign == old(self).callsign,
            final(self).connect_time == old(self).connect_time,
    {
        self.packets_tx = self.packets_tx.saturating_add(1);
        self.bytes_tx = self.bytes_tx.saturating_add(bytes as u64);
    }
}

} // verus!
