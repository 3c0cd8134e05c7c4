//! The registry of connected clients and peer links: fan-out, duplicate
//! suppression and traffic totals.
use vstd::prelude::*;
use tokio::sync::mpsc::UnboundedSender;
use crate::client::{sat_add, send_line, Client};
use crate::dedup::{cache_step, DupeCache};
use crate::filter::ClientFilter;
use crate::packet::{fingerprint, seahash_of};
use crate::status::{link_after, LinkEvent, S2SPeerStatus};
use crate::text::{same_text, trim_str, trimmed};
use vstd::utf8::encode_utf8;

verus! {

/// Fingerprints the hub remembers for duplicate suppression.
pub const DUPE_CACHE_SIZE: usize = 1000;

/// The outbound queue of a logged-in peer link, with the name that
/// suppresses echoes to it.
pub struct S2SPeerHandle {
    pub peer_name: Option<String>,
    pub sender: UnboundedSender<String>,
}

/// The ids of `clients` other than `sender_id`, in order.
pub open spec fn ids_except(clients: Seq<Client>, sender_id: usize) -> Seq<usize>
    decreases clients.len(),
{
    if clients.len() == 0 {
        Seq::empty()
    } else {
        let rest = ids_except(clients.drop_last(), sender_id);
        if clients.last().id == sender_id {
            rest
        } else {
            rest.push(clients.last().id)
        }
    }
}

/// `clients` after counting a packet of `bytes` bytes received from the
/// client `id`.
pub open spec fn rx_counted(clients: Seq<Client>, id: usize, bytes: int) -> Seq<Client> {
    Seq::new(
        clients.len(),
        |i: int|
            if clients[i].id == id {
                Client {
                    packets_rx: sat_add(clients[i].packets_rx, 1),
                    bytes_rx: sat_add(clients[i].bytes_rx, bytes),
                    ..clients[i]
                }
            } else {
                clients[i]
            },
    )
}

/// `clients` after counting a packet of `bytes` bytes sent to every
/// client but `sender_id`.
pub open spec fn tx_counted(clients: Seq<Client>, sender_id: usize, bytes: int) -> Seq<Client> {
    Seq::new(
        clients.len(),
        |i: int|
            if clients[i].id != sender_id {
                Client {
                    packets_tx: sat_add(clients[i].packets_tx, 1),
                    bytes_tx: sat_add(clients[i].bytes_tx, bytes),
                    ..clients[i]
                }
            } else {
                clients[i]
            },
    )
}

/// `clients` after removing the client `id`, if one is registered.
pub open spec fn removed(clients: Seq<Client>, id: usize, after: Seq<Client>) -> bool {
    ||| exists|i: int| 0 <= i < clients.len() && clients[i].id == id && after == clients.remove(i)
    ||| (forall|i: int| 0 <= i < clients.len() ==> clients[i].id != id) && after == clients
}

/// The sum of a sequence of counters.
pub open spec fn sum_of(s: Seq<u64>) -> int
    decreases s.len(),
{
    if s.len() == 0 {
        0
    } else {
        sum_of(s.drop_last()) + s.last()
    }
}

/// `n`, or `u64::MAX` where it is larger.
pub open spec fn capped(n: int) -> u64 {
    if n > u64::MAX {
        u64::MAX
    } else {
        n as u64
    }
}

/// A handle named `name` is spared a packet that came from `sender`.
pub open spec fn is_echo(name: Option<String>, sender: Option<Seq<char>>) -> bool {
    match (name, sender) {
        (Some(n), Some(s)) => n@ == s,
        _ => false,
    }
}

/// The positions of the handles in `handles` that are not spared.
pub open spec fn peers_to_send(handles: Seq<S2SPeerHandle>, sender: Option<Seq<char>>) -> Seq<
    usize,
>
    decreases handles.len(),
{
    if handles.len() == 0 {
        Seq::empty()
    } else {
        let rest = peers_to_send(handles.drop_last(), sender);
        if is_echo(handles.last().peer_name, sender) {
            rest
        } else {
            rest.push((handles.len() - 1) as usize)
        }
    }
}

/// The two names are equal, or both absent.
pub open spec fn same_name(a: Option<String>, b: Option<Seq<char>>) -> bool {
    match (a, b) {
        (Some(x), Some(y)) => x@ == y,
        (None, None) => true,
        _ => false,
    }
}

/// The handles of `handles` whose name is not `name`, in order.
pub open spec fn handles_kept(handles: Seq<S2SPeerHandle>, name: Option<Seq<char>>) -> Seq<
    S2SPeerHandle,
>
    decreases handles.len(),
{
    if handles.len() == 0 {
        Seq::empty()
    } else {
        let rest = handles_kept(handles.drop_last(), name);
        if same_name(handles.last().peer_name, name) {
            rest
        } else {
            rest.push(handles.last())
        }
    }
}

/// The central registry: clients by increasing id, peer handles, peer
/// link statuses, the duplicate cache and the traffic totals.
pub struct Hub {
    clients: Vec<Client>,
    start_time: u64,
    next_id: usize,
    total_packets_rx: u64,
    total_packets_tx: u64,
    total_bytes_rx: u64,
    total_bytes_tx: u64,
    s2s_peers: Vec<S2SPeerStatus>,
    s2s_peer_handles: Vec<S2SPeerHandle>,
    dupes: DupeCache,
}

impl Hub {
    /// The registered clients, by increasing id.
    pub closed spec fn clients(&self) -> Seq<Client> {
        self.clients@
    }

    /// Seconds since the Unix epoch at which the hub was made.
    pub closed spec fn start_time_spec(&self) -> u64 {
        self.start_time
    }

    /// The statuses of the configured peer links.
    pub closed spec fn peer_statuses(&self) -> Seq<S2SPeerStatus> {
        self.s2s_peers@
    }

    /// The id the next client will get.
    pub closed spec fn next_id_spec(&self) -> usize {
        self.next_id
    }

    /// The registered peer handles, in order of registration.
    pub closed spec fn handles(&self) -> Seq<S2SPeerHandle> {
        self.s2s_peer_handles@
    }

    /// The fingerprints in the duplicate cache, oldest first.
    pub closed spec fn dupe_order(&self) -> Seq<u64> {
        self.dupes.order()
    }

    /// The fingerprints in the duplicate cache, as a set.
    pub closed spec fn dupe_set(&self) -> Set<u64> {
        self.dupes.members()
    }

    /// The totals as last recomputed: packets and bytes received and sent.
    pub closed spec fn totals(&self) -> (u64, u64, u64, u64) {
        (self.total_packets_rx, self.total_packets_tx, self.total_bytes_rx, self.total_bytes_tx)
    }

    /// Ids increase along the registry and stay below the next id, which
    /// is never 0; the duplicate cache's set and queue hold the same
    /// fingerprints, each once, and at most `DUPE_CACHE_SIZE` of them.
    pub open spec fn wf(&self) -> bool {
        &&& self.next_id_spec() >= 1
        &&& forall|i: int, j: int|
            0 <= i < j < self.clients().len() ==> self.clients()[i].id < self.clients()[j].id
        &&& forall|i: int|
            0 <= i < self.clients().len() ==> 1 <= #[trigger] self.clients()[i].id
                < self.next_id_spec()
        &&& self.dupe_wf()
        &&& self.dupe_set() == self.dupe_order().to_set()
        &&& self.dupe_order().no_duplicates()
        &&& self.dupe_order().len() <= DUPE_CACHE_SIZE
        &&& self.handles().len() <= usize::MAX
    }

    /// The duplicate cache is well formed, with room for
    /// `DUPE_CACHE_SIZE` fingerprints.
    pub closed spec fn dupe_wf(&self) -> bool {
        self.dupes.wf() && self.dupes.cap() == DUPE_CACHE_SIZE
    }

    /// A hub with no clients, no peers and an empty duplicate cache.
    pub fn new(start_time: u64) -> (r: Hub)
        ensures
            r.wf(),
            r.clients() == Seq::<Client>::empty(),
            r.next_id_spec() == 1,
            r.handles() == Seq::<S2SPeerHandle>::empty(),
            r.dupe_order() == Seq::<u64>::empty(),
            r.totals() == (0u64, 0u64, 0u64, 0u64),
            r.start_time_spec() == start_time,
            r.peer_statuses() == Seq::<S2SPeerStatus>::empty(),
    {
        Hub {
            clients: Vec::new(),
            start_time,
            next_id: 1,
            total_packets_rx: 0,
            total_packets_tx: 0,
            total_bytes_rx: 0,
            total_bytes_tx: 0,
            s2s_peers: Vec::new(),
            s2s_peer_handles: Vec::new(),
            dupes: DupeCache::new(DUPE_CACHE_SIZE),
        }
    }

    /// The id the next client will get.
    pub fn next_id(&self) -> (r: usize)
        ensures
            r == self.next_id_spec(),
    {
        self.next_id
    }

    /// Registers `client` under the next id, which it returns.
    pub fn add_client(&mut self, client: Client) -> (r: usize)
        requires
            old(self).wf(),
            old(self).next_id_spec() < usize::MAX,
        ensures
            final(self).wf(),
            r == old(self).next_id_spec(),
            final(self).next_id_spec() == r + 1,
            final(self).clients() == old(self).clients().push(Client { id: r, ..client }),
            final(self).handles() == old(self).handles(),
            final(self).dupe_order() == old(self).dupe_order(),
            final(self).totals() == old(self).totals(),
    {
        let id = self.next_id;
        self.next_id = self.next_id + 1;
        let mut c = client;
        c.id = id;
        self.clients.push(c);
        id
    }

    /// Unregisters the client `id`; nothing happens where there is none.
    pub fn remove_client(&mut self, id: usize)
        requires
            old(self).wf(),
        ensures
            final(self).wf(),
            removed(old(self).clients(), id, final(self).clients()),
            final(self).next_id_spec() == old(self).next_id_spec(),
            final(self).handles() == old(self).handles(),
            final(self).dupe_order() == old(self).dupe_order(),
            final(self).totals() == old(self).totals(),
    {
        let mut i: usize = 0;
        while i < self.clients.len()
            invariant
                i <= self.clients@.len(),
                *self == *old(self),
                self.wf(),
                forall|j: int| 0 <= j < i ==> self.clients@[j].id != id,
            decreases self.clients.len() - i,
        {
            if self.clients[i].id == id {
                let ghost before = self.clients@;
                let _gone = self.clients.remove(i);
                assert forall|a: int, b: int|
                    0 <= a < b < self.clients@.len() implies self.clients@[a].id
                    < self.clients@[b].id by {
                    if a >= i {
                        assert(self.clients@[a] == before[a + 1]);
                    } else {
                        assert(self.clients@[a] == before[a]);
                    }
                    if b >= i {
                        assert(self.clients@[b] == before[b + 1]);
                    } else {
                        assert(self.clients@[b] == before[b]);
                    }
                }
                assert forall|a: int| 0 <= a < self.clients@.len() implies 1 <= #[trigger] self.clients@[a].id
                    < self.next_id by {
                    if a >= i {
                        assert(self.clients@[a] == before[a + 1]);
                    } else {
                        assert(self.clients@[a] == before[a]);
                    }
                }
                return;
            }
            i = i + 1;
        }
    }

    /// Replaces the callsign and the filters of the client `id`, if it is
    /// registered.
    pub fn update_client(
        &mut self,
        id: usize,
        callsign: Option<String>,
        filter: Option<Vec<ClientFilter>>,
    )
        requires
            old(self).wf(),
        ensures
            final(self).wf(),
            final(self).clients().len() == old(self).clients().len(),
            forall|i: int|
                0 <= i < old(self).clients().len() ==> #[trigger] final(self).clients()[i] == if old(
                    self,
                ).clients()[i].id == id {
                    Client { callsign: callsign, filter: filter, ..old(self).clients()[i] }
                } else {
                    old(self).clients()[i]
                },
            final(self).next_id_spec() == old(self).next_id_spec(),
            final(self).handles() == old(self).handles(),
            final(self).dupe_order() == old(self).dupe_order(),
            final(self).totals() == old(self).totals(),
    {
        let mut i: usize = 0;
        while i < self.clients.len()
            invariant
                i <= self.clients@.len(),
                *self == *old(self),
                self.wf(),
                forall|j: int| 0 <= j < i ==> self.clients@[j].id != id,
            decreases self.clients.len() - i,
        {
            if self.clients[i].id == id {
                self.clients[i].callsign = callsign;
                self.clients[i].filter = filter;
                assert forall|j: int| 0 <= j < old(self).clients().len() && j != i implies old(
                    self,
                ).clients()[j].id != id by {}
                return;
            }
            i = i + 1;
        }
    }

    /// Counts one packet of `bytes` bytes received from the client `id`.
    pub fn count_rx(&mut self, id: usize, bytes: usize)
        requires
            old(self).wf(),
        ensures
            final(self).wf(),
            final(self).clients() == rx_counted(old(self).clients(), id, bytes as int),
            final(self).next_id_spec() == old(self).next_id_spec(),
            final(self).handles() == old(self).handles(),
            final(self).dupe_order() == old(self).dupe_order(),
            final(self).totals() == old(self).totals(),
    {
        let mut i: usize = 0;
        while i < self.clients.len()
            invariant
                i <= self.clients@.len(),
                *self == *old(self),
                self.wf(),
                forall|j: int| 0 <= j < i ==> self.clients@[j].id != id,
            decreases self.clients.len() - i,
        {
            if self.clients[i].id == id {
                self.clients[i].inc_rx(bytes);
                assert forall|j: int| 0 <= j < old(self).clients().len() && j != i implies old(
                    self,
                ).clients()[j].id != id by {}
                assert(self.clients@ =~= rx_counted(old(self).clients@, id, bytes as int));
                return;
            }
            i = i + 1;
        }
        assert(self.clients@ =~= rx_counted(old(self).clients@, id, bytes as int));
    }

    /// Counts one packet of `bytes` bytes sent to every client but
    /// `sender_id`.
    pub fn count_tx_to_others(&mut self, sender_id: usize, bytes: usize)
        requires
            old(self).wf(),
        ensures
            final(self).wf(),
            final(self).clients() == tx_counted(old(self).clients(), sender_id, bytes as int),
            final(self).next_id_spec() == old(self).next_id_spec(),
            final(self).handles() == old(self).handles(),
            final(self).dupe_order() == old(self).dupe_order(),
            final(self).totals() == old(self).totals(),
    {
        let mut i: usize = 0;
        while i < self.clients.len()
            invariant
                i <= self.clients@.len() == old(self).clients@.len(),
                self.wf(),
                self.next_id == old(self).next_id,
                self.s2s_peer_handles == old(self).s2s_peer_handles,
                self.dupes == old(self).dupes,
                self.totals() == old(self).totals(),
                forall|j: int|
                    i <= j < self.clients@.len() ==> self.clients@[j] == old(self).clients@[j],
                forall|j: int|
                    0 <= j < i ==> #[trigger] self.clients@[j] == if old(self).clients@[j].id
                        != sender_id {
                        Client {
                            packets_tx: sat_add(old(self).clients@[j].packets_tx, 1),
                            bytes_tx: sat_add(old(self).clients@[j].bytes_tx, bytes as int),
                            ..old(self).clients@[j]
                        }
                    } else {
                        old(self).clients@[j]
                    },
            decreases self.clients.len() - i,
        {
            if self.clients[i].id != sender_id {
                self.clients[i].inc_tx(bytes);
            }
            i = i + 1;
        }
        assert(self.clients@ =~= tx_counted(old(self).clients@, sender_id, bytes as int));
    }

    /// Hands `packet` to the outbound queue of every client but
    /// `sender_id` (0, which no client has, stands for a source that is not
    /// a client). Returns the ids it was handed to, in order.
    pub fn broadcast_packet(&self, sender_id: usize, packet: &str) -> (r: Vec<usize>)
        requires
            self.wf(),
        ensures
            r@ == ids_except(self.clients(), sender_id),
    {
        let mut sent: Vec<usize> = Vec::new();
        let mut i: usize = 0;
        while i < self.clients.len()
            invariant
                i <= self.clients@.len(),
                sent@ == ids_except(self.clients@.subrange(0, i as int), sender_id),
            decreases self.clients.len() - i,
        {
            assert(self.clients@.subrange(0, i + 1).drop_last() =~= self.clients@.subrange(
                0,
                i as int,
            ));
            let c = &self.clients[i];
            if c.id != sender_id {
                let _accepted = send_line(&c.sink, packet.to_string());
                sent.push(c.id);
            }
            i = i + 1;
        }
        assert(self.clients@.subrange(0, self.clients@.len() as int) =~= self.clients@);
        sent
    }

    /// Recomputes the totals as the sums of the clients' counters, each
    /// stopping at `u64::MAX`.
    pub fn update_totals(&mut self)
        requires
            old(self).wf(),
        ensures
            final(self).wf(),
            final(self).totals() == (
                capped(sum_of(old(self).clients().map_values(|c: Client| c.packets_rx))),
                capped(sum_of(old(self).clients().map_values(|c: Client| c.packets_tx))),
                capped(sum_of(old(self).clients().map_values(|c: Client| c.bytes_rx))),
                capped(sum_of(old(self).clients().map_values(|c: Client| c.bytes_tx))),
            ),
            final(self).clients() == old(self).clients(),
            final(self).next_id_spec() == old(self).next_id_spec(),
            final(self).handles() == old(self).handles(),
            final(self).dupe_order() == old(self).dupe_order(),
    {
        let mut prx: u64 = 0;
        let mut ptx: u64 = 0;
        let mut brx: u64 = 0;
        let mut btx: u64 = 0;
        let mut i: usize = 0;
        let ghost cs = self.clients@;
        while i < self.clients.len()
            invariant
                i <= cs.len(),
                cs == self.clients@,
                prx == capped(sum_of(cs.subrange(0, i as int).map_values(|c: Client| c.packets_rx))),
                ptx == capped(sum_of(cs.subrange(0, i as int).map_values(|c: Client| c.packets_tx))),
                brx == capped(sum_of(cs.subrange(0, i as int).map_values(|c: Client| c.bytes_rx))),
                btx == capped(sum_of(cs.subrange(0, i as int).map_values(|c: Client| c.bytes_tx))),
            decreases self.clients.len() - i,
        {
            let c = &self.clients[i];
            proof {
                let pre = cs.subrange(0, i as int);
                let next = cs.subrange(0, i + 1);
                assert(next.map_values(|c: Client| c.packets_rx) =~= pre.map_values(
                    |c: Client| c.packets_rx,
                ).push(c.packets_rx));
                assert(next.map_values(|c: Client| c.packets_tx) =~= pre.map_values(
                    |c: Client| c.packets_tx,
                ).push(c.packets_tx));
                assert(next.map_values(|c: Client| c.bytes_rx) =~= pre.map_values(
                    |c: Client| c.bytes_rx,
                ).push(c.bytes_rx));
                assert(next.map_values(|c: Client| c.bytes_tx) =~= pre.map_values(
                    |c: Client| c.bytes_tx,
                ).push(c.bytes_tx));
                lemma_capped_push(pre.map_values(|c: Client| c.packets_rx), c.packets_rx);
                lemma_capped_push(pre.map_values(|c: Client| c.packets_tx), c.packets_tx);
                lemma_capped_push(pre.map_values(|c: Client| c.bytes_rx), c.bytes_rx);
                lemma_capped_push(pre.map_values(|c: Client| c.bytes_tx), c.bytes_tx);
            }
            prx = prx.saturating_add(c.packets_rx);
            ptx = ptx.saturating_add(c.packets_tx);
            brx = brx.saturating_add(c.bytes_rx);
            btx = btx.saturating_add(c.bytes_tx);
            i = i + 1;
        }
        assert(cs.subrange(0, cs.len() as int) =~= cs);
        self.total_packets_rx = prx;
        self.total_packets_tx = ptx;
        self.total_bytes_rx = brx;
        self.total_bytes_tx = btx;
    }

    /// The totals as last recomputed: packets received, packets sent, bytes
    /// received, bytes sent.
    pub fn get_totals(&self) -> (r: (u64, u64, u64, u64))
        ensures
            r == self.totals(),
    {
        (self.total_packets_rx, self.total_packets_tx, self.total_bytes_rx, self.total_bytes_tx)
    }

    /// Offers the fingerprint of `packet`, trimmed, to the duplicate cache:
    /// returns whether it was already there.
    pub fn check_and_insert_dupe(&mut self, packet: &str) -> (r: bool)
        requires
            old(self).wf(),
        ensures
            final(self).wf(),
            r == old(self).dupe_order().contains(seahash_of(encode_utf8(trimmed(packet@)))),
            r == old(self).dupe_set().contains(seahash_of(encode_utf8(trimmed(packet@)))),
            r ==> final(self).dupe_order() == old(self).dupe_order() && final(self).dupe_set()
                == old(self).dupe_set(),
            final(self).dupe_order() == cache_step(
                old(self).dupe_order(),
                seahash_of(encode_utf8(trimmed(packet@))),
                DUPE_CACHE_SIZE as nat,
            ),
            final(self).clients() == old(self).clients(),
            final(self).next_id_spec() == old(self).next_id_spec(),
            final(self).handles() == old(self).handles(),
            final(self).totals() == old(self).totals(),
    {
        let t = trim_str(packet);
        let fp = fingerprint(t.as_str());
        self.check_and_insert_fingerprint(fp)
    }

    /// Offers `fp` to the duplicate cache: returns whether it was already
    /// there; a new one is appended, and the oldest is evicted past
    /// `DUPE_CACHE_SIZE`.
    pub fn check_and_insert_fingerprint(&mut self, fp: u64) -> (r: bool)
        requires
            old(self).wf(),
        ensures
            final(self).wf(),
            r == old(self).dupe_order().contains(fp),
            r == old(self).dupe_set().contains(fp),
            r ==> final(self).dupe_order() == old(self).dupe_order() && final(self).dupe_set()
                == old(self).dupe_set(),
            final(self).dupe_order() == cache_step(
                old(self).dupe_order(),
                fp,
                DUPE_CACHE_SIZE as nat,
            ),
            final(self).dupe_order().contains(fp),
            final(self).clients() == old(self).clients(),
            final(self).next_id_spec() == old(self).next_id_spec(),
            final(self).handles() == old(self).handles(),
            final(self).totals() == old(self).totals(),
    {
        self.dupes.check_and_insert(fp)
    }

    /// The fingerprints in the duplicate cache and in its eviction queue:
    /// the two always hold the same number.
    pub fn dupe_len(&self) -> (r: usize)
        requires
            self.wf(),
        ensures
            r == self.dupe_order().len(),
            r == self.dupe_set().len(),
    {
        self.dupes.len()
    }

    /// Registers the outbound queue of a peer link that has logged in.
    pub fn add_peer_handle(&mut self, handle: S2SPeerHandle)
        requires
            old(self).wf(),
        ensures
            final(self).wf(),
            final(self).handles() == old(self).handles().push(handle),
            final(self).clients() == old(self).clients(),
            final(self).next_id_spec() == old(self).next_id_spec(),
            final(self).dupe_order() == old(self).dupe_order(),
            final(self).totals() == old(self).totals(),
    {
        self.s2s_peer_handles.push(handle);
        let count = self.s2s_peer_handles.len();
        assert(self.handles().len() == count);
    }

    /// Unregisters every peer handle named `name` (with `None`, every
    /// unnamed one).
    pub fn remove_peer_handles(&mut self, name: Option<&str>)
        requires
            old(self).wf(),
        ensures
            final(self).wf(),
            final(self).handles() == handles_kept(
                old(self).handles(),
                match name {
                    Some(n) => Some(n@),
                    None => None,
                },
            ),
            final(self).clients() == old(self).clients(),
            final(self).next_id_spec() == old(self).next_id_spec(),
            final(self).dupe_order() == old(self).dupe_order(),
            final(self).totals() == old(self).totals(),
    {
        let ghost key = match name {
            Some(n) => Some(n@),
            None => None,
        };
        let mut old_handles: Vec<S2SPeerHandle> = Vec::new();
        std::mem::swap(&mut old_handles, &mut self.s2s_peer_handles);
        let ghost all = old_handles@;
        let mut kept: Vec<S2SPeerHandle> = Vec::new();
        let mut rest = old_handles;
        while rest.len() > 0
            invariant
                key == match name {
                    Some(n) => Some(n@),
                    None => None,
                },
                rest@.len() <= all.len(),
                rest@ == all.subrange(all.len() - rest@.len(), all.len() as int),
                kept@ == handles_kept(all.subrange(0, all.len() - rest@.len()), key),
            decreases rest.len(),
        {
            let ghost done = all.len() - rest@.len() + 1;
            let h = rest.remove(0);
            proof {
                assert(all.subrange(0, done).drop_last() =~= all.subrange(0, done - 1));
                assert(all.subrange(0, done).last() == h);
                assert(rest@ =~= all.subrange(all.len() - rest@.len(), all.len() as int));
            }
            let drop = match (&h.peer_name, name) {
                (Some(a), Some(b)) => same_text(a.as_str(), b),
                (None, None) => true,
                _ => false,
            };
            assert(drop == same_name(h.peer_name, key));
            if !drop {
                kept.push(h);
            }
        }
        assert(all.subrange(0, all.len() as int) =~= all);
        let count = kept.len();
        self.s2s_peer_handles = kept;
        assert(self.handles().len() == count);
    }

    /// Hands `packet` to every peer handle except those named `sender`.
    /// Returns the positions of the handles it was handed to.
    pub fn broadcast_to_s2s_peers(&self, sender: Option<&str>, packet: &str) -> (r: Vec<usize>)
        ensures
            r@ == peers_to_send(
                self.handles(),
                match sender {
                    Some(n) => Some(n@),
                    None => None,
                },
            ),
    {
        let ghost key = match sender {
            Some(n) => Some(n@),
            None => None,
        };
        let mut sent: Vec<usize> = Vec::new();
        let mut i: usize = 0;
        while i < self.s2s_peer_handles.len()
            invariant
                key == match sender {
                    Some(n) => Some(n@),
                    None => None,
                },
                i <= self.s2s_peer_handles@.len(),
                sent@ == peers_to_send(self.s2s_peer_handles@.subrange(0, i as int), key),
            decreases self.s2s_peer_handles.len() - i,
        {
            assert(self.s2s_peer_handles@.subrange(0, i + 1).drop_last()
                =~= self.s2s_peer_handles@.subrange(0, i as int));
            let h = &self.s2s_peer_handles[i];
            let echo = match (&h.peer_name, sender) {
                (Some(a), Some(b)) => same_text(a.as_str(), b),
                _ => false,
            };
            assert(echo == is_echo(h.peer_name, key));
            if !echo {
                let _accepted = send_line(&h.sender, packet.to_string());
                sent.push(i);
            }
            i = i + 1;
        }
        assert(self.s2s_peer_handles@.subrange(0, self.s2s_peer_handles@.len() as int)
            =~= self.s2s_peer_handles@);
        sent
    }

    /// The client at position `i` of the registry.
    pub fn client_at(&self, i: usize) -> (r: &Client)
        requires
            i < self.clients().len(),
        ensures
            *r == self.clients()[i as int],
    {
        &self.clients[i]
    }

    /// The statuses of the configured peer links.
    pub fn peer_status_list(&self) -> (r: &Vec<S2SPeerStatus>)
        ensures
            r@ == self.peer_statuses(),
    {
        &self.s2s_peers
    }

    /// Adds the status of a configured peer link; returns its position.
    pub fn add_peer_status(&mut self, status: S2SPeerStatus) -> (r: usize)
        requires
            old(self).wf(),
        ensures
            final(self).wf(),
            r == old(self).peer_statuses().len(),
            final(self).peer_statuses() == old(self).peer_statuses().push(status),
            final(self).clients() == old(self).clients(),
            final(self).next_id_spec() == old(self).next_id_spec(),
            final(self).handles() == old(self).handles(),
            final(self).dupe_order() == old(self).dupe_order(),
            final(self).totals() == old(self).totals(),
    {
        self.s2s_peers.push(status);
        self.s2s_peers.len() - 1
    }

    /// Records `event` in the status of the peer link at position `i`.
    pub fn peer_event(&mut self, i: usize, event: LinkEvent)
        requires
            old(self).wf(),
            i < old(self).peer_statuses().len(),
        ensures
            final(self).wf(),
            final(self).peer_statuses().len() == old(self).peer_statuses().len(),
            forall|j: int|
                0 <= j < old(self).peer_statuses().len() && j != i ==> (#[trigger] final(self).peer_statuses()[j]) == old(self).peer_statuses()[j],
            final(self).peer_statuses()[i as int].link == link_after(
                old(self).peer_statuses()[i as int].link,
                event,
            ),
            final(self).peer_statuses()[i as int].host == old(self).peer_statuses()[i as int].host,
            final(self).peer_statuses()[i as int].port == old(self).peer_statuses()[i as int].port,
            final(self).peer_statuses()[i as int].peer_name == old(
                self,
            ).peer_statuses()[i as int].peer_name,
            final(self).clients() == old(self).clients(),
            final(self).next_id_spec() == old(self).next_id_spec(),
            final(self).handles() == old(self).handles(),
            final(self).dupe_order() == old(self).dupe_order(),
            final(self).totals() == old(self).totals(),
    {
        self.s2s_peers[i].link.apply(event);
    }

    /// The number of registered clients.
    pub fn client_count(&self) -> (r: usize)
        ensures
            r == self.clients().len(),
    {
        self.clients.len()
    }

    /// Seconds since the hub was made, at time `now`.
    pub fn uptime(&self, now: u64) -> (r: u64)
        ensures
            r == if now >= self.start_time_spec() {
                (now - self.start_time_spec()) as u64
            } else {
                0
            },
    {
        now.saturating_sub(self.start_time)
    }
}

proof fn lemma_sum_nonneg(s: Seq<u64>)
    ensures
        sum_of(s) >= 0,
    decreases s.len(),
{
    if s.len() > 0 {
        lemma_sum_nonneg(s.drop_last());
    }
}

proof fn lemma_capped_push(s: Seq<u64>, x: u64)
    ensures
        capped(sum_of(s.push(x))) == sat_add(capped(sum_of(s)), x as int),
{
    assert(s.push(x).drop_last() =~= s);
    lemma_sum_nonneg(s);
}

/// A packet fanned out by `sender_id` goes to every registered client but
/// the sender, and to no one else.
pub proof fn lemma_fanout_members(clients: Seq<Client>, sender_id: usize)
    ensures
        forall|x: usize|
            ids_except(clients, sender_id).contains(x) <==> (x != sender_id && exists|i: int|
                0 <= i < clients.len() && (#[trigger] clients[i]).id == x),
    decreases clients.len(),
{
    if clients.len() > 0 {
        let pre = clients.drop_last();
        lemma_fanout_members(pre, sender_id);
        let rest = ids_except(pre, sender_id);
        let last = clients.last();
        assert forall|x: usize|
            ids_except(clients, sender_id).contains(x) <==> (x != sender_id && exists|i: int|
                0 <= i < clients.len() && (#[trigger] clients[i]).id == x) by {
            if x != sender_id && exists|i: int| 0 <= i < clients.len() && (#[trigger] clients[i]).id == x {
                let i = choose|i: int| 0 <= i < clients.len() && (#[trigger] clients[i]).id == x;
                if i < pre.len() {
                    assert(pre[i] == clients[i]);
                    assert(rest.contains(x));
                    let k = choose|k: int| 0 <= k < rest.len() && rest[k] == x;
                    if last.id != sender_id {
                        assert(rest.push(last.id)[k] == x);
                    }
                } else {
                    assert(rest.push(last.id)[rest.len() as int] == x);
                }
            }
            if ids_except(clients, sender_id).contains(x) {
                let k = choose|k: int|
                    0 <= k < ids_except(clients, sender_id).len() && ids_except(clients, sender_id)[k] == x;
                if k < rest.len() {
                    assert(rest[k] == x);
                    assert(rest.contains(x));
                    let i = choose|i: int| 0 <= i < pre.len() && (#[trigger] pre[i]).id == x;
                    assert(clients[i] == pre[i]);
                } else {
                    assert(clients[clients.len() - 1].id == x);
                }
            }
        }
    }
}

/// A packet handed to the peers on behalf of `sender` goes to every
/// handle whose name is not `sender`, and to no handle named `sender`.
pub proof fn lemma_no_echo(handles: Seq<S2SPeerHandle>, sender: Option<Seq<char>>)
    requires
        handles.len() <= usize::MAX,
    ensures
        forall|k: usize|
            peers_to_send(handles, sender).contains(k) <==> (k < handles.len() && !is_echo(
                #[trigger] handles[k as int].peer_name,
                sender,
            )),
    decreases handles.len(),
{
    if handles.len() > 0 {
        let pre = handles.drop_last();
        lemma_no_echo(pre, sender);
        let rest = peers_to_send(pre, sender);
        let n = (handles.len() - 1) as usize;
        assert forall|k: usize|
            peers_to_send(handles, sender).contains(k) <==> (k < handles.len() && !is_echo(
                #[trigger] handles[k as int].peer_name,
                sender,
            )) by {
            if k < handles.len() && !is_echo(handles[k as int].peer_name, sender) {
                if k < n {
                    assert(pre[k as int] == handles[k as int]);
                    assert(rest.contains(k));
                    let j = choose|j: int| 0 <= j < rest.len() && rest[j] == k;
                    if !is_echo(handles.last().peer_name, sender) {
                        assert(rest.push(n)[j] == k);
                    }
                } else {
                    assert(rest.push(n)[rest.len() as int] == k);
                }
            }
            if peers_to_send(handles, sender).contains(k) {
                let j = choose|j: int|
                    0 <= j < peers_to_send(handles, sender).len() && peers_to_send(handles, sender)[j] == k;
                if j < rest.len() {
                    assert(rest[j] == k);
                    assert(rest.contains(k));
                    assert(k < pre.len() && !is_echo(pre[k as int].peer_name, sender));
                    assert(pre[k as int] == handles[k as int]);
                } else {
                    assert(k == n);
                    assert(!is_echo(handles.last().peer_name, sender));
                }
            }
        }
    }
}

/// Adding a client and then removing it gives back the registry as it was.
pub proof fn lemma_add_remove(before: Seq<Client>, client: Client, id: usize, after: Seq<Client>)
    requires
        forall|i: int| 0 <= i < before.len() ==> before[i].id < id,
        removed(before.push(Client { id: id, ..client }), id, after),
    ensures
        after == before,
        after.len() == before.len(),
{
    let added = before.push(Client { id: id, ..client });
    if exists|i: int| 0 <= i < added.len() && added[i].id == id && after == added.remove(i) {
        let i = choose|i: int| 0 <= i < added.len() && added[i].id == id && after == added.remove(i);
        if i < before.len() {
            assert(added[i] == before[i]);
        }
        assert(added.remove(i) =~= before);
    } else {
        assert(added[before.len() as int].id == id);
    }
}

} // verus!
