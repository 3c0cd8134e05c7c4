//! Ingress from the uplink and from peer links, and the login lines that
//! outbound links send.
use vstd::prelude::*;
use vstd::utf8::encode_utf8;
use crate::config::{S2SPeerConfig, UplinkConfig};
use crate::dedup::cache_step;
use crate::hub::{ids_except, peers_to_send, Hub, DUPE_CACHE_SIZE};
use crate::packet::{fingerprint, frame_valid, is_valid_aprs_packet, seahash_of};
use crate::text::{decimal_text, push_decimal, push_str, string_of, trim_str, trimmed};

verus! {

/// The peer port that peer login lines announce.
pub const S2S_PORT: u16 = 14579;

/// The passcode that the reply to an inbound peer announces.
pub const S2S_REPLY_PASSCODE: u16 = 12345;

/// To whom an ingress packet went, and the text they were handed.
pub struct Fanout {
    /// The text handed out: the packet, trimmed, with a newline.
    pub packet: String,
    /// Ids of the clients that were handed the packet.
    pub clients: Vec<usize>,
    /// Positions of the peer handles that were handed the packet.
    pub peers: Vec<usize>,
}

/// `line` trimmed and ended with a newline, as it is passed on.
pub fn framed_packet(line: &str) -> (r: String)
    ensures
        r@ == trimmed(line@) + "\n"@,
{
    let packet = trim_str(line);
    let mut out: Vec<char> = Vec::new();
    push_str(&mut out, packet.as_str());
    push_str(&mut out, "\n");
    string_of(out.as_slice())
}

/// `line`, trimmed, is fresh: a valid frame whose fingerprint the hub's
/// duplicate cache does not hold.
pub open spec fn fresh_ingress(hub: Hub, line: Seq<char>) -> bool {
    frame_valid(trimmed(line)) && !hub.dupe_order().contains(
        seahash_of(encode_utf8(trimmed(line))),
    )
}

/// The hub after a packet from the uplink or a peer: a valid frame is
/// offered to the duplicate cache; clients, handles and totals stay.
pub open spec fn hub_after_ingress(old: Hub, new: Hub, line: Seq<char>) -> bool {
    &&& new.wf()
    &&& new.clients() == old.clients()
    &&& new.handles() == old.handles()
    &&& new.next_id_spec() == old.next_id_spec()
    &&& new.totals() == old.totals()
    &&& new.dupe_order() == if frame_valid(trimmed(line)) {
        cache_step(
            old.dupe_order(),
            seahash_of(encode_utf8(trimmed(line))),
            DUPE_CACHE_SIZE as nat,
        )
    } else {
        old.dupe_order()
    }
}

/// Relays a line read from a peer link named `peer_name`: a valid, fresh
/// packet goes, trimmed and with a newline, to every client and to every
/// peer handle but those of the same name. Returns to whom it went and
/// what they were handed, or `None` for an invalid or duplicate packet.
pub fn relay_from_peer(hub: &mut Hub, peer_name: Option<&str>, line: &str) -> (r: Option<Fanout>)
    requires
        old(hub).wf(),
    ensures
        hub_after_ingress(*old(hub), *final(hub), line@),
        r is Some == fresh_ingress(*old(hub), line@),
        r matches Some(f) ==> {
            &&& f.packet@ == trimmed(line@) + "\n"@
            &&& f.clients@ == ids_except(old(hub).clients(), 0)
            &&& f.peers@ == peers_to_send(
                old(hub).handles(),
                match peer_name {
                    Some(n) => Some(n@),
                    None => None,
                },
            )
        },
{
    let packet = trim_str(line);
    if !is_valid_aprs_packet(packet.as_str()) {
        return None;
    }
    let fp = fingerprint(packet.as_str());
    if hub.check_and_insert_fingerprint(fp) {
        return None;
    }
    let framed = framed_packet(line);
    let clients = hub.broadcast_packet(0, framed.as_str());
    let peers = hub.broadcast_to_s2s_peers(peer_name, framed.as_str());
    Some(Fanout { packet: framed, clients, peers })
}

/// Relays a line read from the uplink: a valid, fresh packet goes, trimmed
/// and with a newline, to every client. Returns to whom it went and what
/// they were handed, or `None` for an invalid or duplicate packet.
pub fn relay_from_uplink(hub: &mut Hub, line: &str) -> (r: Option<(String, Vec<usize>)>)
    requires
        old(hub).wf(),
    ensures
        hub_after_ingress(*old(hub), *final(hub), line@),
        r is Some == fresh_ingress(*old(hub), line@),
        r matches Some((text, c)) ==> text@ == trimmed(line@) + "\n"@ && c@ == ids_except(
            old(hub).clients(),
            0,
        ),
{
    let packet = trim_str(line);
    if !is_valid_aprs_packet(packet.as_str()) {
        return None;
    }
    let fp = fingerprint(packet.as_str());
    if hub.check_and_insert_fingerprint(fp) {
        return None;
    }
    let framed = framed_packet(line);
    let clients = hub.broadcast_packet(0, framed.as_str());
    Some((framed, clients))
}

/// `user CALLSIGN pass PASSCODE vers aprsserver-rust 0.1.0` and a newline.
pub open spec fn uplink_login_text(callsign: Seq<char>, passcode: u16) -> Seq<char> {
    "user "@ + callsign + " pass "@ + decimal_text(passcode as nat) + " vers aprsserver-rust 0.1.0\n"@
}

/// `# aprsc 2.1.5 s2s NAME PASSCODE 14579` and a newline, with
/// `aprsserver-rust` where there is no name.
pub open spec fn s2s_login_text(peer_name: Option<Seq<char>>, passcode: u16) -> Seq<char> {
    let name = match peer_name {
        Some(n) => n,
        None => "aprsserver-rust"@,
    };
    "# aprsc 2.1.5 s2s "@ + name + " "@ + decimal_text(passcode as nat) + " "@ + decimal_text(
        S2S_PORT as nat,
    ) + "\n"@
}

/// The line the uplink logs in with.
pub fn uplink_login_line(cfg: &UplinkConfig) -> (r: String)
    ensures
        r@ == uplink_login_text(cfg.callsign@, cfg.passcode),
{
    let mut v: Vec<char> = Vec::new();
    push_str(&mut v, "user ");
    push_str(&mut v, cfg.callsign.as_str());
    push_str(&mut v, " pass ");
    push_decimal(&mut v, cfg.passcode as u64);
    push_str(&mut v, " vers aprsserver-rust 0.1.0\n");
    assert(v@ =~= uplink_login_text(cfg.callsign@, cfg.passcode));
    string_of(v.as_slice())
}

/// The line a peer link logs in with, naming `peer_name` where there is
/// one.
pub fn s2s_login_line(peer_name: Option<&str>, passcode: u16) -> (r: String)
    ensures
        r@ == s2s_login_text(
            match peer_name {
                Some(n) => Some(n@),
                None => None,
            },
            passcode,
        ),
{
    let mut v: Vec<char> = Vec::new();
    push_str(&mut v, "# aprsc 2.1.5 s2s ");
    match peer_name {
        Some(n) => push_str(&mut v, n),
        None => push_str(&mut v, "aprsserver-rust"),
    }
    push_str(&mut v, " ");
    push_decimal(&mut v, passcode as u64);
    push_str(&mut v, " ");
    push_decimal(&mut v, S2S_PORT as u64);
    push_str(&mut v, "\n");
    assert(v@ =~= s2s_login_text(
        match peer_name {
            Some(n) => Some(n@),
            None => None,
        },
        passcode,
    ));
    string_of(v.as_slice())
}

/// The line an outbound peer link logs in with.
pub fn peer_login_line(cfg: &S2SPeerConfig) -> (r: String)
    ensures
        r@ == s2s_login_text(
            match cfg.peer_name {
                Some(n) => Some(n@),
                None => None,
            },
            cfg.passcode,
        ),
{
    match &cfg.peer_name {
        Some(n) => s2s_login_line(Some(n.as_str()), cfg.passcode),
        None => s2s_login_line(None, cfg.passcode),
    }
}

/// The line that answers an inbound peer's login.
pub fn s2s_reply_line() -> (r: String)
    ensures
        r@ == s2s_login_text(None, S2S_REPLY_PASSCODE),
{
    s2s_login_line(None, S2S_REPLY_PASSCODE)
}

} // verus!
