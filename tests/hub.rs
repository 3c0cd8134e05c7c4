use aprsserver::client::Client;
use aprsserver::filter::ClientFilter;
use aprsserver::hub::{Hub, S2SPeerHandle, DUPE_CACHE_SIZE};
use tokio::sync::mpsc::{unbounded_channel, UnboundedReceiver};

fn client(id: usize) -> (Client, UnboundedReceiver<String>) {
    let (tx, rx) = unbounded_channel::<String>();
    (Client::new(id, tx, 0), rx)
}

#[test]
fn test_client_new() {
    let (c, _rx) = client(1);
    assert_eq!(c.id, 1);
    assert!(c.filter.is_none());
}

#[test]
fn client_counters() {
    let (mut c, _rx) = client(1);
    c.inc_rx(10);
    c.inc_rx(5);
    c.inc_tx(7);
    assert_eq!((c.packets_rx, c.bytes_rx, c.packets_tx, c.bytes_tx), (2, 15, 1, 7));
    c.bytes_rx = u64::MAX - 1;
    c.inc_rx(10);
    assert_eq!(c.bytes_rx, u64::MAX);
}

#[test]
fn test_hub_add_remove() {
    let mut hub = Hub::new(0);
    let (c, _rx) = client(1);
    let id = hub.add_client(c);
    assert_eq!(hub.client_count(), 1);
    hub.remove_client(id);
    assert_eq!(hub.client_count(), 0);
}

#[test]
fn ids_are_never_reused() {
    let mut hub = Hub::new(0);
    let (a, _ra) = client(0);
    let (b, _rb) = client(0);
    let ia = hub.add_client(a);
    hub.remove_client(ia);
    hub.remove_client(ia);
    let ib = hub.add_client(b);
    assert_eq!((ia, ib), (1, 2));
    assert_eq!(hub.client_count(), 1);
    assert_eq!(hub.next_id(), 3);
}

#[test]
fn test_hub_update_client() {
    let mut hub = Hub::new(0);
    let (c, _rx) = client(1);
    let id = hub.add_client(c);
    hub.update_client(
        id,
        Some("N0CALL".to_string()),
        Some(vec![ClientFilter::Prefix("foo".to_string())]),
    );
    let c = hub.client_at(0);
    assert_eq!(c.callsign, Some("N0CALL".to_string()));
    assert_eq!(c.filter, Some(vec![ClientFilter::Prefix("foo".to_string())]));
}

#[test]
fn test_hub_uptime() {
    let hub = Hub::new(1000);
    assert!(hub.uptime(1001) < 2);
    assert_eq!(hub.uptime(1060), 60);
    assert_eq!(hub.uptime(10), 0);
}

#[test]
fn test_broadcast_packet() {
    let mut hub = Hub::new(0);
    let (c1, mut r1) = client(1);
    let (c2, mut r2) = client(2);
    let id1 = hub.add_client(c1);
    let id2 = hub.add_client(c2);
    let sent = hub.broadcast_packet(id1, "test123\n");
    assert_eq!(sent, vec![id2]);
    assert!(r2.try_recv().unwrap().contains("test123"));
    // Sender should not receive its own packet
    assert!(r1.try_recv().is_err());
    hub.remove_client(id1);
    hub.remove_client(id2);
}

#[test]
fn broadcast_from_outside_reaches_everyone() {
    let mut hub = Hub::new(0);
    let (c1, mut r1) = client(0);
    let (c2, mut r2) = client(0);
    hub.add_client(c1);
    hub.add_client(c2);
    assert_eq!(hub.broadcast_packet(0, "UP>APRS:x\n"), vec![1, 2]);
    assert_eq!(r1.try_recv().unwrap(), "UP>APRS:x\n");
    assert_eq!(r2.try_recv().unwrap(), "UP>APRS:x\n");
}

#[test]
fn totals_sum_client_counters() {
    let mut hub = Hub::new(0);
    let (c1, _r1) = client(0);
    let (c2, _r2) = client(0);
    let a = hub.add_client(c1);
    let b = hub.add_client(c2);
    hub.count_rx(a, 10);
    hub.count_rx(b, 4);
    hub.count_tx_to_others(a, 10);
    assert_eq!(hub.get_totals(), (0, 0, 0, 0));
    hub.update_totals();
    assert_eq!(hub.get_totals(), (2, 1, 14, 10));
}

#[test]
fn dupe_cache_is_bounded_fifo() {
    let mut hub = Hub::new(0);
    assert!(!hub.check_and_insert_dupe("A>B:0"));
    assert!(hub.check_and_insert_dupe("A>B:0"));
    for i in 1..=DUPE_CACHE_SIZE {
        assert!(!hub.check_and_insert_dupe(&format!("A>B:{}", i)));
    }
    assert_eq!(hub.dupe_len(), DUPE_CACHE_SIZE);
    // the first one was evicted, the later ones are still held
    assert!(hub.check_and_insert_dupe("A>B:2"));
    assert!(!hub.check_and_insert_dupe("A>B:0"));
    assert_eq!(hub.dupe_len(), DUPE_CACHE_SIZE);
    // re-inserting the first evicted the oldest remaining one
    assert!(!hub.check_and_insert_dupe("A>B:1"));
}

#[test]
fn dupe_cache_grows_to_n_below_capacity() {
    let mut hub = Hub::new(0);
    for i in 0..10 {
        hub.check_and_insert_dupe(&format!("A>B:{}", i));
    }
    assert_eq!(hub.dupe_len(), 10);
}

#[test]
fn peer_echo_suppression() {
    let mut hub = Hub::new(0);
    let (ta, mut ra) = unbounded_channel::<String>();
    let (tb, mut rb) = unbounded_channel::<String>();
    let (tc, mut rc) = unbounded_channel::<String>();
    hub.add_peer_handle(S2SPeerHandle { peer_name: Some("alpha".to_string()), sender: ta });
    hub.add_peer_handle(S2SPeerHandle { peer_name: Some("beta".to_string()), sender: tb });
    hub.add_peer_handle(S2SPeerHandle { peer_name: None, sender: tc });
    let sent = hub.broadcast_to_s2s_peers(Some("alpha"), "A>B:x\n");
    assert_eq!(sent, vec![1, 2]);
    assert!(ra.try_recv().is_err());
    assert_eq!(rb.try_recv().unwrap(), "A>B:x\n");
    assert_eq!(rc.try_recv().unwrap(), "A>B:x\n");
    assert_eq!(hub.broadcast_to_s2s_peers(None, "A>B:y\n"), vec![0, 1, 2]);
    hub.remove_peer_handles(Some("alpha"));
    assert_eq!(hub.broadcast_to_s2s_peers(None, "A>B:z\n"), vec![0, 1]);
    hub.remove_peer_handles(None);
    assert_eq!(hub.broadcast_to_s2s_peers(None, "A>B:z\n"), vec![0]);
}

#[test]
fn dupes_are_keyed_by_packet_bytes() {
    let mut hub = Hub::new(0);
    assert!(!hub.check_and_insert_dupe("A>B:x"));
    assert!(!hub.check_and_insert_dupe("A>B:y"));
    assert!(hub.check_and_insert_dupe("A>B:x"));
    assert!(!hub.check_and_insert_fingerprint(seahash::hash(b"A>B:z")));
    assert!(hub.check_and_insert_dupe("A>B:z"));
    assert_eq!(hub.dupe_len(), 3);
    // the fingerprint is taken of the trimmed packet
    assert!(hub.check_and_insert_dupe("  A>B:x\r\n"));
    assert!(!hub.check_and_insert_dupe("A>B:w\r\n"));
    assert!(hub.check_and_insert_dupe("A>B:w"));
}
