use aprsserver::config::{Config, UplinkConfig};
use aprsserver::hub::Hub;
use aprsserver::status::{LinkEvent, LinkStats, S2SPeerStatus, UplinkStatus};
use aprsserver::web::{client_infos, status_of};

#[test]
fn link_events() {
    let mut s = LinkStats::new();
    s.apply(LinkEvent::ConnectFailed { error: "connect: refused".to_string() });
    assert!(!s.connected);
    assert_eq!(s.connect_errors, 1);
    assert_eq!(s.last_error, Some("connect: refused".to_string()));
    s.apply(LinkEvent::Connected { now: 5 });
    assert!(s.connected);
    assert_eq!(s.last_connect, Some(5));
    assert_eq!(s.last_error, None);
    s.apply(LinkEvent::Sent { bytes: 30, now: 6 });
    s.apply(LinkEvent::Received { bytes: 12, now: 7 });
    assert_eq!((s.packets_tx, s.bytes_tx, s.packets_rx, s.bytes_rx), (1, 30, 1, 12));
    assert_eq!((s.last_tx_time, s.last_rx_time), (Some(6), Some(7)));
    s.apply(LinkEvent::ReadFailed { error: "read: reset".to_string() });
    assert_eq!((s.connected, s.read_errors), (false, 1));
    s.apply(LinkEvent::WriteFailed { error: "keepalive: broken".to_string() });
    assert_eq!(s.write_errors, 1);
    s.apply(LinkEvent::Connected { now: 8 });
    s.apply(LinkEvent::Closed);
    assert!(!s.connected);
}

#[test]
fn statuses_start_disconnected() {
    let cfg = UplinkConfig { host: "h".to_string(), port: 1, callsign: "c".to_string(), passcode: 2 };
    let u = UplinkStatus::new(&cfg);
    assert_eq!((u.host.as_str(), u.port, u.link.connected), ("h", 1, false));
    let p = S2SPeerStatus::new("p".to_string(), 3, Some("alpha".to_string()));
    assert_eq!(p.peer_name, Some("alpha".to_string()));
    assert_eq!(p.link.packets_rx, 0);
    let mut hub = Hub::new(0);
    let i = hub.add_peer_status(p);
    hub.peer_event(i, LinkEvent::Connected { now: 9 });
    assert!(hub.peer_status_list()[0].link.connected);
}

#[test]
fn default_peer_port() {
    let mut cfg = Config {
        server_name: "x".to_string(),
        user_port: 14580,
        server_port: 10152,
        s2s_port: None,
        allow_callsigns: None,
        deny_callsigns: None,
        uplink: None,
        s2s_peers: None,
    };
    assert_eq!(cfg.s2s_port_or_default(), 14579);
    cfg.s2s_port = Some(1);
    assert_eq!(cfg.s2s_port_or_default(), 1);
}

#[test]
fn dashboard_snapshots() {
    let mut hub = Hub::new(100);
    let (tx, _rx) = tokio::sync::mpsc::unbounded_channel::<String>();
    let mut c = aprsserver::client::Client::new(0, tx, 100);
    c.callsign = Some("N0CALL".to_string());
    hub.add_client(c);
    let s = status_of(&hub, "aprsserver-rust", 130);
    assert_eq!((s.server_name.as_str(), s.uptime, s.clients), ("aprsserver-rust", 30, 1));
    let infos = client_infos(&hub);
    assert_eq!(infos.len(), 1);
    assert_eq!((infos[0].id, infos[0].callsign.clone()), (1, Some("N0CALL".to_string())));
    assert!(infos[0].filter.is_none());
}
