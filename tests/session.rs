use aprsserver::hub::{Hub, S2SPeerHandle};
use aprsserver::packet::Position;
use aprsserver::relay::{relay_from_peer, relay_from_uplink, s2s_login_line, uplink_login_line};
use aprsserver::config::UplinkConfig;
use aprsserver::session::{check_login, classify_line, parse_u16, LineKind, LoginVerdict, Session, SessionState};
use aprsserver::relay::framed_packet;
use tokio::sync::mpsc::{unbounded_channel, UnboundedReceiver};

fn haversine_km(lat1: f64, lon1: f64, lat2: f64, lon2: f64) -> f64 {
    let dlat = (lat2 - lat1).to_radians();
    let dlon = (lon2 - lon1).to_radians();
    let a = (dlat / 2.0).sin().powi(2)
        + lat1.to_radians().cos() * lat2.to_radians().cos() * (dlon / 2.0).sin().powi(2);
    6371.0 * 2.0 * a.sqrt().atan2((1.0 - a).sqrt())
}

fn within(lat: i64, lon: i64, radius_km: i64, p: Position) -> bool {
    haversine_km(lat as f64 / 1e6, lon as f64 / 1e6, p.lat as f64 / 6000.0, p.lon as f64 / 6000.0)
        <= radius_km as f64 / 1e6
}

fn login(hub: &mut Hub, callsign: &str) -> (Session, UnboundedReceiver<String>) {
    let (tx, rx) = unbounded_channel::<String>();
    let mut s = Session::new(0);
    let line = format!("user {} pass {} vers test 1.0\r\n", callsign, aprsserver::packet::aprs_passcode(callsign));
    assert_eq!(s.on_login(hub, &line, tx, 0), "# login ok\n");
    assert_eq!(s.current_state(), SessionState::LoggedIn);
    (s, rx)
}

#[test]
fn u16_parsing() {
    assert_eq!(parse_u16("17975"), Some(17975));
    assert_eq!(parse_u16("+5"), Some(5));
    assert_eq!(parse_u16("65535"), Some(65535));
    assert_eq!(parse_u16("65536"), None);
    assert_eq!(parse_u16("-1"), None);
    assert_eq!(parse_u16(""), None);
    assert_eq!(parse_u16("12a"), None);
    assert_eq!(parse_u16("0000000000000000000042"), Some(42));
}

#[test]
fn login_verdicts() {
    assert_eq!(check_login("user N0CALL pass 17975 vers x 1").0, LoginVerdict::Accepted);
    assert_eq!(check_login("USER n0call-9 PASS 17975").0, LoginVerdict::Accepted);
    assert_eq!(check_login("user N0CALL pass 1").0, LoginVerdict::BadPasscode);
    assert_eq!(check_login("user N0CALL pass abc").0, LoginVerdict::BadPasscode);
    assert_eq!(check_login("user N0CALL").0, LoginVerdict::BadLogin);
    assert_eq!(check_login("pass 17975 user").0, LoginVerdict::BadLogin);
    assert_eq!(check_login("").0, LoginVerdict::BadLogin);
}

#[test]
fn wrong_passcode_closes_without_registering() {
    let mut hub = Hub::new(0);
    let (tx, _rx) = unbounded_channel::<String>();
    let mut e = Session::new(0);
    let reply = e.on_login(&mut hub, "user E pass 1\n", tx, 0);
    assert_eq!(reply, "# invalid passcode\n");
    assert_eq!(e.current_state(), SessionState::Closed);
    assert_eq!(hub.client_count(), 0);
    let (tx2, _rx2) = unbounded_channel::<String>();
    let mut f = Session::new(0);
    assert_eq!(f.on_login(&mut hub, "vers only\n", tx2, 0), "# invalid login\n");
    assert_eq!(hub.client_count(), 0);
}

#[test]
fn packet_goes_to_other_clients_only() {
    let mut hub = Hub::new(0);
    let (mut a, mut ra) = login(&mut hub, "A");
    let (mut b, mut rb) = login(&mut hub, "B");
    let out = b.on_line(&mut hub, "# filter all\n", &within, 0);
    assert_eq!(out.replies, vec!["# filter set\n".to_string()]);
    let out = a.on_line(&mut hub, "A>APRS:hello\n", &within, 0);
    assert_eq!(out.fanout, Some(vec![b.id()]));
    assert_eq!(rb.try_recv().unwrap(), "A>APRS:hello\n");
    assert!(rb.try_recv().is_err());
    assert!(ra.try_recv().is_err());
    hub.update_totals();
    assert_eq!(hub.get_totals(), (1, 1, 13, 13));
}

#[test]
fn repeated_packet_is_relayed_once() {
    let mut hub = Hub::new(0);
    let (mut a, _ra) = login(&mut hub, "A");
    let (_b, mut rb) = login(&mut hub, "B");
    assert!(a.on_line(&mut hub, "A>APRS:dup\n", &within, 0).fanout.is_some());
    assert!(a.on_line(&mut hub, "A>APRS:dup\n", &within, 0).fanout.is_none());
    assert_eq!(a.packets_duplicated(), 1);
    assert_eq!(a.packets_received(), 2);
    assert_eq!(rb.try_recv().unwrap(), "A>APRS:dup\n");
    assert!(rb.try_recv().is_err());
}

#[test]
fn sender_filters_decide_the_fanout() {
    let mut hub = Hub::new(0);
    let (mut d, _rd) = login(&mut hub, "D");
    let (_e, mut re) = login(&mut hub, "E");
    let out = d.on_line(&mut hub, "# filter r/60/25/50\n", &within, 0);
    assert_eq!(out.replies, vec!["# filter set\n".to_string()]);
    let near = d.on_line(&mut hub, "N0CALL>APRS:!5959.00N/02500.00E>hello\n", &within, 0);
    assert!(near.fanout.is_some());
    let far = d.on_line(&mut hub, "N0CALL>APRS:!6200.00N/02500.00E>far\n", &within, 0);
    assert!(far.fanout.is_none());
    assert_eq!(d.packets_dropped(), 1);
    assert_eq!(re.try_recv().unwrap(), "N0CALL>APRS:!5959.00N/02500.00E>hello\n");
    assert!(re.try_recv().is_err());
}

#[test]
fn filter_command_reports_bad_tokens() {
    let mut hub = Hub::new(0);
    let (mut a, _ra) = login(&mut hub, "A");
    let out = a.on_line(&mut hub, "# FILTER r/x/1/2 p/OH zz\n", &within, 0);
    assert_eq!(
        out.replies,
        vec![
            "# invalid filter: Invalid latitude\n".to_string(),
            "# invalid filter: Unknown filter type\n".to_string(),
            "# filter set\n".to_string(),
        ]
    );
    let out = a.on_line(&mut hub, "# filter bogus\n", &within, 0);
    assert_eq!(out.replies, vec!["# invalid filter: Unknown filter type\n".to_string()]);
    let c = hub.client_at(0);
    assert_eq!(c.filter, Some(vec![aprsserver::filter::ClientFilter::Prefix("OH".to_string())]));
    assert_eq!(c.callsign, Some("A".to_string()));
}

#[test]
fn stats_command() {
    let mut hub = Hub::new(0);
    let (mut a, _ra) = login(&mut hub, "A");
    a.on_line(&mut hub, "A>B:1\n", &within, 0);
    a.on_line(&mut hub, "A>B:1\n", &within, 0);
    let out = a.on_line(&mut hub, "# Stats\r\n", &within, 42);
    assert_eq!(
        out.replies,
        vec!["# stats: uptime=42s received=2 dropped=0 duplicated=1\n".to_string()]
    );
}

#[test]
fn message_destination_is_reported() {
    let mut hub = Hub::new(0);
    let (mut a, _ra) = login(&mut hub, "A");
    let out = a.on_line(&mut hub, "A>APRS,TCPIP*::DEST     :Hello\n", &within, 0);
    assert_eq!(out.destination, Some("DEST".to_string()));
}

#[test]
fn close_unregisters() {
    let mut hub = Hub::new(0);
    let (mut a, _ra) = login(&mut hub, "A");
    assert_eq!(hub.client_count(), 1);
    a.on_close(&mut hub);
    assert_eq!(hub.client_count(), 0);
    assert_eq!(a.current_state(), SessionState::Closed);
}

#[test]
fn uplink_packet_then_peer_copy_is_suppressed() {
    let mut hub = Hub::new(0);
    let (mut c, mut rc) = login(&mut hub, "C");
    c.on_line(&mut hub, "# filter p/UP\n", &within, 0);
    assert_eq!(
        relay_from_uplink(&mut hub, "UP>APRS:x\r\n"),
        Some(("UP>APRS:x\n".to_string(), vec![c.id()]))
    );
    assert_eq!(rc.try_recv().unwrap(), "UP>APRS:x\n");
    assert!(relay_from_peer(&mut hub, Some("beta"), "UP>APRS:x\n").is_none());
    assert!(rc.try_recv().is_err());
    assert!(relay_from_uplink(&mut hub, "not a frame").is_none());
}

#[test]
fn peer_packet_is_not_echoed_to_its_source() {
    let mut hub = Hub::new(0);
    let (_c, mut rc) = login(&mut hub, "C");
    let (t1, mut r1) = unbounded_channel::<String>();
    let (t2, mut r2) = unbounded_channel::<String>();
    hub.add_peer_handle(S2SPeerHandle { peer_name: Some("alpha".to_string()), sender: t1 });
    hub.add_peer_handle(S2SPeerHandle { peer_name: Some("gamma".to_string()), sender: t2 });
    let f = relay_from_peer(&mut hub, Some("alpha"), "P>APRS:from alpha\n").unwrap();
    assert_eq!(f.packet, "P>APRS:from alpha\n");
    assert_eq!(f.clients, vec![1]);
    assert_eq!(f.peers, vec![1]);
    assert_eq!(rc.try_recv().unwrap(), "P>APRS:from alpha\n");
    assert_eq!(r2.try_recv().unwrap(), "P>APRS:from alpha\n");
    assert!(r1.try_recv().is_err());
}

#[test]
fn login_lines() {
    let cfg = UplinkConfig {
        host: "rotate.aprs2.net".to_string(),
        port: 14580,
        callsign: "N0CALL".to_string(),
        passcode: 12345,
    };
    assert_eq!(uplink_login_line(&cfg), "user N0CALL pass 12345 vers aprsserver-rust 0.1.0\n");
    assert_eq!(s2s_login_line(Some("alpha"), 7), "# aprsc 2.1.5 s2s alpha 7 14579\n");
    assert_eq!(s2s_login_line(None, 0), "# aprsc 2.1.5 s2s aprsserver-rust 0 14579\n");
}

#[test]
fn line_kinds() {
    assert_eq!(classify_line("# filter r/1/2/3"), LineKind::FilterCommand);
    assert_eq!(classify_line("# filter "), LineKind::FilterCommand);
    assert_eq!(classify_line("# filter"), LineKind::Packet);
    assert_eq!(classify_line("# stats"), LineKind::Stats);
    assert_eq!(classify_line("# stats now"), LineKind::Packet);
    assert_eq!(classify_line("a>aprs:hello"), LineKind::Packet);
}

#[test]
fn framing() {
    assert_eq!(framed_packet("  A>B:x \r\n"), "A>B:x\n");
    assert_eq!(framed_packet(""), "\n");
}

#[test]
fn lines_handled_by_kind() {
    let mut hub = Hub::new(0);
    let (mut a, _ra) = login(&mut hub, "A");
    let (_b, mut rb) = login(&mut hub, "B");
    let out = a.on_line_of_kind(&mut hub, "A>APRS:x\n", LineKind::Packet, &within, 0);
    assert_eq!(out.fanout, Some(vec![2]));
    assert_eq!(rb.try_recv().unwrap(), "A>APRS:x\n");
    let out = a.on_line_of_kind(&mut hub, "# stats\n", LineKind::Stats, &within, 5);
    assert_eq!(out.replies, vec!["# stats: uptime=5s received=1 dropped=0 duplicated=0\n".to_string()]);
    let out = a.on_line_of_kind(&mut hub, "# filter all\n", LineKind::FilterCommand, &within, 0);
    assert_eq!(out.replies, vec!["# filter set\n".to_string()]);
}
