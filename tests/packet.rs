use aprsserver::packet::{
    aprs_passcode, extract_message_destination, format_position,
    is_valid_aprs_packet, packet_matches_filter, parse_aprs_lat_lon, Position,
};

#[test]
fn test_aprs_passcode() {
    // SSID ignored
    assert_eq!(aprs_passcode("N0CALL"), aprs_passcode("N0CALL-1"));
    // Case-insensitive
    assert_eq!(aprs_passcode("TEST"), aprs_passcode("test"));
    // Different callsigns yield different passcodes
    assert_ne!(aprs_passcode("N0CALL"), aprs_passcode("N1CALL"));
}

#[test]
fn passcode_of_n0call_is_fixed() {
    assert_eq!(aprs_passcode("N0CALL"), 17975);
    assert_eq!(aprs_passcode("n0call"), 17975);
    assert_eq!(aprs_passcode("N0CALL-9"), 17975);
}

#[test]
fn passcode_fits_fifteen_bits() {
    for cs in ["", "A", "ZZZZZZ", "zzzzzzzzzz", "N0CALL-15", "\u{7f}\u{7f}\u{7f}"] {
        assert!(aprs_passcode(cs) <= 0x7fff);
    }
    assert_eq!(aprs_passcode(""), 0x070a);
}

#[test]
fn passcode_ignores_everything_after_first_dash() {
    assert_eq!(aprs_passcode("OH2XYZ-10-X"), aprs_passcode("oh2xyz"));
    assert_eq!(aprs_passcode("-N0CALL"), aprs_passcode(""));
}

#[test]
fn test_is_valid_aprs_packet() {
    assert!(is_valid_aprs_packet("N0CALL>APRS,TCPIP*:payload"));
    assert!(is_valid_aprs_packet("CALL>DEST:msg"));
    assert!(!is_valid_aprs_packet(""));
    assert!(!is_valid_aprs_packet("N0CALL payload"));
    assert!(!is_valid_aprs_packet(":no source address"));
}

#[test]
fn frame_validation_edges() {
    assert!(is_valid_aprs_packet("  CALL>DEST:msg\r\n"));
    assert!(!is_valid_aprs_packet("   \r\n"));
    assert!(!is_valid_aprs_packet(">DEST:msg"));
    assert!(!is_valid_aprs_packet("CALL>:msg"));
    assert!(!is_valid_aprs_packet("CALL>DEST"));
    assert!(!is_valid_aprs_packet("A:B>C:D"));
    assert!(is_valid_aprs_packet("A>BC:"));
}

#[test]
fn test_packet_matches_filter() {
    let filter = Some(vec!["foo".to_string(), "bar".to_string()]);
    assert!(packet_matches_filter("this is foo", &filter));
    assert!(packet_matches_filter("BAR test", &filter));
    assert!(!packet_matches_filter("baz", &filter));
    assert!(packet_matches_filter("anything", &None));
}

#[test]
fn keyword_filter_lowercases_the_line_only() {
    let filter = Some(vec!["FOO".to_string()]);
    assert!(!packet_matches_filter("foo", &filter));
    assert!(!packet_matches_filter("anything", &Some(vec![])));
}

#[test]
fn test_extract_message_destination() {
    assert_eq!(
        extract_message_destination("N0CALL>APRS,TCPIP*::DEST     :Hello"),
        Some("DEST".to_string())
    );
    assert_eq!(
        extract_message_destination("N0CALL>APRS,TCPIP*::FOO      :Test msg"),
        Some("FOO".to_string())
    );
    assert_eq!(extract_message_destination("N0CALL>APRS,TCPIP*:payload"), None);
    assert_eq!(extract_message_destination("N0CALL>APRS,TCPIP*::   :No dest"), None);
}

#[test]
fn message_destination_edges() {
    assert_eq!(extract_message_destination("A>B::SHORT"), None);
    assert_eq!(extract_message_destination("A>B::ABCDEFGHI:x"), Some("ABCDEFGHI".to_string()));
    assert_eq!(extract_message_destination("A>B::AB-CD    :x"), None);
    assert_eq!(extract_message_destination("no colon at all"), None);
    // the window is nine bytes; white space of several bytes is trimmed
    assert_eq!(
        extract_message_destination("A>B::DEST\u{3000}  :Hello"),
        Some("DEST".to_string())
    );
    assert_eq!(extract_message_destination("A>B::DESTAB\u{3000}x"), Some("DESTAB".to_string()));
    // a window that cuts a character in two names nothing
    assert_eq!(extract_message_destination("A>B::DESTABC\u{3000}"), None);
    assert_eq!(extract_message_destination("A>B::\u{e9}AB      :x"), None);
}

#[test]
fn test_parse_aprs_lat_lon() {
    let pkt = "N0CALL>APRS,TCPIP*:!4903.50N/07201.75W>Test";
    let p = parse_aprs_lat_lon(pkt).unwrap();
    let (lat, lon) = (p.lat as f64 / 6000.0, p.lon as f64 / 6000.0);
    assert!((lat - 49.0583).abs() < 0.01);
    assert!((lon + 72.0291).abs() < 0.01);
}

#[test]
fn position_units_are_exact() {
    let p = parse_aprs_lat_lon("N0CALL>APRS:!5959.00N/02500.00E>hello").unwrap();
    assert_eq!(p, Position { lat: 59 * 6000 + 5900, lon: 25 * 6000 });
    let q = parse_aprs_lat_lon("X>Y:=3345.12S/15112.34W-").unwrap();
    assert_eq!(q, Position { lat: -(33 * 6000 + 4512), lon: -(151 * 6000 + 1234) });
}

#[test]
fn position_parse_failures() {
    assert_eq!(parse_aprs_lat_lon("N0CALL>APRS:no position"), None);
    assert_eq!(parse_aprs_lat_lon("N0CALL>APRS:!4903.50N/07201.75W"), None);
    assert_eq!(parse_aprs_lat_lon("N0CALL>APRS:!4903.50X/07201.75W>"), None);
    assert_eq!(parse_aprs_lat_lon("N0CALL>APRS:!49x3.50N/07201.75W>"), None);
    assert_eq!(parse_aprs_lat_lon("no colon !4903.50N/07201.75W>"), None);
    assert_eq!(parse_aprs_lat_lon("A>B:!4903.50N\\07201.75W>"), None);
}

#[test]
fn position_round_trip() {
    for p in [
        Position { lat: 0, lon: 0 },
        Position { lat: 294350, lon: -432175 },
        Position { lat: -540000, lon: 1080000 },
        Position { lat: 359899, lon: -1 },
    ] {
        let text = format_position(p);
        let packet = format!("N0CALL>APRS:{}", text);
        assert_eq!(parse_aprs_lat_lon(&packet), Some(p));
        let (lat, lon) = (p.lat as f64 / 6000.0, p.lon as f64 / 6000.0);
        let back = parse_aprs_lat_lon(&packet).unwrap();
        assert!((back.lat as f64 / 6000.0 - lat).abs() < 0.001);
        assert!((back.lon as f64 / 6000.0 - lon).abs() < 0.001);
    }
    assert_eq!(format_position(Position { lat: 294350, lon: -432175 }), "!4903.50N/07201.75W>");
}
