use aprsserver::filter::{ClientFilter, FilterError};
use aprsserver::packet::Position;
use aprsserver::web::filter_summary;

/// Great-circle distance in km on a sphere of radius 6371 km.
fn haversine_km(lat1: f64, lon1: f64, lat2: f64, lon2: f64) -> f64 {
    let r = 6371.0;
    let dlat = (lat2 - lat1).to_radians();
    let dlon = (lon2 - lon1).to_radians();
    let a = (dlat / 2.0).sin().powi(2)
        + lat1.to_radians().cos() * lat2.to_radians().cos() * (dlon / 2.0).sin().powi(2);
    let c = 2.0 * a.sqrt().atan2((1.0 - a).sqrt());
    r * c
}

fn within(lat: i64, lon: i64, radius_km: i64, p: Position) -> bool {
    let d = haversine_km(
        lat as f64 / 1e6,
        lon as f64 / 1e6,
        p.lat as f64 / 6000.0,
        p.lon as f64 / 6000.0,
    );
    d <= radius_km as f64 / 1e6
}

fn area_filter_match(f: &ClientFilter, lat: f64, lon: f64) -> bool {
    let hemi_ns = if lat < 0.0 { 'S' } else { 'N' };
    let hemi_ew = if lon < 0.0 { 'W' } else { 'E' };
    let (la, lo) = (lat.abs(), lon.abs());
    let packet = format!(
        "N0CALL>APRS:!{:02}{:05.2}{}/{:03}{:05.2}{}>",
        la.trunc() as u32,
        la.fract() * 60.0,
        hemi_ns,
        lo.trunc() as u32,
        lo.fract() * 60.0,
        hemi_ew
    );
    f.matches(&packet, &within)
}

#[test]
fn test_area_filter_parse() {
    let f = ClientFilter::from_token("r/60.0/25.0/100.0").unwrap();
    match f.clone() {
        ClientFilter::Area { lat, lon, radius_km } => {
            assert_eq!(lat, 60_000_000);
            assert_eq!(lon, 25_000_000);
            assert_eq!(radius_km, 100_000_000);
        }
        _ => panic!("not an area filter"),
    }
    assert!(ClientFilter::from_token("r/60.0/25.0").is_err());
    assert!(ClientFilter::from_token("x/60.0/25.0/100.0").is_err());
    let parsed: ClientFilter = "r/60.0/25.0/100.0".parse().unwrap();
    assert_eq!(parsed, f);
}

#[test]
fn test_area_filter_match() {
    let area = ClientFilter::from_token("r/60.0/25.0/100.0").unwrap();
    assert!(area_filter_match(&area, 60.0, 25.0)); // center
    assert!(area_filter_match(&area, 60.5, 25.0)); // within 100km
    assert!(!area_filter_match(&area, 62.0, 25.0)); // outside 100km
}

#[test]
fn area_filter_near_and_far() {
    let f = ClientFilter::from_token("r/60/25/50").unwrap();
    assert!(f.matches("N0CALL>APRS:!5959.00N/02500.00E>hello", &within));
    assert!(!f.matches("N0CALL>APRS:!6200.00N/02500.00E>far", &within));
    assert!(!f.matches("N0CALL>APRS:no position", &within));
}

#[test]
fn area_filter_asks_the_oracle_with_centre_and_position() {
    let f = ClientFilter::Area { lat: 1, lon: 2, radius_km: 3 };
    let seen = std::cell::Cell::new(None);
    let r = f.matches("A>B:!0001.00N/00002.00E>", &|a: i64, b: i64, c: i64, p: Position| {
        seen.set(Some((a, b, c, p)));
        true
    });
    assert!(r);
    assert_eq!(seen.get(), Some((1, 2, 3, Position { lat: 100, lon: 200 })));
}

#[test]
fn filter_tokens_parse() {
    assert_eq!(ClientFilter::from_token("all"), Ok(ClientFilter::All));
    assert_eq!(ClientFilter::from_token(" a/* "), Ok(ClientFilter::All));
    assert_eq!(ClientFilter::from_token("p/OH"), Ok(ClientFilter::Prefix("OH".to_string())));
    assert_eq!(ClientFilter::from_token("t/!"), Ok(ClientFilter::Type("!".to_string())));
    assert_eq!(ClientFilter::from_token("o/obj"), Ok(ClientFilter::Object("obj".to_string())));
    assert_eq!(
        ClientFilter::from_token("a/61/24/59.5/-26.25"),
        Ok(ClientFilter::Box { lat1: 61_000_000, lon1: 24_000_000, lat2: 59_500_000, lon2: -26_250_000 })
    );
    assert_eq!(ClientFilter::from_token("r/+1.5/.5/7."), Ok(ClientFilter::Area { lat: 1_500_000, lon: 500_000, radius_km: 7_000_000 }));
}

#[test]
fn fraction_digits_past_the_sixth_are_dropped() {
    assert_eq!(
        ClientFilter::from_token("r/1.1234567/-2.99999999/3.0000009"),
        Ok(ClientFilter::Area { lat: 1_123_456, lon: -2_999_999, radius_km: 3_000_000 })
    );
}

#[test]
fn numbers_with_leading_zeros_and_exponents() {
    let area = |lat: i64, lon: i64, radius_km: i64| Ok(ClientFilter::Area { lat, lon, radius_km });
    assert_eq!(ClientFilter::from_token("r/0000000060/25/100"), area(60_000_000, 25_000_000, 100_000_000));
    assert_eq!(ClientFilter::from_token("r/6e1/25/100"), area(60_000_000, 25_000_000, 100_000_000));
    assert_eq!(ClientFilter::from_token("r/1.5E-3/-0.25e+2/1e2"), area(1_500, -25_000_000, 100_000_000));
    assert_eq!(ClientFilter::from_token("r/1e-999/0/1"), area(0, 0, 1_000_000));
    assert_eq!(
        ClientFilter::from_token("r/0e99999999999999999999999999999999999/0/1"),
        area(0, 0, 1_000_000)
    );
    assert_eq!(ClientFilter::from_token("r/999999999/0/1"), area(999_999_999_000_000, 0, 1_000_000));
    assert_eq!(ClientFilter::from_token("r/.5e1/0/1"), area(5_000_000, 0, 1_000_000));
    assert_eq!(ClientFilter::from_token("r/1e9/0/1"), Err(FilterError::InvalidLatitude));
    assert_eq!(
        ClientFilter::from_token("r/1e99999999999999999999999999999999999/0/1"),
        Err(FilterError::InvalidLatitude)
    );
    assert_eq!(ClientFilter::from_token("r/1e/0/1"), Err(FilterError::InvalidLatitude));
    assert_eq!(ClientFilter::from_token("r/e5/0/1"), Err(FilterError::InvalidLatitude));
    assert_eq!(ClientFilter::from_token("r/inf/0/1"), Err(FilterError::InvalidLatitude));
}

#[test]
fn filter_token_errors() {
    assert_eq!(ClientFilter::from_token("r/x/25/100"), Err(FilterError::InvalidLatitude));
    assert_eq!(ClientFilter::from_token("r/60/x/100"), Err(FilterError::InvalidLongitude));
    assert_eq!(ClientFilter::from_token("r/60/25/"), Err(FilterError::InvalidRadius));
    assert_eq!(ClientFilter::from_token("a/x/1/2/3"), Err(FilterError::InvalidLat1));
    assert_eq!(ClientFilter::from_token("a/1/x/2/3"), Err(FilterError::InvalidLon1));
    assert_eq!(ClientFilter::from_token("a/1/2/x/3"), Err(FilterError::InvalidLat2));
    assert_eq!(ClientFilter::from_token("a/1/2/3/x"), Err(FilterError::InvalidLon2));
    assert_eq!(ClientFilter::from_token("r/1/2"), Err(FilterError::UnknownType));
    assert_eq!(ClientFilter::from_token("z/1"), Err(FilterError::UnknownType));
    assert_eq!(ClientFilter::from_token("r/1.2.3/2/3"), Err(FilterError::InvalidLatitude));
    assert_eq!(ClientFilter::from_token("r/1234567890/2/3"), Err(FilterError::InvalidLatitude));
    assert_eq!(ClientFilter::from_token("r/--1/2/3"), Err(FilterError::InvalidLatitude));
    assert_eq!(FilterError::InvalidRadius.message(), "Invalid radius");
    assert_eq!(FilterError::UnknownType.message(), "Unknown filter type");
}

#[test]
fn filter_semantics() {
    let none = |_: i64, _: i64, _: i64, _: Position| false;
    let pkt = "OH7ABC>APRS,TCPIP*:!6000.00N/02500.00E>hello object";
    assert!(ClientFilter::All.matches("", &none));
    assert!(ClientFilter::Prefix("oh7".to_string()).matches(pkt, &none));
    assert!(!ClientFilter::Prefix("oh8".to_string()).matches(pkt, &none));
    assert!(ClientFilter::Type("!".to_string()).matches(pkt, &none));
    assert!(!ClientFilter::Type("=".to_string()).matches(pkt, &none));
    assert!(!ClientFilter::Type("!".to_string()).matches("no colon", &none));
    assert!(ClientFilter::Object("object".to_string()).matches(pkt, &none));
    assert!(!ClientFilter::Object("Object".to_string()).matches(pkt, &none));
    let b = ClientFilter::from_token("a/61/26/59/24").unwrap();
    assert!(b.matches(pkt, &none));
    let b2 = ClientFilter::from_token("a/61/26/60.5/24").unwrap();
    assert!(!b2.matches(pkt, &none));
    assert!(!b.matches("A>B:no position", &none));
}

#[test]
fn summary_writes_tokens() {
    let fs = Some(vec![
        ClientFilter::from_token("r/60/25/50").unwrap(),
        ClientFilter::Prefix("OH".to_string()),
        ClientFilter::All,
    ]);
    assert_eq!(
        filter_summary(&fs),
        "r/60.000000/25.000000/50.000000, p/OH, all"
    );
    assert_eq!(filter_summary(&None), "");
    let neg = ClientFilter::Box { lat1: -1_500_000, lon1: 2, lat2: 3, lon2: 4 };
    assert_eq!(neg.to_token(), "a/-1.500000/0.000002/0.000003/0.000004");
}
