//! Subscription filters: parsing a filter token and testing a packet
//! against it.
use vstd::prelude::*;
use crate::decimal::{decimal_value, parse_decimal};
use crate::packet::{parse_aprs_lat_lon, position_of, Position};
use crate::text::{
    char_vec, contains, contains_exec, find_char, index_of, slice_vec,
    split_slash, split_slash_exec, starts_with, starts_with_exec, starts_with_str, string_of,
    trim_bounds, trimmed, upper_of, uppercase,
};

verus! {

/// A subscription filter. Coordinates are in millionths of a degree and
/// the radius in millionths of a kilometre.
#[derive(Clone, Debug, PartialEq)]
pub enum ClientFilter {
    /// Packets whose position lies within `radius_km` of `(lat, lon)`.
    Area { lat: i64, lon: i64, radius_km: i64 },
    /// Packets whose position lies in the box spanned by the two corners.
    Box { lat1: i64, lon1: i64, lat2: i64, lon2: i64 },
    /// Packets whose frame, upper-cased, begins with the upper-cased text.
    Prefix(String),
    /// Packets whose payload begins with the text.
    Type(String),
    /// Packets that contain the text.
    Object(String),
    /// Every packet.
    All,
}

/// A filter with its texts as character sequences.
pub enum FilterView {
    Area { lat: i64, lon: i64, radius_km: i64 },
    Box { lat1: i64, lon1: i64, lat2: i64, lon2: i64 },
    Prefix(Seq<char>),
    Type(Seq<char>),
    Object(Seq<char>),
    All,
}

impl View for ClientFilter {
    type V = FilterView;

    open spec fn view(&self) -> FilterView {
        match self {
            ClientFilter::Area { lat, lon, radius_km } => FilterView::Area {
                lat: *lat,
                lon: *lon,
                radius_km: *radius_km,
            },
            ClientFilter::Box { lat1, lon1, lat2, lon2 } => FilterView::Box {
                lat1: *lat1,
                lon1: *lon1,
                lat2: *lat2,
                lon2: *lon2,
            },
            ClientFilter::Prefix(s) => FilterView::Prefix(s@),
            ClientFilter::Type(s) => FilterView::Type(s@),
            ClientFilter::Object(s) => FilterView::Object(s@),
            ClientFilter::All => FilterView::All,
        }
    }
}

/// Why a filter token was refused.
#[derive(Clone, Copy, Debug, PartialEq, Eq, Structural)]
pub enum FilterError {
    InvalidLatitude,
    InvalidLongitude,
    InvalidRadius,
    InvalidLat1,
    InvalidLon1,
    InvalidLat2,
    InvalidLon2,
    UnknownType,
}

/// The text that reports a filter error.
pub open spec fn error_text(e: FilterError) -> Seq<char> {
    match e {
        FilterError::InvalidLatitude => "Invalid latitude"@,
        FilterError::InvalidLongitude => "Invalid longitude"@,
        FilterError::InvalidRadius => "Invalid radius"@,
        FilterError::InvalidLat1 => "Invalid lat1"@,
        FilterError::InvalidLon1 => "Invalid lon1"@,
        FilterError::InvalidLat2 => "Invalid lat2"@,
        FilterError::InvalidLon2 => "Invalid lon2"@,
        FilterError::UnknownType => "Unknown filter type"@,
    }
}

impl FilterError {
    /// The text that reports this error.
    pub fn message(&self) -> (r: String)
        ensures
            r@ == error_text(*self),
    {
        match self {
            FilterError::InvalidLatitude => "Invalid latitude".to_string(),
            FilterError::InvalidLongitude => "Invalid longitude".to_string(),
            FilterError::InvalidRadius => "Invalid radius".to_string(),
            FilterError::InvalidLat1 => "Invalid lat1".to_string(),
            FilterError::InvalidLon1 => "Invalid lon1".to_string(),
            FilterError::InvalidLat2 => "Invalid lat2".to_string(),
            FilterError::InvalidLon2 => "Invalid lon2".to_string(),
            FilterError::UnknownType => "Unknown filter type".to_string(),
        }
    }
}

/// An area filter from the pieces `r`, latitude, longitude, radius.
pub open spec fn area_from(parts: Seq<Seq<char>>) -> Result<FilterView, FilterError> {
    match (decimal_value(parts[1]), decimal_value(parts[2]), decimal_value(parts[3])) {
        (None, _, _) => Err(FilterError::InvalidLatitude),
        (Some(_), None, _) => Err(FilterError::InvalidLongitude),
        (Some(_), Some(_), None) => Err(FilterError::InvalidRadius),
        (Some(lat), Some(lon), Some(radius_km)) => Ok(
            FilterView::Area { lat: lat as i64, lon: lon as i64, radius_km: radius_km as i64 },
        ),
    }
}

/// A box filter from the pieces `a`, then the two corners.
pub open spec fn box_from(parts: Seq<Seq<char>>) -> Result<FilterView, FilterError> {
    match (
        decimal_value(parts[1]),
        decimal_value(parts[2]),
        decimal_value(parts[3]),
        decimal_value(parts[4]),
    ) {
        (None, _, _, _) => Err(FilterError::InvalidLat1),
        (Some(_), None, _, _) => Err(FilterError::InvalidLon1),
        (Some(_), Some(_), None, _) => Err(FilterError::InvalidLat2),
        (Some(_), Some(_), Some(_), None) => Err(FilterError::InvalidLon2),
        (Some(lat1), Some(lon1), Some(lat2), Some(lon2)) => Ok(
            FilterView::Box {
                lat1: lat1 as i64,
                lon1: lon1 as i64,
                lat2: lat2 as i64,
                lon2: lon2 as i64,
            },
        ),
    }
}

/// The filter that a token denotes, after trimming: `a/*` or `all`;
/// `r/LAT/LON/RADIUS`; `a/LAT1/LON1/LAT2/LON2`; `p/`, `t/` or `o/` and a
/// text. A token that starts with `r/` or `a/` with another number of
/// pieces is tried against the later forms.
pub open spec fn parse_filter(token: Seq<char>) -> Result<FilterView, FilterError> {
    let s = trimmed(token);
    let parts = split_slash(s);
    if s == seq!['a', '/', '*'] || s == seq!['a', 'l', 'l'] {
        Ok(FilterView::All)
    } else if starts_with(s, seq!['r', '/']) && parts.len() == 4 {
        area_from(parts)
    } else if starts_with(s, seq!['a', '/']) && parts.len() == 5 {
        box_from(parts)
    } else if starts_with(s, seq!['p', '/']) {
        Ok(FilterView::Prefix(s.subrange(2, s.len() as int)))
    } else if starts_with(s, seq!['t', '/']) {
        Ok(FilterView::Type(s.subrange(2, s.len() as int)))
    } else if starts_with(s, seq!['o', '/']) {
        Ok(FilterView::Object(s.subrange(2, s.len() as int)))
    } else {
        Err(FilterError::UnknownType)
    }
}

fn head_is(s: &Vec<char>, a: char, b: char) -> (r: bool)
    ensures
        r == starts_with(s@, seq![a, b]),
{
    let r = s.len() >= 2 && s[0] == a && s[1] == b;
    if r {
        assert(s@.subrange(0, 2) =~= seq![a, b]);
    } else if s.len() >= 2 {
        assert(s@.subrange(0, 2)[0] == s@[0]);
        assert(s@.subrange(0, 2)[1] == s@[1]);
    }
    r
}

fn decimal_piece(parts: &Vec<Vec<char>>, i: usize) -> (r: Option<i64>)
    requires
        i < parts@.len(),
    ensures
        r matches Some(v) ==> decimal_value(parts@[i as int]@) == Some(v as int),
        r is None ==> decimal_value(parts@[i as int]@) is None,
{
    parse_decimal(&parts[i])
}

impl ClientFilter {
    /// The filter that `token` denotes.
    pub fn from_token(token: &str) -> (r: Result<ClientFilter, FilterError>)
        ensures
            r matches Ok(f) ==> parse_filter(token@) == Ok::<FilterView, FilterError>(f@),
            r matches Err(e) ==> parse_filter(token@) == Err::<FilterView, FilterError>(e),
    {
        let all = char_vec(token);
        let (start, end) = trim_bounds(&all);
        let s = slice_vec(&all, start, end);
        let ghost sv = trimmed(token@);
        assert(s@ == sv);
        let parts = split_slash_exec(&s);
        assert(parts@.len() == split_slash(sv).len());
        if s.len() == 3 && s[0] == 'a' && ((s[1] == '/' && s[2] == '*') || (s[1] == 'l' && s[2]
            == 'l')) {
            if s[1] == '/' {
                assert(sv =~= seq!['a', '/', '*']);
            } else {
                assert(sv =~= seq!['a', 'l', 'l']);
            }
            return Ok(ClientFilter::All);
        }
        assert(!(sv == seq!['a', '/', '*'] || sv == seq!['a', 'l', 'l'])) by {
            if sv == seq!['a', '/', '*'] {
                assert(sv[1] == '/' && sv[2] == '*');
            }
            if sv == seq!['a', 'l', 'l'] {
                assert(sv[1] == 'l' && sv[2] == 'l');
            }
        }
        if head_is(&s, 'r', '/') && parts.len() == 4 {
            let lat = match decimal_piece(&parts, 1) {
                Some(v) => v,
                None => return Err(FilterError::InvalidLatitude),
            };
            let lon = match decimal_piece(&parts, 2) {
                Some(v) => v,
                None => return Err(FilterError::InvalidLongitude),
            };
            let radius_km = match decimal_piece(&parts, 3) {
                Some(v) => v,
                None => return Err(FilterError::InvalidRadius),
            };
            return Ok(ClientFilter::Area { lat, lon, radius_km });
        }
        if head_is(&s, 'a', '/') && parts.len() == 5 {
            let lat1 = match decimal_piece(&parts, 1) {
                Some(v) => v,
                None => return Err(FilterError::InvalidLat1),
            };
            let lon1 = match decimal_piece(&parts, 2) {
                Some(v) => v,
                None => return Err(FilterError::InvalidLon1),
            };
            let lat2 = match decimal_piece(&parts, 3) {
                Some(v) => v,
                None => return Err(FilterError::InvalidLat2),
            };
            let lon2 = match decimal_piece(&parts, 4) {
                Some(v) => v,
                None => return Err(FilterError::InvalidLon2),
            };
            return Ok(ClientFilter::Box { lat1, lon1, lat2, lon2 });
        }
        if head_is(&s, 'p', '/') {
            let rest = slice_vec(&s, 2, s.len());
            return Ok(ClientFilter::Prefix(string_of(rest.as_slice())));
        }
        if head_is(&s, 't', '/') {
            let rest = slice_vec(&s, 2, s.len());
            return Ok(ClientFilter::Type(string_of(rest.as_slice())));
        }
        if head_is(&s, 'o', '/') {
            let rest = slice_vec(&s, 2, s.len());
            return Ok(ClientFilter::Object(string_of(rest.as_slice())));
        }
        Err(FilterError::UnknownType)
    }
}

impl std::str::FromStr for ClientFilter {
    type Err = FilterError;

    fn from_str(s: &str) -> Result<ClientFilter, FilterError> {
        ClientFilter::from_token(s)
    }
}

/// The payload of `packet`, the text after its first `:`, begins with `t`.
pub open spec fn type_matches(packet: Seq<char>, t: Seq<char>) -> bool {
    match index_of(packet, ':') {
        Some(c) => starts_with(packet.subrange(c + 1, packet.len() as int), t),
        None => false,
    }
}

/// `p` (in units of 1/6000 degree) lies between `a` and `b` (in millionths
/// of a degree), in whichever order they come.
pub open spec fn between(p: int, a: int, b: int) -> bool {
    let lo = if a <= b { a } else { b };
    let hi = if a <= b { b } else { a };
    lo * 3 <= p * 500 && p * 500 <= hi * 3
}

/// `p` lies in the box spanned by two corners.
pub open spec fn in_box(p: Position, lat1: i64, lon1: i64, lat2: i64, lon2: i64) -> bool {
    between(p.lat as int, lat1 as int, lat2 as int) && between(p.lon as int, lon1 as int, lon2 as int)
}

/// `f` accepts `packet`. An area filter accepts a packet with a position
/// when `within`, asked for the centre, the radius and the position,
/// answered `true`.
pub open spec fn filter_accepts<F: Fn(i64, i64, i64, Position) -> bool>(
    f: FilterView,
    packet: Seq<char>,
    within: F,
) -> bool {
    match f {
        FilterView::All => true,
        FilterView::Area { lat, lon, radius_km } => match position_of(packet) {
            Some(p) => within.ensures((lat, lon, radius_km, p), true),
            None => false,
        },
        FilterView::Box { lat1, lon1, lat2, lon2 } => match position_of(packet) {
            Some(p) => in_box(p, lat1, lon1, lat2, lon2),
            None => false,
        },
        FilterView::Prefix(t) => starts_with(upper_of(packet), upper_of(t)),
        FilterView::Type(t) => type_matches(packet, t),
        FilterView::Object(t) => contains(packet, t),
    }
}

/// `f` refuses `packet`. An area filter refuses a packet without a
/// position, and one with a position when `within` answered `false`.
pub open spec fn filter_refuses<F: Fn(i64, i64, i64, Position) -> bool>(
    f: FilterView,
    packet: Seq<char>,
    within: F,
) -> bool {
    match f {
        FilterView::Area { lat, lon, radius_km } => match position_of(packet) {
            Some(p) => within.ensures((lat, lon, radius_km, p), false),
            None => true,
        },
        _ => !filter_accepts(f, packet, within),
    }
}

fn between_exec(p: i64, a: i64, b: i64) -> (r: bool)
    ensures
        r == between(p as int, a as int, b as int),
{
    let lo: i128 = if a <= b { a as i128 } else { b as i128 };
    let hi: i128 = if a <= b { b as i128 } else { a as i128 };
    let q: i128 = (p as i128) * 500;
    lo * 3 <= q && q <= hi * 3
}

/// Whether the payload of `packet` begins with `t`.
pub fn type_matches_exec(packet: &str, t: &str) -> (r: bool)
    ensures
        r == type_matches(packet@, t@),
{
    let p = char_vec(packet);
    let tv = char_vec(t);
    match find_char(&p, ':') {
        Some(c) => {
            let payload = slice_vec(&p, c + 1, p.len());
            starts_with_exec(&payload, &tv)
        },
        None => false,
    }
}

impl ClientFilter {
    /// Whether this filter passes `packet`. An area filter asks `within`
    /// whether the packet's position lies within the radius of the centre.
    pub fn matches<F: Fn(i64, i64, i64, Position) -> bool>(&self, packet: &str, within: &F) -> (r:
        bool)
        requires
            forall|lat: i64, lon: i64, radius_km: i64, p: Position|
                within.requires((lat, lon, radius_km, p)),
        ensures
            r ==> filter_accepts(self@, packet@, *within),
            !r ==> filter_refuses(self@, packet@, *within),
    {
        match self {
            ClientFilter::All => true,
            ClientFilter::Area { lat, lon, radius_km } => match parse_aprs_lat_lon(packet) {
                Some(p) => within(*lat, *lon, *radius_km, p),
                None => false,
            },
            ClientFilter::Box { lat1, lon1, lat2, lon2 } => match parse_aprs_lat_lon(packet) {
                Some(p) => between_exec(p.lat, *lat1, *lat2) && between_exec(p.lon, *lon1, *lon2),
                None => false,
            },
            ClientFilter::Prefix(prefix) => {
                let up_packet = uppercase(packet);
                let up_prefix = uppercase(prefix.as_str());
                starts_with_str(up_packet.as_str(), up_prefix.as_str())
            },
            ClientFilter::Type(t) => type_matches_exec(packet, t.as_str()),
            ClientFilter::Object(o) => {
                let p = char_vec(packet);
                let ov = char_vec(o.as_str());
                contains_exec(&p, &ov)
            },
        }
    }
}

/// The views of a list of filters.
pub open spec fn filters_view(fs: Seq<ClientFilter>) -> Seq<FilterView> {
    fs.map_values(|f: ClientFilter| f@)
}

impl ClientFilter {
    /// A copy of this filter.
    pub fn copy(&self) -> (r: ClientFilter)
        ensures
            r@ == self@,
    {
        match self {
            ClientFilter::Area { lat, lon, radius_km } => ClientFilter::Area {
                lat: *lat,
                lon: *lon,
                radius_km: *radius_km,
            },
            ClientFilter::Box { lat1, lon1, lat2, lon2 } => ClientFilter::Box {
                lat1: *lat1,
                lon1: *lon1,
                lat2: *lat2,
                lon2: *lon2,
            },
            ClientFilter::Prefix(s) => ClientFilter::Prefix(s.clone()),
            ClientFilter::Type(s) => ClientFilter::Type(s.clone()),
            ClientFilter::Object(s) => ClientFilter::Object(s.clone()),
            ClientFilter::All => ClientFilter::All,
        }
    }
}

/// A copy of a list of filters.
pub fn copy_filters(fs: &Vec<ClientFilter>) -> (r: Vec<ClientFilter>)
    ensures
        filters_view(r@) == filters_view(fs@),
{
    let mut out: Vec<ClientFilter> = Vec::new();
    let mut i: usize = 0;
    while i < fs.len()
        invariant
            i <= fs@.len(),
            out@.len() == i,
            forall|j: int| 0 <= j < i ==> #[trigger] out@[j]@ == fs@[j]@,
        decreases fs.len() - i,
    {
        out.push(fs[i].copy());
        i = i + 1;
    }
    assert(filters_view(out@) =~= filters_view(fs@));
    out
}

/// Whether some filter of `fs` passes `packet`.
pub fn any_matches<F: Fn(i64, i64, i64, Position) -> bool>(
    fs: &Vec<ClientFilter>,
    packet: &str,
    within: &F,
) -> (r: bool)
    requires
        forall|lat: i64, lon: i64, radius_km: i64, p: Position|
            within.requires((lat, lon, radius_km, p)),
    ensures
        r ==> exists|i: int| 0 <= i < fs@.len() && filter_accepts(fs@[i]@, packet@, *within),
        !r ==> forall|i: int| 0 <= i < fs@.len() ==> filter_refuses(fs@[i]@, packet@, *within),
{
    let mut i: usize = 0;
    while i < fs.len()
        invariant
            i <= fs@.len(),
            forall|lat: i64, lon: i64, radius_km: i64, p: Position|
                within.requires((lat, lon, radius_km, p)),
            forall|j: int| 0 <= j < i ==> filter_refuses(fs@[j]@, packet@, *within),
        decreases fs.len() - i,
    {
        if fs[i].matches(packet, within) {
            return true;
        }
        i = i + 1;
    }
    false
}

} // verus!
