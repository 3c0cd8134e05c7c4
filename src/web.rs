//! Snapshots of the hub for the status dashboard.
use vstd::prelude::*;
use crate::filter::{copy_filters, filters_view, ClientFilter, FilterView};
use crate::hub::Hub;
use crate::packet::digit_char;
use crate::session::opt_filters_view;
use crate::text::{decimal_text, opt_view, push_decimal, push_str, string_of};

verus! {

/// The dashboard's summary of the server.
pub struct Status {
    pub server_name: String,
    pub uptime: u64,
    pub clients: usize,
}

/// The dashboard's line about one client.
pub struct ClientInfo {
    pub id: usize,
    pub callsign: Option<String>,
    pub filter: Option<Vec<ClientFilter>>,
}

/// The summary of the hub at time `now`.
pub fn status_of(hub: &Hub, server_name: &str, now: u64) -> (r: Status)
    ensures
        r.server_name@ == server_name@,
        r.uptime == if now >= hub.start_time_spec() {
            (now - hub.start_time_spec()) as u64
        } else {
            0
        },
        r.clients == hub.clients().len(),
{
    Status {
        server_name: server_name.to_string(),
        uptime: hub.uptime(now),
        clients: hub.client_count(),
    }
}

/// One line per registered client, by increasing id.
pub fn client_infos(hub: &Hub) -> (r: Vec<ClientInfo>)
    ensures
        r@.len() == hub.clients().len(),
        forall|i: int|
            0 <= i < r@.len() ==> {
                &&& (#[trigger] r@[i]).id == hub.clients()[i].id
                &&& opt_view(r@[i].callsign) == opt_view(hub.clients()[i].callsign)
                &&& opt_filters_view(r@[i].filter) == opt_filters_view(hub.clients()[i].filter)
            },
{
    let mut out: Vec<ClientInfo> = Vec::new();
    let mut i: usize = 0;
    while i < hub.client_count()
        invariant
            i <= hub.clients().len(),
            out@.len() == i,
            forall|j: int|
                0 <= j < i ==> {
                    &&& (#[trigger] out@[j]).id == hub.clients()[j].id
                    &&& opt_view(out@[j].callsign) == opt_view(hub.clients()[j].callsign)
                    &&& opt_filters_view(out@[j].filter) == opt_filters_view(
                        hub.clients()[j].filter,
                    )
                },
        decreases hub.clients().len() - i,
    {
        let c = hub.client_at(i);
        let callsign = match &c.callsign {
            Some(s) => Some(s.clone()),
            None => None,
        };
        let filter = match &c.filter {
            Some(fs) => Some(copy_filters(fs)),
            None => None,
        };
        out.push(ClientInfo { id: c.id, callsign, filter });
        i = i + 1;
    }
    out
}

/// Six digits of `f`, with leading zeros.
pub open spec fn six_digits(f: int) -> Seq<char> {
    seq![
        digit_char((f / 100000) % 10),
        digit_char((f / 10000) % 10),
        digit_char((f / 1000) % 10),
        digit_char((f / 100) % 10),
        digit_char((f / 10) % 10),
        digit_char(f % 10),
    ]
}

/// A value in millionths written with six decimals.
pub open spec fn millionths_text(v: i64) -> Seq<char> {
    let a: int = if v < 0 { -(v as int) } else { v as int };
    (if v < 0 { "-"@ } else { ""@ }) + decimal_text((a / 1_000_000) as nat) + "."@ + six_digits(
        a % 1_000_000,
    )
}

/// A filter written back as a token.
pub open spec fn filter_text(f: FilterView) -> Seq<char> {
    match f {
        FilterView::Area { lat, lon, radius_km } => "r/"@ + millionths_text(lat) + "/"@
            + millionths_text(lon) + "/"@ + millionths_text(radius_km),
        FilterView::Box { lat1, lon1, lat2, lon2 } => "a/"@ + millionths_text(lat1) + "/"@
            + millionths_text(lon1) + "/"@ + millionths_text(lat2) + "/"@ + millionths_text(
            lon2,
        ),
        FilterView::Prefix(t) => "p/"@ + t,
        FilterView::Type(t) => "t/"@ + t,
        FilterView::Object(t) => "o/"@ + t,
        FilterView::All => "all"@,
    }
}

/// The tokens of `fs` joined by `, `.
pub open spec fn summary_text(fs: Seq<FilterView>) -> Seq<char>
    decreases fs.len(),
{
    if fs.len() == 0 {
        Seq::empty()
    } else if fs.len() == 1 {
        filter_text(fs[0])
    } else {
        summary_text(fs.drop_last()) + ", "@ + filter_text(fs.last())
    }
}

fn push_millionths(v: &mut Vec<char>, x: i64)
    ensures
        final(v)@ == old(v)@ + millionths_text(x),
{
    let a: u64 = if x < 0 { (0 - (x as i128)) as u64 } else { x as u64 };
    let ghost start = v@;
    if x < 0 {
        push_str(v, "-");
    } else {
        push_str(v, "");
    }
    push_decimal(v, a / 1_000_000);
    push_str(v, ".");
    let f = a % 1_000_000;
    v.push(((f / 100000 % 10) as u8 + 48) as char);
    v.push(((f / 10000 % 10) as u8 + 48) as char);
    v.push(((f / 1000 % 10) as u8 + 48) as char);
    v.push(((f / 100 % 10) as u8 + 48) as char);
    v.push(((f / 10 % 10) as u8 + 48) as char);
    v.push(((f % 10) as u8 + 48) as char);
    assert(v@ =~= start + millionths_text(x));
}

impl ClientFilter {
    /// This filter written back as a token.
    pub fn to_token(&self) -> (r: String)
        ensures
            r@ == filter_text(self@),
    {
        let mut v: Vec<char> = Vec::new();
        match self {
            ClientFilter::Area { lat, lon, radius_km } => {
                push_str(&mut v, "r/");
                push_millionths(&mut v, *lat);
                push_str(&mut v, "/");
                push_millionths(&mut v, *lon);
                push_str(&mut v, "/");
                push_millionths(&mut v, *radius_km);
            },
            ClientFilter::Box { lat1, lon1, lat2, lon2 } => {
                push_str(&mut v, "a/");
                push_millionths(&mut v, *lat1);
                push_str(&mut v, "/");
                push_millionths(&mut v, *lon1);
                push_str(&mut v, "/");
                push_millionths(&mut v, *lat2);
                push_str(&mut v, "/");
                push_millionths(&mut v, *lon2);
            },
            ClientFilter::Prefix(t) => {
                push_str(&mut v, "p/");
                push_str(&mut v, t.as_str());
            },
            ClientFilter::Type(t) => {
                push_str(&mut v, "t/");
                push_str(&mut v, t.as_str());
            },
            ClientFilter::Object(t) => {
                push_str(&mut v, "o/");
                push_str(&mut v, t.as_str());
            },
            ClientFilter::All => {
                push_str(&mut v, "all");
            },
        }
        assert(v@ =~= filter_text(self@));
        string_of(v.as_slice())
    }
}

/// The filters of a client written as tokens joined by `, `; empty where
/// it has none.
pub fn filter_summary(filters: &Option<Vec<ClientFilter>>) -> (r: String)
    ensures
        r@ == match opt_filters_view(*filters) {
            Some(fs) => summary_text(fs),
            None => Seq::empty(),
        },
{
    match filters {
        Some(fs) => {
            let mut v: Vec<char> = Vec::new();
            let mut i: usize = 0;
            let ghost fv = filters_view(fs@);
            while i < fs.len()
                invariant
                    i <= fs@.len(),
                    fv == filters_view(fs@),
                    v@ == summary_text(fv.subrange(0, i as int)),
                decreases fs.len() - i,
            {
                assert(fv.subrange(0, i + 1).drop_last() =~= fv.subrange(0, i as int));
                if i > 0 {
                    push_str(&mut v, ", ");
                } else {
                    assert(fv.subrange(0, 1)[0] == fv[0]);
                }
                let t = fs[i].to_token();
                push_str(&mut v, t.as_str());
                assert(fv[i as int] == fs@[i as int]@);
                assert(v@ =~= summary_text(fv.subrange(0, i + 1)));
                i = i + 1;
            }
            assert(fv.subrange(0, fv.len() as int) =~= fv);
            string_of(v.as_slice())
        },
        None => String::new(),
    }
}

} // verus!
