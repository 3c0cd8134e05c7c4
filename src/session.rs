//! The decisions of a client session: login, filter commands, statistics
//! and packet ingestion.
use vstd::prelude::*;
use vstd::utf8::encode_utf8;
use tokio::sync::mpsc::UnboundedSender;
use crate::client::{sat_add, Client};
use crate::filter::{any_matches, copy_filters, filters_view, FilterError};
use crate::decimal::{all_digits, digits_value};
use crate::dedup::{cache_step, DupeCache};
use crate::filter::{error_text, filter_accepts, filter_refuses, parse_filter, ClientFilter, FilterView};
use crate::hub::{ids_except, rx_counted, tx_counted, Hub};
use crate::packet::{
    extract_message_destination, message_destination, aprs_passcode, ascii_upper, fingerprint, passcode_of, seahash_of, upper_ascii,
    Position,
};
use crate::text::{
    char_vec, lower_of, opt_view, same_text, lowercase, push_decimal, push_str, split_words, starts_with,
    starts_with_str, string_of, trim_str, trimmed, words, decimal_text,
};

verus! {

/// Fingerprints a session remembers for its own duplicate suppression.
pub const SESSION_DUPE_CACHE_SIZE: usize = 100;

/// The value of an unsigned 16-bit decimal as `str::parse::<u16>` reads
/// it: an optional `+`, then one digit at least, at most 65535.
pub open spec fn u16_value(s: Seq<char>) -> Option<u16> {
    let d = if s.len() > 0 && s[0] == '+' { s.drop_first() } else { s };
    if d.len() >= 1 && all_digits(d) && digits_value(d) <= 65535 {
        Some(digits_value(d) as u16)
    } else {
        None
    }
}

proof fn lemma_digits_nonneg(s: Seq<char>)
    requires
        all_digits(s),
    ensures
        digits_value(s) >= 0,
    decreases s.len(),
{
    if s.len() > 0 {
        lemma_digits_nonneg(s.drop_last());
    }
}

/// Reads an unsigned 16-bit decimal.
pub fn parse_u16(s: &str) -> (r: Option<u16>)
    ensures
        r == u16_value(s@),
{
    let v = char_vec(s);
    let start: usize = if v.len() > 0 && v[0] == '+' { 1 } else { 0 };
    let ghost d = if s@.len() > 0 && s@[0] == '+' { s@.drop_first() } else { s@ };
    assert(d =~= v@.subrange(start as int, v@.len() as int));
    if v.len() <= start {
        return None;
    }
    let mut acc: u64 = 0;
    let mut i: usize = start;
    assert(v@.subrange(start as int, start as int) =~= Seq::<char>::empty());
    while i < v.len()
        invariant
            start <= i <= v@.len(),
            v@ == s@,
            d == (if s@.len() > 0 && s@[0] == '+' { s@.drop_first() } else { s@ }),
            d == v@.subrange(start as int, v@.len() as int),
            all_digits(v@.subrange(start as int, i as int)),
            acc == if digits_value(v@.subrange(start as int, i as int)) > 65535 {
                65536
            } else {
                digits_value(v@.subrange(start as int, i as int))
            },
        decreases v.len() - i,
    {
        let c = v[i];
        if !('0' <= c && c <= '9') {
            assert(d[i - start] == c);
            return None;
        }
        let ghost pre = v@.subrange(start as int, i as int);
        let ghost next = v@.subrange(start as int, i + 1);
        assert(next.drop_last() =~= pre);
        proof {
            lemma_digits_nonneg(pre);
        }
        let dv = ((c as u32) - 48) as u64;
        acc = acc * 10 + dv;
        if acc > 65535 {
            acc = 65536;
        }
        i = i + 1;
    }
    assert(v@.subrange(start as int, v@.len() as int) == d);
    if acc > 65535 {
        None
    } else {
        Some(acc as u16)
    }
}

/// `w` is `kw` up to the case of ASCII letters; `kw` is upper-case.
pub open spec fn is_keyword(w: Seq<char>, kw: Seq<char>) -> bool {
    upper_ascii(w) == kw
}

/// The callsign and passcode a login line gives: the word after the last
/// `user` and the word after the last `pass` (either keyword in any case;
/// a keyword that ends the line gives nothing). Other words are skipped.
pub open spec fn scan_login(
    ws: Seq<Seq<char>>,
    i: int,
    callsign: Option<Seq<char>>,
    pass: Option<Seq<char>>,
) -> (Option<Seq<char>>, Option<Seq<char>>)
    decreases ws.len() + 1 - i,
{
    if i < 0 || i >= ws.len() {
        (callsign, pass)
    } else {
        let next = if i + 1 < ws.len() { Some(ws[i + 1]) } else { None };
        if is_keyword(ws[i], seq!['U', 'S', 'E', 'R']) {
            scan_login(ws, i + 2, next, pass)
        } else if is_keyword(ws[i], seq!['P', 'A', 'S', 'S']) {
            scan_login(ws, i + 2, callsign, next)
        } else {
            scan_login(ws, i + 1, callsign, pass)
        }
    }
}

/// How a login line is answered.
#[derive(Clone, Copy, Debug, PartialEq, Eq, Structural)]
pub enum LoginVerdict {
    /// Callsign and passcode agree.
    Accepted,
    /// The passcode is not a 16-bit number or not the callsign's.
    BadPasscode,
    /// The callsign or the passcode is missing.
    BadLogin,
}

/// The verdict on a login line.
pub open spec fn login_verdict(line: Seq<char>) -> LoginVerdict {
    match scan_login(words(line), 0, None, None) {
        (Some(c), Some(p)) => match u16_value(p) {
            Some(v) => if passcode_of(c) == v {
                LoginVerdict::Accepted
            } else {
                LoginVerdict::BadPasscode
            },
            None => LoginVerdict::BadPasscode,
        },
        _ => LoginVerdict::BadLogin,
    }
}

fn keyword_exec(w: &str, a: char, b: char, c: char, d: char) -> (r: bool)
    requires
        'A' <= a <= 'Z' && 'A' <= b <= 'Z' && 'A' <= c <= 'Z' && 'A' <= d <= 'Z',
    ensures
        r == is_keyword(w@, seq![a, b, c, d]),
{
    let v = char_vec(w);
    if v.len() != 4 {
        assert(upper_ascii(w@).len() != 4);
        return false;
    }
    let r = up_char(v[0]) == a && up_char(v[1]) == b && up_char(v[2]) == c && up_char(v[3]) == d;
    if r {
        assert(upper_ascii(w@) =~= seq![a, b, c, d]);
    } else {
        assert(upper_ascii(w@)[0] == ascii_upper(v@[0]));
        assert(upper_ascii(w@)[1] == ascii_upper(v@[1]));
        assert(upper_ascii(w@)[2] == ascii_upper(v@[2]));
        assert(upper_ascii(w@)[3] == ascii_upper(v@[3]));
    }
    r
}

fn up_char(c: char) -> (r: char)
    ensures
        r == ascii_upper(c),
{
    if 'a' <= c && c <= 'z' {
        ((c as u8) - 32) as char
    } else {
        c
    }
}

/// The callsign and passcode words of a login line.
pub fn login_fields(line: &str) -> (r: (Option<String>, Option<String>))
    ensures
        (opt_view(r.0), opt_view(r.1)) == scan_login(words(line@), 0, None, None),
{
    let ws = split_words(line);
    let ghost wv = words(line@);
    let mut callsign: Option<String> = None;
    let mut pass: Option<String> = None;
    let mut i: usize = 0;
    while i < ws.len()
        invariant
            i <= ws@.len(),
            ws@.len() == wv.len(),
            forall|j: int| 0 <= j < ws@.len() ==> #[trigger] ws@[j]@ == wv[j],
            scan_login(wv, 0, None, None) == scan_login(
                wv,
                i as int,
                opt_view(callsign),
                opt_view(pass),
            ),
        decreases ws.len() - i,
    {
        let has_next = i + 1 < ws.len();
        let next: Option<String> = if has_next {
            Some(ws[i + 1].clone())
        } else {
            None
        };
        let after: usize = if has_next {
            i + 2
        } else {
            ws.len()
        };
        let ghost cs0 = opt_view(callsign);
        let ghost ps0 = opt_view(pass);
        let ghost nx = opt_view(next);
        assert(nx == if i + 1 < wv.len() { Some(wv[i + 1]) } else { None });
        proof {
            if !has_next {
                assert(scan_login(wv, i + 2, nx, ps0) == (nx, ps0));
                assert(scan_login(wv, i + 2, cs0, nx) == (cs0, nx));
                assert(scan_login(wv, after as int, nx, ps0) == (nx, ps0));
                assert(scan_login(wv, after as int, cs0, nx) == (cs0, nx));
            }
        }
        if keyword_exec(ws[i].as_str(), 'U', 'S', 'E', 'R') {
            callsign = next;
            i = after;
        } else if keyword_exec(ws[i].as_str(), 'P', 'A', 'S', 'S') {
            pass = next;
            i = after;
        } else {
            i = i + 1;
        }
    }
    (callsign, pass)
}

/// The verdict on a login line.
pub fn check_login(line: &str) -> (r: (LoginVerdict, Option<String>))
    ensures
        r.0 == login_verdict(line@),
        r.0 == LoginVerdict::Accepted ==> (r.1 matches Some(c) && scan_login(
            words(line@),
            0,
            None,
            None,
        ).0 == Some(c@)),
{
    let (callsign, pass) = login_fields(line);
    match (callsign, pass) {
        (Some(c), Some(p)) => match parse_u16(p.as_str()) {
            Some(v) => {
                if aprs_passcode(c.as_str()) == v {
                    (LoginVerdict::Accepted, Some(c))
                } else {
                    (LoginVerdict::BadPasscode, None)
                }
            },
            None => (LoginVerdict::BadPasscode, None),
        },
        _ => (LoginVerdict::BadLogin, None),
    }
}

/// Where a client session stands.
#[derive(Clone, Copy, Debug, PartialEq, Eq, Structural)]
pub enum SessionState {
    /// Waiting for the login line.
    AwaitLogin,
    /// Logged in and registered in the hub.
    LoggedIn,
    /// Finished; the connection is to be closed.
    Closed,
}

/// What a line read in a logged-in session led to.
pub struct LineOutcome {
    /// Lines to write back to the client.
    pub replies: Vec<String>,
    /// The clients the line was handed to, where it was relayed.
    pub fanout: Option<Vec<usize>>,
    /// The addressee, where the line is a message packet.
    pub destination: Option<String>,
}

/// The state of one client connection: its login, its filters, its own
/// duplicate cache and its counters.
pub struct Session {
    state: SessionState,
    id: usize,
    callsign: Option<String>,
    filters: Option<Vec<ClientFilter>>,
    dupes: DupeCache,
    start_time: u64,
    packets_received: u64,
    packets_dropped: u64,
    packets_duplicated: u64,
}

/// The results of parsing filter tokens, in order.
pub open spec fn parse_all(tokens: Seq<Seq<char>>) -> Seq<Result<FilterView, FilterError>> {
    tokens.map_values(|t: Seq<char>| parse_filter(t))
}

/// The filters among `results`, in order.
pub open spec fn accepted(results: Seq<Result<FilterView, FilterError>>) -> Seq<FilterView>
    decreases results.len(),
{
    if results.len() == 0 {
        Seq::empty()
    } else {
        let rest = accepted(results.drop_last());
        match results.last() {
            Ok(f) => rest.push(f),
            Err(_) => rest,
        }
    }
}

/// The replies `# invalid filter: REASON` for the errors among `results`,
/// in order.
pub open spec fn error_replies(results: Seq<Result<FilterView, FilterError>>) -> Seq<Seq<char>>
    decreases results.len(),
{
    if results.len() == 0 {
        Seq::empty()
    } else {
        let rest = error_replies(results.drop_last());
        match results.last() {
            Ok(_) => rest,
            Err(e) => rest.push("# invalid filter: "@ + error_text(e) + "\n"@),
        }
    }
}

/// The filter tokens of a command line `# filter TOKENS`, trimmed.
pub open spec fn filter_tokens(t: Seq<char>) -> Seq<Seq<char>> {
    if t.len() >= 8 {
        words(t.subrange(8, t.len() as int))
    } else {
        Seq::empty()
    }
}

/// What a line from a logged-in client is.
#[derive(Clone, Copy, Debug, PartialEq, Eq, Structural)]
pub enum LineKind {
    /// `# filter TOKENS`.
    FilterCommand,
    /// `# stats`.
    Stats,
    /// Anything else.
    Packet,
}

/// The kind of a line, from its trimmed text lower-cased: a filter command
/// starts with `# filter `, a request for statistics is `# stats`.
pub open spec fn line_kind(lowered: Seq<char>) -> LineKind {
    if starts_with(lowered, "# filter "@) {
        LineKind::FilterCommand
    } else if lowered == "# stats"@ {
        LineKind::Stats
    } else {
        LineKind::Packet
    }
}

/// A trimmed line is a filter command.
pub open spec fn is_filter_command(t: Seq<char>) -> bool {
    line_kind(lower_of(t)) == LineKind::FilterCommand
}

/// A trimmed line asks for statistics.
pub open spec fn is_stats_command(t: Seq<char>) -> bool {
    line_kind(lower_of(t)) == LineKind::Stats
}

/// The kind of a line whose trimmed text, lower-cased, is `lowered`.
pub fn classify_line(lowered: &str) -> (r: LineKind)
    ensures
        r == line_kind(lowered@),
{
    if starts_with_str(lowered, "# filter ") {
        LineKind::FilterCommand
    } else if same_text(lowered, "# stats") {
        LineKind::Stats
    } else {
        LineKind::Packet
    }
}

/// The statistics line.
pub open spec fn stats_text(uptime: u64, received: u64, dropped: u64, duplicated: u64) -> Seq<
    char,
> {
    "# stats: uptime="@ + decimal_text(uptime as nat) + "s received="@ + decimal_text(
        received as nat,
    ) + " dropped="@ + decimal_text(dropped as nat) + " duplicated="@ + decimal_text(
        duplicated as nat,
    ) + "\n"@
}

/// The client views in `new` are those in `old`, but the client `id`,
/// which has callsign `callsign` and filters `fs`.
pub open spec fn filters_stored(
    old: Seq<Client>,
    new: Seq<Client>,
    id: usize,
    callsign: Option<Seq<char>>,
    fs: Seq<FilterView>,
) -> bool {
    &&& new.len() == old.len()
    &&& forall|i: int|
        0 <= i < old.len() ==> {
            &&& #[trigger] new[i].id == old[i].id
            &&& old[i].id != id ==> new[i] == old[i]
            &&& old[i].id == id ==> {
                &&& opt_view(new[i].callsign) == callsign
                &&& new[i].filter matches Some(v) && filters_view(v@) == fs
                &&& new[i].sink == old[i].sink
                &&& new[i].connect_time == old[i].connect_time
                &&& new[i].packets_rx == old[i].packets_rx
                &&& new[i].packets_tx == old[i].packets_tx
                &&& new[i].bytes_rx == old[i].bytes_rx
                &&& new[i].bytes_tx == old[i].bytes_tx
            }
        }
}

/// The views of optional filters.
pub open spec fn opt_filters_view(o: Option<Vec<ClientFilter>>) -> Option<Seq<FilterView>> {
    match o {
        Some(v) => Some(filters_view(v@)),
        None => None,
    }
}

impl Session {
    pub closed spec fn state(&self) -> SessionState {
        self.state
    }

    /// The hub id of the client, once logged in.
    pub closed spec fn id_spec(&self) -> usize {
        self.id
    }

    pub closed spec fn callsign_spec(&self) -> Option<Seq<char>> {
        opt_view(self.callsign)
    }

    pub closed spec fn filters_spec(&self) -> Option<Seq<FilterView>> {
        opt_filters_view(self.filters)
    }

    /// The fingerprints in the session's duplicate cache, oldest first.
    pub closed spec fn dupe_order(&self) -> Seq<u64> {
        self.dupes.order()
    }

    pub closed spec fn start_spec(&self) -> u64 {
        self.start_time
    }

    /// Packets received, dropped by the filters, and dropped as duplicates.
    pub closed spec fn counters(&self) -> (u64, u64, u64) {
        (self.packets_received, self.packets_dropped, self.packets_duplicated)
    }

    /// The duplicate cache holds at most `SESSION_DUPE_CACHE_SIZE`
    /// fingerprints; a logged-in session has a client id.
    pub closed spec fn wf(&self) -> bool {
        &&& self.dupes.wf()
        &&& self.dupes.cap() == SESSION_DUPE_CACHE_SIZE
        &&& self.state == SessionState::LoggedIn ==> self.id >= 1
    }

    /// A session that waits for its login line, started at `start_time`.
    pub fn new(start_time: u64) -> (r: Session)
        ensures
            r.wf(),
            r.state() == SessionState::AwaitLogin,
            r.callsign_spec() is None,
            r.filters_spec() is None,
            r.dupe_order() == Seq::<u64>::empty(),
            r.start_spec() == start_time,
            r.counters() == (0u64, 0u64, 0u64),
    {
        Session {
            state: SessionState::AwaitLogin,
            id: 0,
            callsign: None,
            filters: None,
            dupes: DupeCache::new(SESSION_DUPE_CACHE_SIZE),
            start_time,
            packets_received: 0,
            packets_dropped: 0,
            packets_duplicated: 0,
        }
    }

    /// Where the session stands.
    pub fn current_state(&self) -> (r: SessionState)
        ensures
            r == self.state(),
    {
        self.state
    }

    /// The hub id of the client (0 before login).
    pub fn id(&self) -> (r: usize)
        ensures
            r == self.id_spec(),
    {
        self.id
    }

    /// Packets received.
    pub fn packets_received(&self) -> (r: u64)
        ensures
            r == self.counters().0,
    {
        self.packets_received
    }

    /// Packets that no filter of the session passed.
    pub fn packets_dropped(&self) -> (r: u64)
        ensures
            r == self.counters().1,
    {
        self.packets_dropped
    }

    /// Packets dropped as duplicates.
    pub fn packets_duplicated(&self) -> (r: u64)
        ensures
            r == self.counters().2,
    {
        self.packets_duplicated
    }

    /// Answers the login line. On success the client is registered in the
    /// hub with queue `sink` and callsign, and the session is logged in;
    /// otherwise the hub is left alone and the session closes.
    pub fn on_login(&mut self, hub: &mut Hub, line: &str, sink: UnboundedSender<String>, now: u64) -> (r:
        String)
        requires
            old(self).wf(),
            old(self).state() == SessionState::AwaitLogin,
            old(hub).wf(),
            old(hub).next_id_spec() < usize::MAX,
        ensures
            final(self).wf(),
            final(hub).wf(),
            final(self).counters() == old(self).counters(),
            final(self).dupe_order() == old(self).dupe_order(),
            final(self).filters_spec() == old(self).filters_spec(),
            login_verdict(line@) == LoginVerdict::Accepted ==> {
                &&& r@ == "# login ok\n"@
                &&& final(self).state() == SessionState::LoggedIn
                &&& final(self).id_spec() == old(hub).next_id_spec()
                &&& final(self).callsign_spec() == scan_login(words(line@), 0, None, None).0
                &&& final(hub).clients().len() == old(hub).clients().len() + 1
                &&& final(hub).clients().drop_last() == old(hub).clients()
                &&& final(hub).clients().last().id == old(hub).next_id_spec()
                &&& final(hub).clients().last().sink == sink
                &&& opt_view(final(hub).clients().last().callsign) == final(self).callsign_spec()
                &&& final(hub).clients().last().filter is None
                &&& final(hub).clients().last().connect_time == now
                &&& final(hub).clients().last().packets_rx == 0
                &&& final(hub).clients().last().packets_tx == 0
                &&& final(hub).clients().last().bytes_rx == 0
                &&& final(hub).clients().last().bytes_tx == 0
            },
            login_verdict(line@) != LoginVerdict::Accepted ==> {
                &&& final(self).state() == SessionState::Closed
                &&& *final(hub) == *old(hub)
                &&& r@ == if login_verdict(line@) == LoginVerdict::BadPasscode {
                    "# invalid passcode\n"@
                } else {
                    "# invalid login\n"@
                }
            },
    {
        let (verdict, callsign) = check_login(line);
        match verdict {
            LoginVerdict::Accepted => {
                let mut client = Client::new(0, sink, now);
                let cs = match &callsign {
                    Some(c) => Some(c.clone()),
                    None => None,
                };
                client.callsign = cs;
                let id = hub.add_client(client);
                self.id = id;
                self.callsign = callsign;
                self.state = SessionState::LoggedIn;
                assert(final(hub).clients().drop_last() =~= old(hub).clients());
                "# login ok\n".to_string()
            },
            LoginVerdict::BadPasscode => {
                self.state = SessionState::Closed;
                "# invalid passcode\n".to_string()
            },
            LoginVerdict::BadLogin => {
                self.state = SessionState::Closed;
                "# invalid login\n".to_string()
            },
        }
    }

    /// Ends the session: a logged-in client is removed from the hub.
    pub fn on_close(&mut self, hub: &mut Hub)
        requires
            old(self).wf(),
            old(hub).wf(),
        ensures
            final(self).wf(),
            final(hub).wf(),
            final(self).state() == SessionState::Closed,
            old(self).state() == SessionState::LoggedIn ==> crate::hub::removed(
                old(hub).clients(),
                old(self).id_spec(),
                final(hub).clients(),
            ),
            old(self).state() != SessionState::LoggedIn ==> *final(hub) == *old(hub),
    {
        if self.state == SessionState::LoggedIn {
            hub.remove_client(self.id);
        }
        self.state = SessionState::Closed;
    }
}

/// The texts of a list of strings.
pub open spec fn texts(v: Seq<String>) -> Seq<Seq<char>> {
    v.map_values(|s: String| s@)
}

/// The replies to a filter command with trimmed text `t`: one per refused
/// token, then `# filter set` where some token was a filter.
pub open spec fn filter_command_replies(t: Seq<char>) -> Seq<Seq<char>> {
    let results = parse_all(filter_tokens(t));
    if accepted(results).len() > 0 {
        error_replies(results).push("# filter set\n"@)
    } else {
        error_replies(results)
    }
}

/// The effect of a filter command with trimmed text `t`: where some token
/// was a filter, those filters replace the session's and the hub's record
/// of the client; otherwise nothing changes but the replies.
pub open spec fn filter_command_effect(
    old_s: Session,
    new_s: Session,
    old_h: Hub,
    new_h: Hub,
    t: Seq<char>,
) -> bool {
    let fs = accepted(parse_all(filter_tokens(t)));
    &&& new_s.state() == old_s.state()
    &&& new_s.id_spec() == old_s.id_spec()
    &&& new_s.callsign_spec() == old_s.callsign_spec()
    &&& new_s.dupe_order() == old_s.dupe_order()
    &&& new_s.counters() == old_s.counters()
    &&& new_s.start_spec() == old_s.start_spec()
    &&& new_s.filters_spec() == if fs.len() > 0 {
        Some(fs)
    } else {
        old_s.filters_spec()
    }
    &&& new_h.wf()
    &&& new_h.next_id_spec() == old_h.next_id_spec()
    &&& new_h.handles() == old_h.handles()
    &&& new_h.dupe_order() == old_h.dupe_order()
    &&& new_h.totals() == old_h.totals()
    &&& if fs.len() > 0 {
        filters_stored(old_h.clients(), new_h.clients(), old_s.id_spec(), old_s.callsign_spec(), fs)
    } else {
        new_h.clients() == old_h.clients()
    }
}

/// The effect of a packet line `line` (trimmed: `t`) of `bytes` bytes:
/// it is counted as received by the session and in the hub; a duplicate
/// for the session's cache is counted and dropped; a fresh one that the
/// session's filters pass (or any, with no filters) is counted as sent to
/// every other client and handed to them; otherwise it is counted as
/// dropped.
pub open spec fn packet_effect<F: Fn(i64, i64, i64, Position) -> bool>(
    old_s: Session,
    new_s: Session,
    old_h: Hub,
    new_h: Hub,
    line: Seq<char>,
    within: F,
    fanout: Option<Vec<usize>>,
) -> bool {
    let t = trimmed(line);
    let fp = seahash_of(encode_utf8(t));
    let bytes = (encode_utf8(line).len() as usize) as int;
    let (rx, dropped, dup) = old_s.counters();
    let after_rx = rx_counted(old_h.clients(), old_s.id_spec(), bytes);
    &&& new_s.state() == old_s.state()
    &&& new_s.id_spec() == old_s.id_spec()
    &&& new_s.callsign_spec() == old_s.callsign_spec()
    &&& new_s.filters_spec() == old_s.filters_spec()
    &&& new_s.start_spec() == old_s.start_spec()
    &&& new_s.dupe_order() == cache_step(
        old_s.dupe_order(),
        fp,
        SESSION_DUPE_CACHE_SIZE as nat,
    )
    &&& new_h.wf()
    &&& new_h.next_id_spec() == old_h.next_id_spec()
    &&& new_h.handles() == old_h.handles()
    &&& new_h.dupe_order() == old_h.dupe_order()
    &&& new_h.totals() == old_h.totals()
    &&& if old_s.dupe_order().contains(fp) {
        &&& new_s.counters() == (sat_add(rx, 1), dropped, sat_add(dup, 1))
        &&& new_h.clients() == after_rx
        &&& fanout is None
    } else if fanout is Some {
        &&& (old_s.filters_spec() is None || exists|i: int|
            0 <= i < old_s.filters_spec()->0.len() && filter_accepts(
                old_s.filters_spec()->0[i],
                t,
                within,
            ))
        &&& new_s.counters() == (sat_add(rx, 1), dropped, dup)
        &&& new_h.clients() == tx_counted(after_rx, old_s.id_spec(), bytes)
        &&& fanout->0@ == ids_except(new_h.clients(), old_s.id_spec())
    } else {
        &&& old_s.filters_spec() matches Some(fs) && forall|i: int|
            0 <= i < fs.len() ==> filter_refuses(fs[i], t, within)
        &&& new_s.counters() == (sat_add(rx, 1), sat_add(dropped, 1), dup)
        &&& new_h.clients() == after_rx
    }
}

/// Whether a session with filters `filters` relays `packet`: with no
/// filters it does; otherwise some filter must pass it.
pub fn filters_pass<F: Fn(i64, i64, i64, Position) -> bool>(
    filters: &Option<Vec<ClientFilter>>,
    packet: &str,
    within: &F,
) -> (r: bool)
    requires
        forall|lat: i64, lon: i64, radius_km: i64, p: Position|
            within.requires((lat, lon, radius_km, p)),
    ensures
        r ==> (opt_filters_view(*filters) is None || exists|i: int|
            0 <= i < opt_filters_view(*filters)->0.len() && filter_accepts(
                opt_filters_view(*filters)->0[i],
                packet@,
                *within,
            )),
        !r ==> (opt_filters_view(*filters) matches Some(fs) && forall|i: int|
            0 <= i < fs.len() ==> filter_refuses(fs[i], packet@, *within)),
{
    match filters {
        Some(fs) => {
            let m = any_matches(fs, packet, within);
            proof {
                let fv = filters_view(fs@);
                if m {
                    let i = choose|i: int|
                        0 <= i < fs@.len() && filter_accepts(fs@[i]@, packet@, *within);
                    assert(fv[i] == fs@[i]@);
                    assert(opt_filters_view(*filters) == Some(fv));
                    assert(filter_accepts(opt_filters_view(*filters)->0[i], packet@, *within));
                } else {
                    assert forall|i: int| 0 <= i < fv.len() implies filter_refuses(
                        fv[i],
                        packet@,
                        *within,
                    ) by {
                        assert(fv[i] == fs@[i]@);
                    }
                }
            }
            m
        },
        None => true,
    }
}

impl Session {
    fn filter_command(&mut self, hub: &mut Hub, t: &Vec<char>) -> (r: Vec<String>)
        requires
            old(self).wf(),
            old(self).state() == SessionState::LoggedIn,
            old(hub).wf(),
        ensures
            final(self).wf(),
            texts(r@) == filter_command_replies(t@),
            filter_command_effect(*old(self), *final(self), *old(hub), *final(hub), t@),
    {
        let tokens: Vec<String> = if t.len() >= 8 {
            let rest = crate::text::slice_vec(t, 8, t.len());
            split_words(string_of(rest.as_slice()).as_str())
        } else {
            Vec::new()
        };
        let ghost toks = filter_tokens(t@);
        assert(tokens@.len() == toks.len());
        let mut replies: Vec<String> = Vec::new();
        let mut fresh: Vec<ClientFilter> = Vec::new();
        let mut i: usize = 0;
        while i < tokens.len()
            invariant
                i <= tokens@.len() == toks.len(),
                forall|j: int| 0 <= j < tokens@.len() ==> #[trigger] tokens@[j]@ == toks[j],
                filters_view(fresh@) == accepted(parse_all(toks.subrange(0, i as int))),
                texts(replies@) == error_replies(parse_all(toks.subrange(0, i as int))),
            decreases tokens.len() - i,
        {
            proof {
                assert(parse_all(toks.subrange(0, i + 1)).drop_last() =~= parse_all(
                    toks.subrange(0, i as int),
                ));
                assert(parse_all(toks.subrange(0, i + 1)).last() == parse_filter(tokens@[i as int]@));
            }
            match ClientFilter::from_token(tokens[i].as_str()) {
                Ok(f) => {
                    fresh.push(f);
                    assert(filters_view(fresh@) =~= accepted(parse_all(toks.subrange(0, i + 1))));
                },
                Err(e) => {
                    let mut v: Vec<char> = Vec::new();
                    push_str(&mut v, "# invalid filter: ");
                    let m = e.message();
                    push_str(&mut v, m.as_str());
                    push_str(&mut v, "\n");
                    replies.push(string_of(v.as_slice()));
                    assert(texts(replies@) =~= error_replies(parse_all(toks.subrange(0, i + 1))));
                },
            }
            i = i + 1;
        }
        assert(toks.subrange(0, toks.len() as int) =~= toks);
        if fresh.len() > 0 {
            let stored = copy_filters(&fresh);
            let cs = match &self.callsign {
                Some(c) => Some(c.clone()),
                None => None,
            };
            hub.update_client(self.id, cs, Some(stored));
            self.filters = Some(fresh);
            replies.push("# filter set\n".to_string());
            assert(texts(replies@) =~= filter_command_replies(t@));
        }
        replies
    }

    fn stats_reply(&self, now: u64) -> (r: String)
        ensures
            r@ == stats_text(
                if now >= self.start_spec() { (now - self.start_spec()) as u64 } else { 0 },
                self.counters().0,
                self.counters().1,
                self.counters().2,
            ),
    {
        let uptime = now.saturating_sub(self.start_time);
        let mut v: Vec<char> = Vec::new();
        push_str(&mut v, "# stats: uptime=");
        push_decimal(&mut v, uptime);
        push_str(&mut v, "s received=");
        push_decimal(&mut v, self.packets_received);
        push_str(&mut v, " dropped=");
        push_decimal(&mut v, self.packets_dropped);
        push_str(&mut v, " duplicated=");
        push_decimal(&mut v, self.packets_duplicated);
        push_str(&mut v, "\n");
        assert(v@ =~= stats_text(uptime, self.packets_received, self.packets_dropped, self.packets_duplicated));
        string_of(v.as_slice())
    }

    fn ingest<F: Fn(i64, i64, i64, Position) -> bool>(
        &mut self,
        hub: &mut Hub,
        line: &str,
        within: &F,
    ) -> (r: Option<Vec<usize>>)
        requires
            old(self).wf(),
            old(self).state() == SessionState::LoggedIn,
            old(hub).wf(),
            forall|lat: i64, lon: i64, radius_km: i64, p: Position|
                within.requires((lat, lon, radius_km, p)),
        ensures
            final(self).wf(),
            packet_effect(*old(self), *final(self), *old(hub), *final(hub), line@, *within, r),
    {
        let bytes = line.len();
        let packet = trim_str(line);
        self.packets_received = self.packets_received.saturating_add(1);
        hub.count_rx(self.id, bytes);
        let fp = fingerprint(packet.as_str());
        if self.dupes.check_and_insert(fp) {
            self.packets_duplicated = self.packets_duplicated.saturating_add(1);
            return None;
        }
        let pass = filters_pass(&self.filters, packet.as_str(), within);
        if pass {
            hub.count_tx_to_others(self.id, bytes);
            let sent = hub.broadcast_packet(self.id, line);
            Some(sent)
        } else {
            self.packets_dropped = self.packets_dropped.saturating_add(1);
            None
        }
    }
}

impl Session {
    /// Handles a line read from a logged-in client: a filter command, a
    /// request for statistics, or a packet. `now` is the time in seconds
    /// since the Unix epoch; `within` decides area filters.
    /// Handles a line read from a logged-in client as a line of kind
    /// `kind`: a filter command, a request for statistics, or a packet.
    /// `now` is the time in seconds since the Unix epoch; `within` decides
    /// area filters.
    pub fn on_line_of_kind<F: Fn(i64, i64, i64, Position) -> bool>(
        &mut self,
        hub: &mut Hub,
        line: &str,
        kind: LineKind,
        within: &F,
        now: u64,
    ) -> (r: LineOutcome)
        requires
            old(self).wf(),
            old(self).state() == SessionState::LoggedIn,
            old(hub).wf(),
            forall|lat: i64, lon: i64, radius_km: i64, p: Position|
                within.requires((lat, lon, radius_km, p)),
        ensures
            final(self).wf(),
            kind == LineKind::FilterCommand ==> {
                &&& texts(r.replies@) == filter_command_replies(trimmed(line@))
                &&& filter_command_effect(
                    *old(self),
                    *final(self),
                    *old(hub),
                    *final(hub),
                    trimmed(line@),
                )
                &&& r.fanout is None
                &&& r.destination is None
            },
            kind == LineKind::Stats ==> {
                &&& texts(r.replies@) == seq![
                    stats_text(
                        if now >= old(self).start_spec() {
                            (now - old(self).start_spec()) as u64
                        } else {
                            0
                        },
                        old(self).counters().0,
                        old(self).counters().1,
                        old(self).counters().2,
                    ),
                ]
                &&& *final(self) == *old(self)
                &&& *final(hub) == *old(hub)
                &&& r.fanout is None
                &&& r.destination is None
            },
            kind == LineKind::Packet ==> {
                &&& r.replies@.len() == 0
                &&& packet_effect(
                    *old(self),
                    *final(self),
                    *old(hub),
                    *final(hub),
                    line@,
                    *within,
                    r.fanout,
                )
                &&& opt_view(r.destination) == message_destination(trimmed(line@))
            },
    {
        let t = trim_str(line);
        if kind == LineKind::FilterCommand {
            let tv = char_vec(t.as_str());
            let replies = self.filter_command(hub, &tv);
            return LineOutcome { replies, fanout: None, destination: None };
        }
        if kind == LineKind::Stats {
            let mut replies: Vec<String> = Vec::new();
            replies.push(self.stats_reply(now));
            assert(texts(replies@) =~= seq![
                stats_text(
                    if now >= old(self).start_spec() {
                        (now - old(self).start_spec()) as u64
                    } else {
                        0
                    },
                    old(self).counters().0,
                    old(self).counters().1,
                    old(self).counters().2,
                ),
            ]);
            return LineOutcome { replies, fanout: None, destination: None };
        }
        let fanout = self.ingest(hub, line, within);
        let destination = extract_message_destination(t.as_str());
        LineOutcome { replies: Vec::new(), fanout, destination }
    }

    pub fn on_line<F: Fn(i64, i64, i64, Position) -> bool>(
        &mut self,
        hub: &mut Hub,
        line: &str,
        within: &F,
        now: u64,
    ) -> (r: LineOutcome)
        requires
            old(self).wf(),
            old(self).state() == SessionState::LoggedIn,
            old(hub).wf(),
            forall|lat: i64, lon: i64, radius_km: i64, p: Position|
                within.requires((lat, lon, radius_km, p)),
        ensures
            final(self).wf(),
            is_filter_command(trimmed(line@)) ==> {
                &&& texts(r.replies@) == filter_command_replies(trimmed(line@))
                &&& filter_command_effect(
                    *old(self),
                    *final(self),
                    *old(hub),
                    *final(hub),
                    trimmed(line@),
                )
                &&& r.fanout is None
                &&& r.destination is None
            },
            is_stats_command(trimmed(line@)) ==> {
                &&& texts(r.replies@) == seq![
                    stats_text(
                        if now >= old(self).start_spec() {
                            (now - old(self).start_spec()) as u64
                        } else {
                            0
                        },
                        old(self).counters().0,
                        old(self).counters().1,
                        old(self).counters().2,
                    ),
                ]
                &&& *final(self) == *old(self)
                &&& *final(hub) == *old(hub)
                &&& r.fanout is None
                &&& r.destination is None
            },
            !is_filter_command(trimmed(line@)) && !is_stats_command(trimmed(line@)) ==> {
                &&& r.replies@.len() == 0
                &&& packet_effect(
                    *old(self),
                    *final(self),
                    *old(hub),
                    *final(hub),
                    line@,
                    *within,
                    r.fanout,
                )
                &&& opt_view(r.destination) == message_destination(trimmed(line@))
            },
    {
        let t = trim_str(line);
        let lower = lowercase(t.as_str());
        let kind = classify_line(lower.as_str());
        self.on_line_of_kind(hub, line, kind, within, now)
    }
}

/// A fingerprint just offered to a cache with room for one at least is
/// held.
pub proof fn lemma_offered_is_held(order: Seq<u64>, fp: u64, capacity: nat)
    requires
        capacity >= 1,
        order.len() <= capacity,
    ensures
        cache_step(order, fp, capacity).contains(fp),
{
    let next = cache_step(order, fp, capacity);
    if !order.contains(fp) {
        assert(next[next.len() - 1] == fp);
    }
}

/// A client that sends the same packet twice in a row has it relayed at
/// most once: the second copy finds its fingerprint in the session's cache,
/// is counted as a duplicate and goes nowhere.
pub proof fn lemma_resend_not_relayed<F: Fn(i64, i64, i64, Position) -> bool>(
    s0: Session,
    s1: Session,
    s2: Session,
    h0: Hub,
    h1: Hub,
    h2: Hub,
    line: Seq<char>,
    within: F,
    first: Option<Vec<usize>>,
    second: Option<Vec<usize>>,
)
    requires
        s0.wf(),
        packet_effect(s0, s1, h0, h1, line, within, first),
        packet_effect(s1, s2, h1, h2, line, within, second),
    ensures
        second is None,
        s2.counters().2 == sat_add(s1.counters().2, 1),
{
    reveal(Session::wf);
    lemma_offered_is_held(s0.dupe_order(), seahash_of(encode_utf8(trimmed(line))), 100);
}

} // verus!
