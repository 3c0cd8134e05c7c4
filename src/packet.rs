//! Packet utilities: passcodes, frame validation, message destinations,
//! positions and fingerprints.
use vstd::prelude::*;
use vstd::utf8::encode_utf8;
use crate::text::{
    contains, contains_exec, lower_of, lowercase, char_vec, find_char, index_of, is_first, lemma_index_of, slice_vec, string_of, trim_bounds,
    trimmed, trim_front, trim_back, is_ws,
};

verus! {

/// Starting value of the passcode accumulator.
pub const PASSCODE_SEED: u32 = 0x73e2_070a;

/// Mask applied to the passcode accumulator.
pub const PASSCODE_MASK: u32 = 0x7fff;

/// `c` with ASCII lower-case letters made upper-case.
pub open spec fn ascii_upper(c: char) -> char {
    if 'a' <= c && c <= 'z' {
        ((c as u32) - 32) as char
    } else {
        c
    }
}

/// `s` with ASCII lower-case letters made upper-case.
pub open spec fn upper_ascii(s: Seq<char>) -> Seq<char> {
    s.map_values(|c: char| ascii_upper(c))
}

/// The part of a callsign before its first `-`.
pub open spec fn callsign_base(s: Seq<char>) -> Seq<char>
    decreases s.len(),
{
    if s.len() == 0 {
        s
    } else if s[0] == '-' {
        Seq::empty()
    } else {
        seq![s[0]] + callsign_base(s.drop_first())
    }
}

/// The low byte of a character's code.
pub open spec fn low_byte(c: char) -> u32 {
    (c as u32) & 0xff
}

/// The passcode accumulator after folding in every character of `s`: the
/// byte of an even position goes into the upper byte, that of an odd
/// position into the lower byte.
pub open spec fn passcode_hash(s: Seq<char>) -> u32
    decreases s.len(),
{
    if s.len() == 0 {
        PASSCODE_SEED
    } else {
        let h = passcode_hash(s.drop_last());
        if (s.len() - 1) % 2 == 0 {
            h ^ (low_byte(s.last()) << 8u32)
        } else {
            h ^ low_byte(s.last())
        }
    }
}

/// The APRS-IS passcode of a callsign.
pub open spec fn passcode_of(callsign: Seq<char>) -> u16 {
    (passcode_hash(callsign_base(upper_ascii(callsign))) & PASSCODE_MASK) as u16
}

proof fn lemma_base_prefix(s: Seq<char>, end: int)
    requires
        is_first(s, '-', end) || (!s.contains('-') && end == s.len()),
    ensures
        callsign_base(s) == s.subrange(0, end),
    decreases s.len(),
{
    if s.len() > 0 && s[0] != '-' {
        let t = s.drop_first();
        if is_first(s, '-', end) {
            assert forall|j: int| 0 <= j < end - 1 implies t[j] != '-' by {
                assert(s[j + 1] != '-');
            }
            lemma_base_prefix(t, end - 1);
        } else {
            assert(!t.contains('-')) by {
                if t.contains('-') {
                    let k = choose|k: int| 0 <= k < t.len() && t[k] == '-';
                    assert(s[k + 1] == '-');
                }
            }
            lemma_base_prefix(t, end - 1);
        }
        assert(seq![s[0]] + t.subrange(0, end - 1) =~= s.subrange(0, end));
    } else if s.len() > 0 {
        if !is_first(s, '-', end) {
            assert(s.contains('-'));
        }
        assert(end == 0);
    } else {
        assert(s.subrange(0, end) =~= s);
    }
}

/// The APRS-IS passcode of `callsign`: the callsign up to its first `-`,
/// upper-cased, folded into the accumulator, masked to fifteen bits.
pub fn aprs_passcode(callsign: &str) -> (r: u16)
    ensures
        r == passcode_of(callsign@),
{
    let cs = char_vec(callsign);
    let ghost up = upper_ascii(cs@);
    let end = match find_char(&cs, '-') {
        Some(i) => i,
        None => cs.len(),
    };
    proof {
        lemma_index_of(cs@, '-');
        assert forall|j: int| 0 <= j < cs@.len() implies (up[j] == '-') == (cs@[j] == '-') by {}
        if end < cs.len() {
            assert(is_first(up, '-', end as int));
        } else {
            assert(!up.contains('-')) by {
                if up.contains('-') {
                    let k = choose|k: int| 0 <= k < up.len() && up[k] == '-';
                    assert(cs@[k] == '-');
                }
            }
        }
        lemma_base_prefix(up, end as int);
    }
    let mut hash: u32 = PASSCODE_SEED;
    let mut i: usize = 0;
    while i < end
        invariant
            end <= cs@.len(),
            up == upper_ascii(cs@),
            i <= end,
            hash == passcode_hash(up.subrange(0, i as int)),
        decreases end - i,
    {
        let c = cs[i];
        let x: u32 = c as u32;
        let b: u32 = if 'a' <= c && c <= 'z' {
            x - 32
        } else {
            x & 0xff
        };
        proof {
            let pre = up.subrange(0, i + 1);
            assert(pre.drop_last() =~= up.subrange(0, i as int));
            assert(pre.last() == ascii_upper(c));
            if 'a' <= c && c <= 'z' {
                let y: u32 = (x - 32) as u32;
                assert(y & 0xff == y) by (bit_vector)
                    requires
                        y <= 122,
                ;
            }
            assert(b == low_byte(pre.last()));
        }
        if i % 2 == 0 {
            hash = hash ^ (b << 8u32);
        } else {
            hash = hash ^ b;
        }
        i = i + 1;
    }
    proof {
        assert(up.subrange(0, end as int) == callsign_base(up));
    }
    (hash & PASSCODE_MASK) as u16
}

proof fn lemma_base_dash(a: Seq<char>, b: Seq<char>)
    ensures
        callsign_base(a + seq!['-'] + b) == callsign_base(a),
    decreases a.len(),
{
    let s = a + seq!['-'] + b;
    if a.len() == 0 {
        assert(s[0] == '-');
    } else {
        assert(s[0] == a[0]);
        if a[0] != '-' {
            assert(s.drop_first() =~= a.drop_first() + seq!['-'] + b);
            lemma_base_dash(a.drop_first(), b);
        }
    }
}

/// A passcode ignores the case of ASCII letters, ignores whatever follows
/// a `-`, and fits in fifteen bits.
pub proof fn lemma_passcode_laws(callsign: Seq<char>, ssid: Seq<char>)
    ensures
        passcode_of(upper_ascii(callsign)) == passcode_of(callsign),
        passcode_of(callsign + seq!['-'] + ssid) == passcode_of(callsign),
        passcode_of(callsign) <= 0x7fff,
{
    assert(upper_ascii(upper_ascii(callsign)) =~= upper_ascii(callsign));
    assert(upper_ascii(callsign + seq!['-'] + ssid) =~= upper_ascii(callsign) + seq!['-']
        + upper_ascii(ssid));
    lemma_base_dash(upper_ascii(callsign), upper_ascii(ssid));
    let h = passcode_hash(callsign_base(upper_ascii(callsign)));
    assert(h & 0x7fff <= 0x7fff) by (bit_vector);
}

/// A frame `SRC>DEST:PAYLOAD` after trimming: its first `>` is not at the
/// start, and its first `:` comes at least two places after it.
pub open spec fn frame_valid(line: Seq<char>) -> bool {
    let t = trimmed(line);
    match (index_of(t, '>'), index_of(t, ':')) {
        (Some(gt), Some(colon)) => gt > 0 && colon > gt + 1,
        _ => false,
    }
}

/// Whether `line`, trimmed, has the shape of an APRS frame.
pub fn is_valid_aprs_packet(line: &str) -> (r: bool)
    ensures
        r == frame_valid(line@),
{
    let all = char_vec(line);
    let (start, end) = trim_bounds(&all);
    let mut t: Vec<char> = Vec::new();
    let mut k: usize = start;
    while k < end
        invariant
            start <= k <= end <= all@.len(),
            t@ == all@.subrange(start as int, k as int),
        decreases end - k,
    {
        t.push(all[k]);
        k = k + 1;
    }
    if t.len() == 0 {
        return false;
    }
    match (find_char(&t, '>'), find_char(&t, ':')) {
        (Some(gt), Some(colon)) => gt > 0 && colon > gt + 1,
        _ => false,
    }
}

/// A frame that is empty after trimming, or has no `>`, or no `:` after
/// the first `>`, is not valid.
pub proof fn lemma_frame_invalid(line: Seq<char>)
    ensures
        trimmed(line).len() == 0 ==> !frame_valid(line),
        !trimmed(line).contains('>') ==> !frame_valid(line),
        (forall|i: int| 0 <= i < trimmed(line).len() && trimmed(line)[i] == ':' ==> (
            exists|j: int| 0 <= j < i && trimmed(line)[j] == '>') == false) ==> !frame_valid(line),
{
    lemma_index_of(trimmed(line), '>');
    lemma_index_of(trimmed(line), ':');
}

proof fn lemma_trim_front_keeps(s: Seq<char>)
    requires
        s.len() > 0,
        !is_ws(s[0]),
    ensures
        trim_front(s) == s,
{
}

proof fn lemma_trim_back_split(p: Seq<char>, q: Seq<char>)
    requires
        p.len() > 0,
        !is_ws(p.last()),
    ensures
        trim_back(p + q) == p + trim_back(q),
    decreases q.len(),
{
    if q.len() == 0 {
        assert(p + q =~= p);
        assert(p + trim_back(q) =~= p);
    } else if is_ws(q.last()) {
        assert((p + q).drop_last() =~= p + q.drop_last());
        lemma_trim_back_split(p, q.drop_last());
    } else {
        assert((p + q).last() == q.last());
    }
}

/// A frame `SRC>DEST:PAYLOAD` whose source is non-empty and holds no `>`,
/// `:` or white space, and whose destination is non-empty and holds no
/// `:`, is valid, whatever its payload.
pub proof fn lemma_frame_valid(src: Seq<char>, dest: Seq<char>, payload: Seq<char>)
    requires
        src.len() > 0,
        forall|i: int| 0 <= i < src.len() ==> src[i] != '>' && src[i] != ':' && !is_ws(#[trigger] src[i]),
        dest.len() > 0,
        forall|i: int| 0 <= i < dest.len() ==> #[trigger] dest[i] != ':',
    ensures
        frame_valid(src + seq!['>'] + dest + seq![':'] + payload),
{
    let head = src + seq!['>'] + dest + seq![':'];
    let line = head + payload;
    assert(line[0] == src[0]);
    lemma_trim_front_keeps(line);
    assert(head.last() == ':');
    lemma_trim_back_split(head, payload);
    let t = trimmed(line);
    assert(t == head + trim_back(payload));
    let gt = src.len() as int;
    let colon = (src.len() + 1 + dest.len()) as int;
    assert(t[gt] == '>');
    assert forall|j: int| 0 <= j < gt implies t[j] != '>' by {
        assert(t[j] == src[j]);
    }
    assert(is_first(t, '>', gt));
    assert(t[colon] == ':');
    assert forall|j: int| 0 <= j < colon implies t[j] != ':' by {
        if j < gt {
            assert(t[j] == src[j]);
        } else if j > gt {
            assert(t[j] == dest[j - gt - 1]);
        }
    }
    assert(is_first(t, ':', colon));
    lemma_index_of(t, '>');
    lemma_index_of(t, ':');
}

/// An ASCII letter or digit, as a byte.
pub open spec fn is_alnum_byte(b: u8) -> bool {
    (48 <= b && b <= 57) || (65 <= b && b <= 90) || (97 <= b && b <= 122)
}

/// Every byte of `s` is an ASCII letter or digit.
pub open spec fn all_alnum_bytes(s: Seq<u8>) -> bool {
    forall|i: int| 0 <= i < s.len() ==> is_alnum_byte(s[i])
}

/// `a b c` is the UTF-8 encoding of a three-byte white-space character
/// (U+1680, U+2000 to U+200A, U+2028, U+2029, U+202F, U+205F, U+3000).
pub open spec fn is_ws3(a: u8, b: u8, c: u8) -> bool {
    (a == 0xe1 && b == 0x9a && c == 0x80) || (a == 0xe2 && b == 0x80 && ((0x80 <= c && c <= 0x8a)
        || c == 0xa8 || c == 0xa9 || c == 0xaf)) || (a == 0xe2 && b == 0x81 && c == 0x9f) || (a
        == 0xe3 && b == 0x80 && c == 0x80)
}

/// An ASCII white-space byte.
pub open spec fn is_ws1(a: u8) -> bool {
    (0x09 <= a && a <= 0x0d) || a == 0x20
}

/// `a b` is the UTF-8 encoding of U+0085 or U+00A0.
pub open spec fn is_ws2(a: u8, b: u8) -> bool {
    a == 0xc2 && (b == 0x85 || b == 0xa0)
}

/// The length of the UTF-8 encoding of a white-space character at the
/// start of `s`, or 0.
pub open spec fn ws_prefix_len(s: Seq<u8>) -> int {
    if s.len() >= 1 && is_ws1(s[0]) {
        1
    } else if s.len() >= 2 && is_ws2(s[0], s[1]) {
        2
    } else if s.len() >= 3 && is_ws3(s[0], s[1], s[2]) {
        3
    } else {
        0
    }
}

/// The length of the UTF-8 encoding of a white-space character at the
/// end of `s`, or 0.
pub open spec fn ws_suffix_len(s: Seq<u8>) -> int {
    let n = s.len() as int;
    if n >= 1 && is_ws1(s[n - 1]) {
        1
    } else if n >= 2 && is_ws2(s[n - 2], s[n - 1]) {
        2
    } else if n >= 3 && is_ws3(s[n - 3], s[n - 2], s[n - 1]) {
        3
    } else {
        0
    }
}

/// `s` without the encodings of white-space characters at its start.
pub open spec fn btrim_front(s: Seq<u8>) -> Seq<u8>
    decreases s.len(),
{
    if ws_prefix_len(s) > 0 {
        btrim_front(s.subrange(ws_prefix_len(s), s.len() as int))
    } else {
        s
    }
}

/// `s` without the encodings of white-space characters at its end.
pub open spec fn btrim_back(s: Seq<u8>) -> Seq<u8>
    decreases s.len(),
{
    if ws_suffix_len(s) > 0 {
        btrim_back(s.subrange(0, s.len() - ws_suffix_len(s)))
    } else {
        s
    }
}

/// The first position of byte `c` in `s`, if any.
pub open spec fn byte_index(s: Seq<u8>, c: u8) -> Option<int> {
    if exists|i: int| 0 <= i < s.len() && s[i] == c {
        Some(choose|i: int| 0 <= i < s.len() && s[i] == c && forall|j: int| 0 <= j < i ==> s[j] != c)
    } else {
        None
    }
}

/// The addressee of an APRS message, over the UTF-8 bytes of the packet:
/// with payload the bytes after the first `:`, a payload that starts with
/// `:` and holds at least ten bytes names it in its bytes one to nine;
/// trimmed of white space, it must be non-empty and all ASCII letters and
/// digits. A window that cuts a character in two leaves bytes that are
/// neither, so it names nothing.
pub open spec fn message_destination(packet: Seq<char>) -> Option<Seq<char>> {
    let b = encode_utf8(packet);
    match byte_index(b, 58) {
        Some(colon) => {
            let payload = b.subrange(colon + 1, b.len() as int);
            if payload.len() >= 10 && payload[0] == 58 {
                let d = btrim_back(btrim_front(payload.subrange(1, 10)));
                if d.len() > 0 && all_alnum_bytes(d) {
                    Some(d.map_values(|x: u8| x as char))
                } else {
                    None
                }
            } else {
                None
            }
        },
        None => None,
    }
}

fn ws_prefix_exec(w: &Vec<u8>, i: usize, n: usize) -> (r: usize)
    requires
        i <= n <= w@.len(),
    ensures
        r == ws_prefix_len(w@.subrange(i as int, n as int)),
{
    let ghost s = w@.subrange(i as int, n as int);
    if n - i >= 1 && ((0x09 <= w[i] && w[i] <= 0x0d) || w[i] == 0x20) {
        assert(s[0] == w@[i as int]);
        return 1;
    }
    assert(n - i >= 1 ==> s[0] == w@[i as int]);
    if n - i >= 2 && w[i] == 0xc2 && (w[i + 1] == 0x85 || w[i + 1] == 0xa0) {
        assert(s[1] == w@[i + 1]);
        return 2;
    }
    assert(n - i >= 2 ==> s[1] == w@[i + 1]);
    if n - i >= 3 {
        let (a, b, c) = (w[i], w[i + 1], w[i + 2]);
        assert(s[2] == w@[i + 2]);
        if (a == 0xe1 && b == 0x9a && c == 0x80) || (a == 0xe2 && b == 0x80 && ((0x80 <= c && c
            <= 0x8a) || c == 0xa8 || c == 0xa9 || c == 0xaf)) || (a == 0xe2 && b == 0x81 && c
            == 0x9f) || (a == 0xe3 && b == 0x80 && c == 0x80) {
            return 3;
        }
    }
    0
}

fn ws_suffix_exec(w: &Vec<u8>, i: usize, n: usize) -> (r: usize)
    requires
        i <= n <= w@.len(),
    ensures
        r == ws_suffix_len(w@.subrange(i as int, n as int)),
{
    let ghost s = w@.subrange(i as int, n as int);
    let m = n - i;
    if m >= 1 && ((0x09 <= w[n - 1] && w[n - 1] <= 0x0d) || w[n - 1] == 0x20) {
        assert(s[m - 1] == w@[n - 1]);
        return 1;
    }
    assert(m >= 1 ==> s[m - 1] == w@[n - 1]);
    if m >= 2 && w[n - 2] == 0xc2 && (w[n - 1] == 0x85 || w[n - 1] == 0xa0) {
        assert(s[m - 2] == w@[n - 2]);
        return 2;
    }
    assert(m >= 2 ==> s[m - 2] == w@[n - 2]);
    if m >= 3 {
        let (a, b, c) = (w[n - 3], w[n - 2], w[n - 1]);
        assert(s[m - 3] == w@[n - 3]);
        if (a == 0xe1 && b == 0x9a && c == 0x80) || (a == 0xe2 && b == 0x80 && ((0x80 <= c && c
            <= 0x8a) || c == 0xa8 || c == 0xa9 || c == 0xaf)) || (a == 0xe2 && b == 0x81 && c
            == 0x9f) || (a == 0xe3 && b == 0x80 && c == 0x80) {
            return 3;
        }
    }
    0
}

/// The bounds of `w` with the encodings of white-space characters removed
/// from both ends.
fn btrim_bounds(w: &Vec<u8>) -> (r: (usize, usize))
    ensures
        r.0 <= r.1 <= w@.len(),
        w@.subrange(r.0 as int, r.1 as int) == btrim_back(btrim_front(w@)),
{
    let n = w.len();
    let mut i: usize = 0;
    assert(w@.subrange(0, n as int) =~= w@);
    loop
        invariant
            i <= n == w@.len(),
            btrim_front(w@) == btrim_front(w@.subrange(i as int, n as int)),
        ensures
            i <= n == w@.len(),
            btrim_front(w@) == btrim_front(w@.subrange(i as int, n as int)),
            ws_prefix_len(w@.subrange(i as int, n as int)) == 0,
        decreases n - i,
    {
        let k = ws_prefix_exec(w, i, n);
        if k == 0 {
            break;
        }
        proof {
            let s = w@.subrange(i as int, n as int);
            assert(s.subrange(k as int, s.len() as int) =~= w@.subrange(i + k, n as int));
        }
        i = i + k;
    }
    let ghost front = w@.subrange(i as int, n as int);
    let mut j: usize = n;
    assert(front.subrange(0, (n - i) as int) =~= front);
    loop
        invariant
            i <= j <= n == w@.len(),
            front == w@.subrange(i as int, n as int),
            btrim_front(w@) == front,
            btrim_back(front) == btrim_back(w@.subrange(i as int, j as int)),
        ensures
            i <= j <= n == w@.len(),
            btrim_front(w@) == front,
            btrim_back(front) == btrim_back(w@.subrange(i as int, j as int)),
            ws_suffix_len(w@.subrange(i as int, j as int)) == 0,
        decreases j - i,
    {
        let k = ws_suffix_exec(w, i, j);
        if k == 0 {
            break;
        }
        proof {
            let s = w@.subrange(i as int, j as int);
            assert(s.subrange(0, s.len() - k) =~= w@.subrange(i as int, j - k));
        }
        j = j - k;
    }
    (i, j)
}

/// The addressee of an APRS message packet, if it is one.
pub fn extract_message_destination(packet: &str) -> (r: Option<String>)
    ensures
        r matches Some(d) ==> message_destination(packet@) == Some(d@),
        r is None ==> message_destination(packet@) is None,
{
    let bytes = packet.as_bytes();
    let ghost b = encode_utf8(packet@);
    assert(bytes@ == b);
    let n = bytes.len();
    let mut colon: usize = 0;
    while colon < n && bytes[colon] != 58
        invariant
            colon <= n == b.len(),
            bytes@ == b,
            forall|j: int| 0 <= j < colon ==> b[j] != 58,
        decreases n - colon,
    {
        colon = colon + 1;
    }
    if colon == n {
        return None;
    }
    assert(byte_index(b, 58) == Some(colon as int)) by {
        let k = choose|k: int| 0 <= k < b.len() && b[k] == 58 && forall|j: int| 0 <= j < k ==> b[j] != 58;
        assert(b[colon as int] == 58);
        if k < colon {
        } else if k > colon {
            assert(b[colon as int] != 58);
        }
    }
    let ghost payload = b.subrange(colon + 1, b.len() as int);
    if n - colon - 1 < 10 || bytes[colon + 1] != 58 {
        return None;
    }
    let mut w: Vec<u8> = Vec::new();
    let stop: usize = colon + 11;
    let mut k: usize = colon + 2;
    while k < stop
        invariant
            stop == colon + 11 <= n == b.len(),
            bytes@ == b,
            colon + 2 <= k <= stop,
            w@ == b.subrange(colon + 2, k as int),
        decreases stop - k,
    {
        w.push(bytes[k]);
        k = k + 1;
    }
    assert(w@ =~= payload.subrange(1, 10));
    let (start, end) = btrim_bounds(&w);
    if start == end {
        return None;
    }
    let ghost d = btrim_back(btrim_front(w@));
    assert(message_destination(packet@) == if all_alnum_bytes(d) {
        Some(d.map_values(|x: u8| x as char))
    } else {
        None::<Seq<char>>
    });
    let mut out: Vec<char> = Vec::new();
    let mut j: usize = start;
    while j < end
        invariant
            start <= j <= end <= w@.len(),
            w@.subrange(start as int, end as int) == d,
            out@ == d.subrange(0, j - start).map_values(|x: u8| x as char),
            d.len() > 0,
            message_destination(packet@) == if all_alnum_bytes(d) {
                Some(d.map_values(|x: u8| x as char))
            } else {
                None::<Seq<char>>
            },
            forall|i: int| 0 <= i < j - start ==> is_alnum_byte(d[i]),
        decreases end - j,
    {
        let c = w[j];
        assert(d[j - start] == c);
        if !((48 <= c && c <= 57) || (65 <= c && c <= 90) || (97 <= c && c <= 122)) {
            return None;
        }
        out.push(c as char);
        assert(out@ =~= d.subrange(0, j + 1 - start).map_values(|x: u8| x as char));
        j = j + 1;
    }
    assert(d.subrange(0, d.len() as int) =~= d);
    Some(string_of(out.as_slice()))
}

/// A position in hundredths of an arc-minute, the resolution of an APRS
/// position report: a degree is 6000 units. North and east are positive.
#[derive(Clone, Copy, Debug, PartialEq, Eq, Structural)]
pub struct Position {
    pub lat: i64,
    pub lon: i64,
}

/// Units of a position in one degree.
pub const UNITS_PER_DEGREE: i64 = 6000;

/// An ASCII digit.
pub open spec fn is_digit(c: char) -> bool {
    '0' <= c && c <= '9'
}

/// The value of a digit character.
pub open spec fn digit_val(c: char) -> int {
    (c as int) - ('0' as int)
}

/// The value of two digit characters.
pub open spec fn num2(a: char, b: char) -> int {
    digit_val(a) * 10 + digit_val(b)
}

/// `d` begins with `DDMM.hhH/DDDMM.hhH?`: latitude degrees, minutes and
/// hundredths, `N` or `S`, a `/`, longitude degrees, minutes and
/// hundredths, `E` or `W`, and one more character (the symbol).
pub open spec fn position_shape(d: Seq<char>) -> bool {
    &&& d.len() >= 19
    &&& is_digit(d[0]) && is_digit(d[1]) && is_digit(d[2]) && is_digit(d[3])
    &&& d[4] == '.' && is_digit(d[5]) && is_digit(d[6])
    &&& d[7] == 'N' || d[7] == 'S'
    &&& d[8] == '/'
    &&& is_digit(d[9]) && is_digit(d[10]) && is_digit(d[11]) && is_digit(d[12])
    &&& is_digit(d[13]) && d[14] == '.' && is_digit(d[15]) && is_digit(d[16])
    &&& d[17] == 'E' || d[17] == 'W'
}

/// The latitude that a position field gives, in units.
pub open spec fn lat_units(d: Seq<char>) -> int {
    let v = num2(d[0], d[1]) * 6000 + num2(d[2], d[3]) * 100 + num2(d[5], d[6]);
    if d[7] == 'S' {
        -v
    } else {
        v
    }
}

/// The longitude that a position field gives, in units.
pub open spec fn lon_units(d: Seq<char>) -> int {
    let v = (digit_val(d[9]) * 100 + num2(d[10], d[11])) * 6000 + num2(d[12], d[13]) * 100
        + num2(d[15], d[16]);
    if d[17] == 'W' {
        -v
    } else {
        v
    }
}

/// Where the position field of a payload starts: after the first `!`, or,
/// where there is none, after the first `=`.
pub open spec fn position_marker(payload: Seq<char>) -> Option<int> {
    match index_of(payload, '!') {
        Some(i) => Some(i),
        None => index_of(payload, '='),
    }
}

/// The position that a packet reports in its payload (the text after the
/// first `:`), if it reports one.
pub open spec fn position_of(packet: Seq<char>) -> Option<Position> {
    match index_of(packet, ':') {
        None => None,
        Some(colon) => {
            let payload = packet.subrange(colon + 1, packet.len() as int);
            match position_marker(payload) {
                None => None,
                Some(m) => {
                    let d = payload.subrange(m + 1, payload.len() as int);
                    if position_shape(d) {
                        Some(Position { lat: lat_units(d) as i64, lon: lon_units(d) as i64 })
                    } else {
                        None
                    }
                },
            }
        },
    }
}

fn is_digit_char(c: char) -> (r: bool)
    ensures
        r == is_digit(c),
{
    '0' <= c && c <= '9'
}

fn digit_of(c: char) -> (r: i64)
    requires
        is_digit(c),
    ensures
        r == digit_val(c),
        0 <= r <= 9,
{
    ((c as u32) - 48) as i64
}

fn decode_position_field(d: &Vec<char>) -> (r: Option<Position>)
    ensures
        r == (if position_shape(d@) {
            Some(Position { lat: lat_units(d@) as i64, lon: lon_units(d@) as i64 })
        } else {
            None
        }),
{
    if d.len() < 19 {
        return None;
    }
    if !(is_digit_char(d[0]) && is_digit_char(d[1]) && is_digit_char(d[2]) && is_digit_char(d[3])
        && d[4] == '.' && is_digit_char(d[5]) && is_digit_char(d[6]) && (d[7] == 'N' || d[7]
        == 'S') && d[8] == '/' && is_digit_char(d[9]) && is_digit_char(d[10]) && is_digit_char(d[11])
        && is_digit_char(d[12]) && is_digit_char(d[13]) && d[14] == '.' && is_digit_char(d[15])
        && is_digit_char(d[16]) && (d[17] == 'E' || d[17] == 'W')) {
        return None;
    }
    let lat_abs = (digit_of(d[0]) * 10 + digit_of(d[1])) * 6000 + (digit_of(d[2]) * 10
        + digit_of(d[3])) * 100 + digit_of(d[5]) * 10 + digit_of(d[6]);
    let lon_abs = (digit_of(d[9]) * 100 + digit_of(d[10]) * 10 + digit_of(d[11])) * 6000 + (
    digit_of(d[12]) * 10 + digit_of(d[13])) * 100 + digit_of(d[15]) * 10 + digit_of(d[16]);
    let lat = if d[7] == 'S' {
        -lat_abs
    } else {
        lat_abs
    };
    let lon = if d[17] == 'W' {
        -lon_abs
    } else {
        lon_abs
    };
    Some(Position { lat, lon })
}

/// The position that `packet` reports, if any.
pub fn parse_aprs_lat_lon(packet: &str) -> (r: Option<Position>)
    ensures
        r == position_of(packet@),
{
    let p = char_vec(packet);
    let colon = match find_char(&p, ':') {
        Some(c) => c,
        None => return None,
    };
    let payload = slice_vec(&p, colon + 1, p.len());
    let m = match find_char(&payload, '!') {
        Some(i) => i,
        None => match find_char(&payload, '=') {
            Some(i) => i,
            None => return None,
        },
    };
    let d = slice_vec(&payload, m + 1, payload.len());
    decode_position_field(&d)
}

/// The character of a digit value.
pub open spec fn digit_char(n: int) -> char {
    ((n + 48) as u8) as char
}

/// Latitude text `DDMM.hhN` (or `S`) of a latitude in units.
pub open spec fn lat_text(v: int) -> Seq<char> {
    let a = if v < 0 { -v } else { v };
    let deg = a / 6000;
    let mm = (a % 6000) / 100;
    let hh = a % 100;
    seq![
        digit_char(deg / 10),
        digit_char(deg % 10),
        digit_char(mm / 10),
        digit_char(mm % 10),
        '.',
        digit_char(hh / 10),
        digit_char(hh % 10),
        if v < 0 { 'S' } else { 'N' },
    ]
}

/// Longitude text `DDDMM.hhE` (or `W`) of a longitude in units.
pub open spec fn lon_text(v: int) -> Seq<char> {
    let a = if v < 0 { -v } else { v };
    let deg = a / 6000;
    let mm = (a % 6000) / 100;
    let hh = a % 100;
    seq![
        digit_char(deg / 100),
        digit_char((deg / 10) % 10),
        digit_char(deg % 10),
        digit_char(mm / 10),
        digit_char(mm % 10),
        '.',
        digit_char(hh / 10),
        digit_char(hh % 10),
        if v < 0 { 'W' } else { 'E' },
    ]
}

/// A position report payload `!DDMM.hhN/DDDMM.hhE>`.
pub open spec fn position_text(p: Position) -> Seq<char> {
    seq!['!'] + lat_text(p.lat as int) + seq!['/'] + lon_text(p.lon as int) + seq!['>']
}

/// A latitude within 90 degrees and a longitude within 180 degrees.
pub open spec fn position_in_range(p: Position) -> bool {
    -90 * 6000 <= p.lat <= 90 * 6000 && -180 * 6000 <= p.lon <= 180 * 6000
}

fn digit_char_exec(n: i64) -> (r: char)
    requires
        0 <= n <= 9,
    ensures
        r == digit_char(n as int),
{
    ((n as u8) + 48) as char
}

fn push_lat(v: &mut Vec<char>, lat: i64)
    requires
        -90 * 6000 <= lat <= 90 * 6000,
    ensures
        final(v)@ == old(v)@ + lat_text(lat as int),
{
    let a: i64 = if lat < 0 { -lat } else { lat };
    let deg = a / 6000;
    let mm = (a % 6000) / 100;
    let hh = a % 100;
    assert(deg <= 90);
    v.push(digit_char_exec(deg / 10));
    v.push(digit_char_exec(deg % 10));
    v.push(digit_char_exec(mm / 10));
    v.push(digit_char_exec(mm % 10));
    v.push('.');
    v.push(digit_char_exec(hh / 10));
    v.push(digit_char_exec(hh % 10));
    v.push(if lat < 0 { 'S' } else { 'N' });
    assert(final(v)@ =~= old(v)@ + lat_text(lat as int));
}

fn push_lon(v: &mut Vec<char>, lon: i64)
    requires
        -180 * 6000 <= lon <= 180 * 6000,
    ensures
        final(v)@ == old(v)@ + lon_text(lon as int),
{
    let a: i64 = if lon < 0 { -lon } else { lon };
    let deg = a / 6000;
    let mm = (a % 6000) / 100;
    let hh = a % 100;
    assert(deg <= 180);
    v.push(digit_char_exec(deg / 100));
    v.push(digit_char_exec((deg / 10) % 10));
    v.push(digit_char_exec(deg % 10));
    v.push(digit_char_exec(mm / 10));
    v.push(digit_char_exec(mm % 10));
    v.push('.');
    v.push(digit_char_exec(hh / 10));
    v.push(digit_char_exec(hh % 10));
    v.push(if lon < 0 { 'W' } else { 'E' });
    assert(final(v)@ =~= old(v)@ + lon_text(lon as int));
}

/// The position report payload of `p`.
pub fn format_position(p: Position) -> (r: String)
    requires
        position_in_range(p),
    ensures
        r@ == position_text(p),
{
    let mut v: Vec<char> = Vec::new();
    v.push('!');
    push_lat(&mut v, p.lat);
    v.push('/');
    push_lon(&mut v, p.lon);
    v.push('>');
    assert(v@ =~= position_text(p));
    string_of(v.as_slice())
}

proof fn lemma_digit_round_trip(n: int)
    requires
        0 <= n <= 9,
    ensures
        is_digit(digit_char(n)),
        digit_val(digit_char(n)) == n,
{
}

proof fn lemma_units_split(a: int)
    requires
        a >= 0,
    ensures
        (a / 6000) * 6000 + ((a % 6000) / 100) * 100 + a % 100 == a,
        (a % 6000) / 100 < 60,
{
    assert((a / 6000) * 6000 + ((a % 6000) / 100) * 100 + a % 100 == a) by (nonlinear_arith)
        requires
            a >= 0,
    {
        assert(a == (a / 6000) * 6000 + a % 6000);
        assert(a % 6000 == ((a % 6000) / 100) * 100 + (a % 6000) % 100);
        assert((a % 6000) % 100 == a % 100);
    }
}

/// A position written by `format_position` after the first `:` of a packet
/// reads back as the same position.
pub proof fn lemma_position_round_trip(header: Seq<char>, p: Position)
    requires
        position_in_range(p),
        !header.contains(':'),
    ensures
        position_of(header + seq![':'] + position_text(p)) == Some(p),
{
    let t = position_text(p);
    let packet = header + seq![':'] + t;
    assert(!t.contains(':')) by {
        if t.contains(':') {
            let k = choose|k: int| 0 <= k < t.len() && t[k] == ':';
            let la: int = if p.lat < 0 { -p.lat } else { p.lat as int };
            let lo: int = if p.lon < 0 { -p.lon } else { p.lon as int };
            lemma_digit_round_trip(la / 6000 / 10);
        }
    }
    assert(is_first(packet, ':', header.len() as int)) by {
        assert forall|j: int| 0 <= j < header.len() implies packet[j] != ':' by {
            assert(packet[j] == header[j]);
        }
    }
    lemma_index_of(packet, ':');
    let payload = packet.subrange(header.len() as int + 1, packet.len() as int);
    assert(payload =~= t);
    assert(is_first(t, '!', 0));
    lemma_index_of(t, '!');
    let d = t.subrange(1, t.len() as int);
    let la: int = if p.lat < 0 { -p.lat } else { p.lat as int };
    let lo: int = if p.lon < 0 { -p.lon } else { p.lon as int };
    lemma_units_split(la);
    lemma_units_split(lo);
    lemma_digit_round_trip(la / 6000 / 10);
    lemma_digit_round_trip(la / 6000 % 10);
    lemma_digit_round_trip(la % 6000 / 100 / 10);
    lemma_digit_round_trip(la % 6000 / 100 % 10);
    lemma_digit_round_trip(la % 100 / 10);
    lemma_digit_round_trip(la % 100 % 10);
    lemma_digit_round_trip(lo / 6000 / 100);
    lemma_digit_round_trip(lo / 6000 / 10 % 10);
    lemma_digit_round_trip(lo / 6000 % 10);
    lemma_digit_round_trip(lo % 6000 / 100 / 10);
    lemma_digit_round_trip(lo % 6000 / 100 % 10);
    lemma_digit_round_trip(lo % 100 / 10);
    lemma_digit_round_trip(lo % 100 % 10);
    assert(position_shape(d));
    assert(lat_units(d) == p.lat);
    assert(lon_units(d) == p.lon);
}

/// What `seahash::hash` gives for a byte string.
pub uninterp spec fn seahash_of(bytes: Seq<u8>) -> u64;

/// Relies on `seahash::hash`: a fixed 64-bit hash of the bytes, the same in
/// every run.
#[verifier::external_body]
pub(crate) fn fingerprint(packet: &str) -> (r: u64)
    ensures
        r == seahash_of(encode_utf8(packet@)),
{
    seahash::hash(packet.as_bytes())
}

/// Some keyword occurs in `folded`.
pub open spec fn any_keyword_in(folded: Seq<char>, keywords: Seq<String>) -> bool {
    exists|i: int| 0 <= i < keywords.len() && contains(folded, keywords[i]@)
}

/// Whether one of `keywords` occurs in `folded`, a line already
/// lower-cased.
pub fn keywords_match(folded: &str, keywords: &Vec<String>) -> (r: bool)
    ensures
        r == any_keyword_in(folded@, keywords@),
{
    let line = char_vec(folded);
    let mut i: usize = 0;
    while i < keywords.len()
        invariant
            i <= keywords@.len(),
            line@ == folded@,
            forall|j: int| 0 <= j < i ==> !contains(folded@, keywords@[j]@),
        decreases keywords.len() - i,
    {
        let k = char_vec(keywords[i].as_str());
        if contains_exec(&line, &k) {
            return true;
        }
        i = i + 1;
    }
    false
}

/// Whether `line` passes a keyword filter: with no filter every line does;
/// otherwise the lower-cased line must contain one of the keywords.
pub fn packet_matches_filter(line: &str, filter: &Option<Vec<String>>) -> (r: bool)
    ensures
        r == match filter {
            Some(keywords) => any_keyword_in(lower_of(line@), keywords@),
            None => true,
        },
{
    match filter {
        Some(keywords) => {
            let l = lowercase(line);
            keywords_match(l.as_str(), keywords)
        },
        None => true,
    }
}

} // verus!
