//! Pairing invitations: dial targets, `lanbeam://pair` links, pairing codes,
//! and the address that an invitation names.

use vstd::prelude::*;
use vstd::utf8::encode_utf8;

use crate::consts::DEFAULT_TCP_PORT;
use crate::discovery::interfaces::{select, selected, Iface};
use crate::net::{dotted, parse_ipv4, parsed_ipv4, Ipv4Addr};
use crate::percent::{decoded, encoded, percent_decode, percent_encode};
use crate::text::{
    chars_of, concat, decimal, decimal_string, first_index, has_prefix, index_of, last_index,
    padded, padded_string, parse_unsigned, parsed_unsigned, rindex_of, split_by, split_chars,
    starts_with, str_eq, string_of, trim_chars, trim_slice, trim_string, trimmed, utf8_lossy, views,
};

verus! {

/// Where to dial, and the pairing code of a scanned link.
#[derive(Debug)]
pub struct DialTarget {
    pub ip: Ipv4Addr,
    pub port: u16,
    pub code: Option<String>,
}

/// A dial target as a mathematical value.
pub struct TargetView {
    pub ip: Ipv4Addr,
    pub port: u16,
    pub code: Option<Seq<char>>,
}

impl View for DialTarget {
    type V = TargetView;

    open spec fn view(&self) -> TargetView {
        TargetView {
            ip: self.ip,
            port: self.port,
            code: match self.code {
                Some(c) => Some(c@),
                None => None,
            },
        }
    }
}

/// What was read of a link so far.
pub struct LinkView {
    pub ip: Option<Ipv4Addr>,
    pub port: u16,
    pub code: Option<Seq<char>>,
}

/// The text that a percent-encoded value stands for.
pub open spec fn value_text(v: Seq<char>) -> Seq<char> {
    utf8_lossy(decoded(encode_utf8(v)))
}

/// What one `key=value` pair of a link adds. Of a repeated key the last one
/// counts; unknown keys, pairs without `=`, unreadable ports and empty codes
/// are passed over.
pub open spec fn with_pair(link: LinkView, pair: Seq<char>) -> LinkView {
    let e = first_index(pair, '=');
    let k = pair.subrange(0, e);
    let v = pair.subrange(e + 1, pair.len() as int);
    if e >= pair.len() {
        link
    } else if k == "a"@ {
        LinkView { ip: parsed_ipv4(value_text(v)), ..link }
    } else if k == "p"@ {
        match parsed_unsigned(v, u16::MAX as nat) {
            Some(p) => LinkView { port: p as u16, ..link },
            None => link,
        }
    } else if k == "c"@ {
        if value_text(v).len() == 0 {
            link
        } else {
            LinkView { code: Some(value_text(v)), ..link }
        }
    } else {
        link
    }
}

pub open spec fn with_pairs(link: LinkView, pairs: Seq<Seq<char>>) -> LinkView
    decreases pairs.len(),
{
    if pairs.len() == 0 {
        link
    } else {
        with_pair(with_pairs(link, pairs.drop_last()), pairs.last())
    }
}

pub open spec fn no_link() -> LinkView {
    LinkView { ip: None, port: DEFAULT_TCP_PORT, code: None }
}

pub open spec fn is_ampersand(c: char) -> bool {
    c == '&'
}

fn ampersand(c: char) -> (r: bool)
    ensures
        r == is_ampersand(c),
{
    c == '&'
}

/// What follows the first question mark.
pub open spec fn query_of(rest: Seq<char>) -> Seq<char> {
    let q = first_index(rest, '?');
    if q >= rest.len() {
        Seq::empty()
    } else {
        rest.subrange(q + 1, rest.len() as int)
    }
}

/// The target that the part of a link behind its scheme denotes: it needs a
/// readable address.
pub open spec fn parsed_link(rest: Seq<char>) -> Option<TargetView> {
    let link = with_pairs(no_link(), split_by(query_of(rest), |c: char| is_ampersand(c)));
    match link.ip {
        Some(ip) => Some(TargetView { ip, port: link.port, code: link.code }),
        None => None,
    }
}

fn parse_pair_chars(rest: &[char]) -> (r: Option<DialTarget>)
    ensures
        match r {
            Some(t) => parsed_link(rest@) == Some(t@),
            None => parsed_link(rest@) is None,
        },
{
    let q: usize = index_of(rest, '?');
    let mut query: Vec<char> = Vec::new();
    if q < rest.len() {
        query = crate::text::copy_chars(vstd::slice::slice_subrange(rest, q + 1, rest.len()));
    }
    proof {
        assert(query@ =~= query_of(rest@));
    }
    let ghost amp = |c: char| is_ampersand(c);
    let pairs = split_chars(query.as_slice(), ampersand, Ghost(amp));
    let ghost texts = views(pairs@);
    let mut ip: Option<Ipv4Addr> = None;
    let mut port: u16 = DEFAULT_TCP_PORT;
    let mut code: Option<String> = None;
    let n: usize = pairs.len();
    for i in 0..n
        invariant
            n == pairs@.len(),
            texts == views(pairs@),
            with_pairs(no_link(), texts.subrange(0, i as int)) == (LinkView {
                ip,
                port,
                code: match code {
                    Some(c) => Some(c@),
                    None => None,
                },
            }),
    {
        let pair = pairs[i].as_slice();
        proof {
            assert(texts.subrange(0, i + 1).drop_last() =~= texts.subrange(0, i as int));
            assert(texts.subrange(0, i + 1).last() == pair@);
        }
        let e: usize = index_of(pair, '=');
        if e < pair.len() {
            let k = string_of(vstd::slice::slice_subrange(pair, 0, e));
            let v = vstd::slice::slice_subrange(pair, e + 1, pair.len());
            if str_eq(k.as_str(), "a") {
                let vs = string_of(v);
                let text = percent_decode(vs.as_str());
                let chars = chars_of(text.as_str());
                ip = parse_ipv4(chars.as_slice());
            } else if str_eq(k.as_str(), "p") {
                match parse_unsigned(v, 65535) {
                    Some(p) => {
                        port = p as u16;
                    },
                    None => {},
                }
            } else if str_eq(k.as_str(), "c") {
                let vs = string_of(v);
                let text = percent_decode(vs.as_str());
                if !text.as_str().is_empty() {
                    code = Some(text);
                }
            }
        }
    }
    proof {
        assert(texts.subrange(0, n as int) =~= texts);
    }
    match ip {
        Some(ip) => Some(DialTarget { ip, port, code }),
        None => None,
    }
}

/// Parses what follows `lanbeam://` in a link.
pub fn parse_pair_uri(rest: &str) -> (r: Option<DialTarget>)
    ensures
        match r {
            Some(t) => parsed_link(rest@) == Some(t@),
            None => parsed_link(rest@) is None,
        },
{
    let v = chars_of(rest);
    parse_pair_chars(v.as_slice())
}

/// The target that an input denotes: a link, or an address with an optional
/// port behind the last colon.
pub open spec fn parsed_target(input: Seq<char>) -> Option<TargetView> {
    let s = trimmed(input);
    let scheme = "lanbeam://"@;
    let colon = last_index(s, ':');
    if starts_with(s, scheme) {
        parsed_link(s.subrange(scheme.len() as int, s.len() as int))
    } else if colon < 0 {
        match parsed_ipv4(s) {
            Some(ip) => Some(TargetView { ip, port: DEFAULT_TCP_PORT, code: None }),
            None => None,
        }
    } else {
        match (
            parsed_ipv4(trimmed(s.subrange(0, colon))),
            parsed_unsigned(
                trimmed(s.subrange(colon + 1, s.len() as int)),
                u16::MAX as nat,
            ),
        ) {
            (Some(ip), Some(p)) => Some(TargetView { ip, port: p as u16, code: None }),
            _ => None,
        }
    }
}

/// Parses a plain `ip`, an `ip:port` or a `lanbeam://pair` link.
pub fn parse_dial_target(input: &str) -> (r: Option<DialTarget>)
    ensures
        match r {
            Some(t) => parsed_target(input@) == Some(t@),
            None => parsed_target(input@) is None,
        },
{
    let s = trim_chars(input);
    let scheme = chars_of("lanbeam://");
    if has_prefix(s.as_slice(), scheme.as_slice()) {
        let rest = vstd::slice::slice_subrange(s.as_slice(), scheme.len(), s.len());
        return parse_pair_chars(rest);
    }
    match rindex_of(s.as_slice(), ':') {
        None => match parse_ipv4(s.as_slice()) {
            Some(ip) => Some(DialTarget { ip, port: DEFAULT_TCP_PORT, code: None }),
            None => None,
        },
        Some(n) => {
            let len: usize = s.len();
            let host = trim_slice(vstd::slice::slice_subrange(s.as_slice(), 0, n));
            let tail = trim_slice(vstd::slice::slice_subrange(s.as_slice(), n + 1, len));
            match (parse_ipv4(host.as_slice()), parse_unsigned(tail.as_slice(), 65535)) {
                (Some(ip), Some(p)) => Some(DialTarget { ip, port: p as u16, code: None }),
                _ => None,
            }
        },
    }
}

// ── links ─────────────────────────────────────────────────────────────────

/// The query of an invitation.
pub open spec fn link_query(
    device_id: Seq<char>,
    name: Seq<char>,
    ip: Option<Ipv4Addr>,
    port: u16,
    code: Seq<char>,
) -> Seq<char> {
    "d="@ + encoded(encode_utf8(device_id)) + "&n="@ + encoded(encode_utf8(name)) + (match ip {
        Some(a) => "&a="@ + dotted(a),
        None => Seq::empty(),
    }) + "&p="@ + decimal(port as nat) + "&c="@ + code
}

/// The link of an invitation. Without a known address there is no `a`.
pub fn build_pair_uri(
    device_id: &str,
    name: &str,
    ip: Option<Ipv4Addr>,
    port: u16,
    code: &str,
) -> (r: String)
    ensures
        r@ == "lanbeam://pair?"@ + link_query(device_id@, name@, ip, port, code@),
{
    let mut s = "d=".to_owned();
    let d = percent_encode(device_id);
    s.append(d.as_str());
    s.append("&n=");
    let n = percent_encode(name);
    s.append(n.as_str());
    let ghost head = s@;
    match ip {
        Some(a) => {
            let addr = a.to_string();
            let part = concat("&a=", addr.as_str());
            s.append(part.as_str());
        },
        None => {
            proof {
                assert(head + Seq::<char>::empty() =~= head);
            }
        },
    }
    s.append("&p=");
    let p = decimal_string(port as u64);
    s.append(p.as_str());
    s.append("&c=");
    s.append(code);
    concat("lanbeam://pair?", s.as_str())
}

// ── codes ─────────────────────────────────────────────────────────────────

/// The number that the first eight bytes denote, most significant first.
pub open spec fn first_eight(b: Seq<u8>, n: nat) -> nat
    decreases n,
{
    if n == 0 {
        0
    } else {
        first_eight(b, (n - 1) as nat) * 256 + b[n - 1] as nat
    }
}

/// The pairing code of a random draw: six digits.
pub open spec fn code_text(b: Seq<u8>) -> Seq<char> {
    padded(first_eight(b, 8) % 1_000_000, 6)
}

/// The code that sixteen random bytes stand for.
pub fn pairing_code_from(bytes: &[u8; 16]) -> (r: String)
    ensures
        r@ == code_text(bytes@),
{
    let mut n: u64 = 0;
    for i in 0..8
        invariant
            bytes@.len() == 16,
            n == first_eight(bytes@, i as nat),
            i == 0 ==> n == 0,
            i == 1 ==> n < 0x100,
            i == 2 ==> n < 0x1_0000,
            i == 3 ==> n < 0x100_0000,
            i == 4 ==> n < 0x1_0000_0000,
            i == 5 ==> n < 0x100_0000_0000,
            i == 6 ==> n < 0x1_0000_0000_0000,
            i == 7 ==> n < 0x100_0000_0000_0000,
    {
        n = n * 256 + bytes[i] as u64;
    }
    padded_string(n % 1_000_000, 6)
}

/// `uuid::Uuid::new_v4` and `Uuid::into_bytes`: sixteen bytes, of which the
/// seventh begins with the version and the ninth with the variant. All other
/// bits are drawn from the operating system's random source; nothing is said of
/// them.
#[verifier::external_body]
fn random_uuid() -> (r: [u8; 16])
    ensures
        r@[6] as nat / 16 == 4,
        r@[8] as nat / 64 == 2,
{
    uuid::Uuid::new_v4().into_bytes()
}

/// Six decimal digits.
pub open spec fn code_shaped(s: Seq<char>) -> bool {
    s.len() == 6 && crate::text::all_digits(s)
}

/// A fresh random pairing code.
pub fn fresh_pairing_code() -> (r: String)
    ensures
        code_shaped(r@),
{
    let bytes = random_uuid();
    proof {
        law_code_has_six_digits(bytes@);
    }
    pairing_code_from(&bytes)
}

/// The code to present: the entered one, or else the one of the link.
pub fn pick_code(entered: String, from_link: Option<String>) -> (r: String)
    ensures
        r@ == if trimmed(entered@).len() > 0 {
            trimmed(entered@)
        } else {
            match from_link {
                Some(c) => c@,
                None => Seq::<char>::empty(),
            }
        },
{
    let typed = trim_string(entered.as_str());
    if !typed.as_str().is_empty() {
        typed
    } else {
        match from_link {
            Some(c) => c,
            None => String::new(),
        }
    }
}

/// Every draw gives a code of exactly six digits.
pub proof fn law_code_has_six_digits(b: Seq<u8>)
    ensures
        code_shaped(code_text(b)),
{
    let n = first_eight(b, 8) % 1_000_000;
    assert(vstd::arithmetic::power::pow(10, 6) == 1_000_000) by {
        reveal_with_fuel(vstd::arithmetic::power::pow, 7);
    }
    crate::text::lemma_decimal_len(n, 6);
    crate::text::lemma_decimal_value(n);
    let d = decimal(n);
    let s = padded(n, 6);
    assert forall|i: int| 0 <= i < s.len() implies crate::text::ascii_digit(#[trigger] s[i]) by {
        if d.len() < 6 {
            let z = (6 - d.len()) as int;
            if i >= z {
                assert(s[i] == d[i - z]);
            } else {
                assert(s[i] == '0');
            }
        }
    }
}

// ── the advertised address ────────────────────────────────────────────────

/// How likely an address can be reached from the local network; lower is
/// better. Ranges that virtual adapters use by default come behind ordinary
/// ones, link-local addresses last.
pub open spec fn rank_of(ip: Ipv4Addr) -> nat {
    let a = crate::net::octet(ip, 0);
    let b = crate::net::octet(ip, 1);
    if a == 169 && b == 254 {
        3
    } else if a == 172 && 16 <= b <= 31 {
        2
    } else if (a == 192 && b == 168) || a == 10 {
        0
    } else {
        1
    }
}

pub fn lan_ip_rank(ip: Ipv4Addr) -> (r: u8)
    ensures
        r == rank_of(ip),
{
    let a: u8 = ip.octet_at(0);
    let b: u8 = ip.octet_at(1);
    if a == 169 && b == 254 {
        3
    } else if a == 172 && 16 <= b && b <= 31 {
        2
    } else if (a == 192 && b == 168) || a == 10 {
        0
    } else {
        1
    }
}

/// Whether `a` is to be advertised rather than `b`: the better rank, then the
/// smaller address.
pub open spec fn preferred(a: Ipv4Addr, b: Ipv4Addr) -> bool {
    rank_of(a) < rank_of(b) || (rank_of(a) == rank_of(b) && a.bits <= b.bits)
}

/// Whether `r` is the address of an interface to which none is preferred.
pub open spec fn best_among(r: Option<Ipv4Addr>, ifaces: Seq<Iface>) -> bool {
    match r {
        Some(ip) => {
            &&& exists|i: int| 0 <= i < ifaces.len() && (#[trigger] ifaces[i]).ip == ip
            &&& forall|i: int| 0 <= i < ifaces.len() ==> preferred(ip, (#[trigger] ifaces[i]).ip)
        },
        None => ifaces.len() == 0,
    }
}

/// The best address of the interfaces.
pub fn best_lan_ip(ifaces: Vec<Iface>) -> (r: Option<Ipv4Addr>)
    ensures
        best_among(r, ifaces@),
{
    if ifaces.len() == 0 {
        return None;
    }
    let mut best: usize = 0;
    for i in 1..ifaces.len()
        invariant
            best < ifaces@.len(),
            forall|k: int|
                0 <= k < i ==> preferred(ifaces@[best as int].ip, (#[trigger] ifaces@[k]).ip),
    {
        let a = ifaces[best].ip;
        let b = ifaces[i].ip;
        let ra: u8 = lan_ip_rank(a);
        let rb: u8 = lan_ip_rank(b);
        if rb < ra || (rb == ra && b.bits < a.bits) {
            best = i;
        }
    }
    Some(ifaces[best].ip)
}

/// The address that an invitation names: of the chosen interface if it is
/// there, else the best of all.
pub fn first_lan_ip(all: Vec<Iface>, filter: Option<Ipv4Addr>) -> (r: Option<Ipv4Addr>)
    ensures
        best_among(r, selected(all@, filter).0),
{
    let (ifaces, _fell_back) = select(all, filter);
    best_lan_ip(ifaces)
}

// ── laws ──────────────────────────────────────────────────────────────────

/// A pair `key=value` with a one-letter key is taken apart at its first equals
/// sign.
pub proof fn lemma_pair_parts(k: char, v: Seq<char>)
    requires
        k != '=',
    ensures
        first_index(seq![k, '='] + v, '=') == 1,
        (seq![k, '='] + v).subrange(0, 1) == seq![k],
        (seq![k, '='] + v).subrange(2, (v.len() + 2) as int) == v,
{
    let pair = seq![k, '='] + v;
    assert(pair[0] == k && pair[1] == '=');
    crate::text::lemma_first_index_unique(pair, '=', 1);
    assert(pair.subrange(0, 1) =~= seq![k]);
    assert(pair.subrange(2, pair.len() as int) =~= v);
}

/// A digit stands for itself in a query.
proof fn lemma_digits_plain(s: Seq<char>)
    requires
        crate::text::all_digits(s),
    ensures
        value_text(s) == s,
        forall|i: int| 0 <= i < s.len() ==> !is_ampersand(#[trigger] s[i]),
{
    assert forall|i: int| 0 <= i < s.len() implies crate::percent::plain(#[trigger] s[i]) by {
        assert(crate::text::ascii_digit(s[i]));
    }
    assert forall|i: int| 0 <= i < s.len() implies !is_ampersand(#[trigger] s[i]) by {
        assert(crate::text::ascii_digit(s[i]));
    }
    crate::percent::lemma_plain_decodes_to_itself(s);
}

/// The characters of a dotted address are digits and dots.
pub proof fn lemma_dotted_chars(a: Ipv4Addr)
    ensures
        forall|i: int|
            0 <= i < dotted(a).len() ==> crate::text::ascii_digit(#[trigger] dotted(a)[i])
                || dotted(a)[i] == '.',
{
    reveal_strlit(".");
    let d0 = decimal(crate::net::octet(a, 0));
    let d1 = decimal(crate::net::octet(a, 1));
    let d2 = decimal(crate::net::octet(a, 2));
    let d3 = decimal(crate::net::octet(a, 3));
    crate::text::lemma_decimal_value(crate::net::octet(a, 0));
    crate::text::lemma_decimal_value(crate::net::octet(a, 1));
    crate::text::lemma_decimal_value(crate::net::octet(a, 2));
    crate::text::lemma_decimal_value(crate::net::octet(a, 3));
    let s = dotted(a);
    assert forall|i: int| 0 <= i < s.len() implies crate::text::ascii_digit(#[trigger] s[i]) || s[i]
        == '.' by {
        let n0 = d0.len() as int;
        let n1 = n0 + 1 + d1.len();
        let n2 = n1 + 1 + d2.len();
        if i < n0 {
            assert(s[i] == d0[i]);
        } else if i == n0 {
            assert(s[i] == '.');
        } else if i < n1 {
            assert(s[i] == d1[i - n0 - 1]);
        } else if i == n1 {
            assert(s[i] == '.');
        } else if i < n2 {
            assert(s[i] == d2[i - n1 - 1]);
        } else if i == n2 {
            assert(s[i] == '.');
        } else {
            assert(s[i] == d3[i - n2 - 1]);
        }
    }
}

proof fn lemma_no_ampersand(s: Seq<char>, t: Seq<char>)
    requires
        forall|i: int| 0 <= i < s.len() ==> !is_ampersand(#[trigger] s[i]),
        forall|i: int| 0 <= i < t.len() ==> !is_ampersand(#[trigger] t[i]),
    ensures
        split_by(s + t, |c: char| is_ampersand(c)) == seq![s + t],
{
    let p = |c: char| is_ampersand(c);
    let u = s + t;
    assert forall|i: int| 0 <= i < u.len() implies !p(#[trigger] u[i]) by {
        if i < s.len() {
            assert(u[i] == s[i]);
        } else {
            assert(u[i] == t[i - s.len()]);
        }
    }
    crate::text::lemma_split_none(u, p);
}

proof fn lemma_encoded_no_ampersand(s: Seq<char>)
    ensures
        forall|i: int|
            0 <= i < encoded(encode_utf8(s)).len() ==> !is_ampersand(
                #[trigger] encoded(encode_utf8(s))[i],
            ),
{
    let e = encoded(encode_utf8(s));
    crate::percent::law_encoded_is_inert(encode_utf8(s));
    assert forall|i: int| 0 <= i < e.len() implies !is_ampersand(#[trigger] e[i]) by {
        assert(crate::percent::encoded_char(e[i]));
    }
}

/// The pairs of an invitation with an address.
proof fn lemma_link_pairs(
    device_id: Seq<char>,
    name: Seq<char>,
    ip: Ipv4Addr,
    port: u16,
    code: Seq<char>,
)
    requires
        crate::text::all_digits(code),
    ensures
        split_by(
            link_query(device_id, name, Some(ip), port, code),
            |c: char| is_ampersand(c),
        ) == seq![
            seq!['d', '='] + encoded(encode_utf8(device_id)),
            seq!['n', '='] + encoded(encode_utf8(name)),
            seq!['a', '='] + dotted(ip),
            seq!['p', '='] + decimal(port as nat),
            seq!['c', '='] + code,
        ],
{
    reveal_strlit("d=");
    reveal_strlit("&n=");
    reveal_strlit("&a=");
    reveal_strlit("&p=");
    reveal_strlit("&c=");
    let p = |c: char| is_ampersand(c);
    let e1 = encoded(encode_utf8(device_id));
    let e2 = encoded(encode_utf8(name));
    let e3 = dotted(ip);
    let e4 = decimal(port as nat);
    let x1 = seq!['d', '='] + e1;
    let x2 = seq!['n', '='] + e2;
    let x3 = seq!['a', '='] + e3;
    let x4 = seq!['p', '='] + e4;
    let x5 = seq!['c', '='] + code;
    lemma_encoded_no_ampersand(device_id);
    lemma_encoded_no_ampersand(name);
    lemma_dotted_chars(ip);
    assert forall|i: int| 0 <= i < e3.len() implies !is_ampersand(#[trigger] e3[i]) by {
        assert(crate::text::ascii_digit(e3[i]) || e3[i] == '.');
    }
    crate::text::lemma_decimal_value(port as nat);
    lemma_digits_plain(e4);
    lemma_digits_plain(code);
    lemma_no_ampersand(seq!['d', '='], e1);
    lemma_no_ampersand(seq!['n', '='], e2);
    lemma_no_ampersand(seq!['a', '='], e3);
    lemma_no_ampersand(seq!['p', '='], e4);
    lemma_no_ampersand(seq!['c', '='], code);
    let amp = seq!['&'];
    let q = x1 + amp + x2 + amp + x3 + amp + x4 + amp + x5;
    assert(link_query(device_id, name, Some(ip), port, code) =~= q);
    crate::text::lemma_split_concat(x1, '&', x2, p);
    crate::text::lemma_split_concat(x1 + amp + x2, '&', x3, p);
    crate::text::lemma_split_concat(x1 + amp + x2 + amp + x3, '&', x4, p);
    crate::text::lemma_split_concat(x1 + amp + x2 + amp + x3 + amp + x4, '&', x5, p);
    assert(split_by(q, p) =~= seq![x1, x2, x3, x4, x5]);
}

/// A text that begins and ends with other characters has no white space to
/// trim.
pub proof fn lemma_nothing_to_trim(s: Seq<char>)
    requires
        s.len() > 0,
        !crate::text::white_space(s[0]),
        !crate::text::white_space(s.last()),
    ensures
        trimmed(s) == s,
{
}

/// The query of a whole link.
proof fn lemma_query_of_link(query: Seq<char>)
    requires
        query.len() > 0,
        !crate::text::white_space(query.last()),
    ensures
        parsed_target("lanbeam://pair?"@ + query) == parsed_link(
            seq!['p', 'a', 'i', 'r', '?'] + query,
        ),
        query_of(seq!['p', 'a', 'i', 'r', '?'] + query) == query,
{
    reveal_strlit("lanbeam://pair?");
    reveal_strlit("lanbeam://");
    let s = "lanbeam://pair?"@ + query;
    let scheme = "lanbeam://"@;
    assert(s[0] == 'l');
    assert(s.last() == query.last());
    lemma_nothing_to_trim(s);
    assert(s.subrange(0, scheme.len() as int) =~= scheme);
    let rest = seq!['p', 'a', 'i', 'r', '?'] + query;
    assert(s.subrange(scheme.len() as int, s.len() as int) =~= rest);
    crate::text::lemma_first_index_unique(rest, '?', 4);
    assert(rest.subrange(5, rest.len() as int) =~= query);
}

/// The keys that carry no address, port or code are passed over.
proof fn lemma_other_keys(l: LinkView, k: char, v: Seq<char>)
    requires
        k == 'd' || k == 'n',
    ensures
        with_pair(l, seq![k, '='] + v) == l,
{
    reveal_strlit("a");
    reveal_strlit("p");
    reveal_strlit("c");
    lemma_pair_parts(k, v);
    assert(seq![k][0] != "a"@[0] && seq![k][0] != "p"@[0] && seq![k][0] != "c"@[0]);
}

proof fn lemma_address_key(l: LinkView, ip: Ipv4Addr)
    ensures
        with_pair(l, seq!['a', '='] + dotted(ip)) == (LinkView { ip: Some(ip), ..l }),
{
    reveal_strlit("a");
    let v = dotted(ip);
    lemma_pair_parts('a', v);
    assert("a"@ =~= seq!['a']);
    lemma_dotted_chars(ip);
    assert forall|i: int| 0 <= i < v.len() implies crate::percent::plain(#[trigger] v[i]) by {
        assert(crate::text::ascii_digit(v[i]) || v[i] == '.');
    }
    crate::percent::lemma_plain_decodes_to_itself(v);
    crate::net::law_dotted_parses_back(ip);
}

proof fn lemma_port_key(l: LinkView, port: u16)
    ensures
        with_pair(l, seq!['p', '='] + decimal(port as nat)) == (LinkView { port, ..l }),
{
    reveal_strlit("a");
    reveal_strlit("p");
    lemma_pair_parts('p', decimal(port as nat));
    assert("p"@ =~= seq!['p']);
    assert(seq!['p'][0] != "a"@[0]);
    crate::text::law_decimal_parses_back(port as nat, u16::MAX as nat);
}

proof fn lemma_code_key(l: LinkView, code: Seq<char>)
    requires
        code.len() > 0,
        crate::text::all_digits(code),
    ensures
        with_pair(l, seq!['c', '='] + code) == (LinkView { code: Some(code), ..l }),
{
    reveal_strlit("a");
    reveal_strlit("p");
    reveal_strlit("c");
    lemma_pair_parts('c', code);
    assert("c"@ =~= seq!['c']);
    assert(seq!['c'][0] != "a"@[0] && seq!['c'][0] != "p"@[0]);
    lemma_digits_plain(code);
}

/// Parsing the link of an invitation gives back the address, the port and the
/// code that went into it, whatever the device id and the name.
pub proof fn law_pair_link_round_trips(
    device_id: Seq<char>,
    name: Seq<char>,
    ip: Ipv4Addr,
    port: u16,
    code: Seq<char>,
)
    requires
        code.len() > 0,
        crate::text::all_digits(code),
    ensures
        parsed_target("lanbeam://pair?"@ + link_query(device_id, name, Some(ip), port, code))
            == Some(TargetView { ip, port, code: Some(code) }),
{
    let query = link_query(device_id, name, Some(ip), port, code);
    assert(query.last() == code.last());
    assert(crate::text::ascii_digit(code[code.len() - 1]));
    lemma_query_of_link(query);
    lemma_link_pairs(device_id, name, ip, port, code);
    let x1 = seq!['d', '='] + encoded(encode_utf8(device_id));
    let x2 = seq!['n', '='] + encoded(encode_utf8(name));
    let x3 = seq!['a', '='] + dotted(ip);
    let x4 = seq!['p', '='] + decimal(port as nat);
    let x5 = seq!['c', '='] + code;
    let l0 = no_link();
    lemma_other_keys(l0, 'd', encoded(encode_utf8(device_id)));
    lemma_other_keys(l0, 'n', encoded(encode_utf8(name)));
    lemma_address_key(l0, ip);
    let l3 = LinkView { ip: Some(ip), ..l0 };
    lemma_port_key(l3, port);
    let l4 = LinkView { port, ..l3 };
    lemma_code_key(l4, code);
    lemma_five(l0, x1, x2, x3, x4, x5);
}

proof fn lemma_five(
    l0: LinkView,
    x1: Seq<char>,
    x2: Seq<char>,
    x3: Seq<char>,
    x4: Seq<char>,
    x5: Seq<char>,
)
    ensures
        with_pairs(l0, seq![x1, x2, x3, x4, x5]) == with_pair(
            with_pair(with_pair(with_pair(with_pair(l0, x1), x2), x3), x4),
            x5,
        ),
{
    assert(seq![x1, x2, x3, x4, x5].drop_last() =~= seq![x1, x2, x3, x4]);
    assert(seq![x1, x2, x3, x4].drop_last() =~= seq![x1, x2, x3]);
    assert(seq![x1, x2, x3].drop_last() =~= seq![x1, x2]);
    assert(seq![x1, x2].drop_last() =~= seq![x1]);
    assert(seq![x1].drop_last() =~= Seq::<Seq<char>>::empty());
    reveal_with_fuel(with_pairs, 6);
}

/// A real local address is advertised rather than one of a virtual adapter or
/// a link-local one.
pub proof fn law_real_lan_beats_virtual(a: Ipv4Addr, b: Ipv4Addr)
    requires
        (crate::net::octet(a, 0) == 192 && crate::net::octet(a, 1) == 168) || crate::net::octet(
            a,
            0,
        ) == 10,
        (crate::net::octet(b, 0) == 172 && 16 <= crate::net::octet(b, 1) <= 31) || b.link_local(),
    ensures
        preferred(a, b),
        !preferred(b, a),
{
}

} // verus!
