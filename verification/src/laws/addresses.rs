//! Addresses as numbers and as texts, and which of them are private.

use vstd::prelude::*;

use crate::laws::texts::{digits_only, lemma_decimal_digits, lemma_worth, worth, woven};
use crate::net::{
    dotted, law_dotted_parses_back, octet, octet_text, parse_ipv4, parsed_ipv4, IpAddr, Ipv4Addr,
};
use crate::share::{denied, Denied, Reply};
use crate::share_links::{is_on_private_network, lan_gate};
use crate::text::{decimal, digits_value, split_by};

verus! {

/// The octets of an address are its number in base 256, the first most
/// significant.
pub proof fn law_octets_make_up_the_address(
    a: u8,
    b: u8,
    c: u8,
    d: u8,
    made: Ipv4Addr,
    x: &Ipv4Addr,
    o0: u8,
    o1: u8,
    o2: u8,
    o3: u8,
)
    requires
        call_ensures(Ipv4Addr::new, (a, b, c, d), made),
        call_ensures(Ipv4Addr::octet_at, (x, 0usize), o0),
        call_ensures(Ipv4Addr::octet_at, (x, 1usize), o1),
        call_ensures(Ipv4Addr::octet_at, (x, 2usize), o2),
        call_ensures(Ipv4Addr::octet_at, (x, 3usize), o3),
    ensures
        made.bits == 16_777_216 * a + 65_536 * b + 256 * c + d,
        x.bits == 16_777_216 * o0 + 65_536 * o1 + 256 * o2 + o3,
{
    lemma_octets_sum(*x);
}

proof fn lemma_octets_sum(x: Ipv4Addr)
    ensures
        x.bits == 16_777_216 * octet(x, 0) + 65_536 * octet(x, 1) + 256 * octet(x, 2) + octet(x, 3),
        octet(x, 0) < 256 && octet(x, 1) < 256 && octet(x, 2) < 256 && octet(x, 3) < 256,
{
    let n = x.bits as nat;
    let hi = n / 0x1_0000;
    let lo = n % 0x1_0000;
    assert(n / 0x100_0000 == hi / 256);
    assert(n / 0x100 % 256 == lo / 256) by {
        assert(n / 0x100 == hi * 256 + lo / 256);
    }
    assert(n % 256 == lo % 256);
}

/// A dotted address: four numbers below 256 without leading zeros, and dots
/// between them.
pub open spec fn is_dotted(s: Seq<char>, parts: Seq<Seq<char>>) -> bool {
    &&& parts.len() == 4
    &&& s == woven(parts, seq!['.', '.', '.'])
    &&& forall|i: int|
        0 <= i < 4 ==> {
            let p = #[trigger] parts[i];
            p.len() >= 1 && digits_only(p) && worth(p) <= 255 && (p[0] == '0' ==> p.len() == 1)
        }
}

proof fn lemma_woven_four(a: Seq<char>, b: Seq<char>, c: Seq<char>, d: Seq<char>)
    ensures
        woven(seq![a, b, c, d], seq!['.', '.', '.']) == a + seq!['.'] + b + seq!['.'] + c + seq![
            '.',
        ] + d,
{
    let p4 = seq![a, b, c, d];
    let s3 = seq!['.', '.', '.'];
    let p3 = seq![a, b, c];
    let s2 = seq!['.', '.'];
    let p2 = seq![a, b];
    let s1 = seq!['.'];
    let p1 = seq![a];
    assert(p4.drop_last() =~= p3 && s3.drop_last() =~= s2);
    assert(p3.drop_last() =~= p2 && s2.drop_last() =~= s1);
    assert(p2.drop_last() =~= p1 && s1.drop_last() =~= Seq::<char>::empty());
    assert(woven(p1, Seq::empty()) == a);
    assert(woven(p2, s1) == a + seq!['.'] + b);
    assert(woven(p3, s2) == a + seq!['.'] + b + seq!['.'] + c);
}

/// The text of an address is its four octets in decimal: weighed by the powers
/// of 256 they are the address.
pub proof fn law_dotted_text_is_the_address(x: &Ipv4Addr, s: String) -> (p: Seq<Seq<char>>)
    requires
        call_ensures(Ipv4Addr::to_string, (x,), s),
    ensures
        is_dotted(s@, p),
        x.bits == 16_777_216 * worth(p[0]) + 65_536 * worth(p[1]) + 256 * worth(p[2]) + worth(p[3]),
{
    reveal_strlit(".");
    assert("."@ =~= seq!['.']);
    lemma_octets_sum(*x);
    lemma_decimal_digits(octet(*x, 0));
    lemma_decimal_digits(octet(*x, 1));
    lemma_decimal_digits(octet(*x, 2));
    lemma_decimal_digits(octet(*x, 3));
    let p = seq![
        decimal(octet(*x, 0)),
        decimal(octet(*x, 1)),
        decimal(octet(*x, 2)),
        decimal(octet(*x, 3)),
    ];
    lemma_woven_four(p[0], p[1], p[2], p[3]);
    p
}

proof fn lemma_digit_back(c: char)
    requires
        48 <= c as u32 && c as u32 <= 57,
    ensures
        crate::text::digit((c as u32 - 48) as nat) == c,
{
}

/// A number without leading zeros is the decimal form of its worth.
pub proof fn lemma_decimal_of_worth(s: Seq<char>)
    requires
        s.len() >= 1,
        digits_only(s),
        s.len() > 1 ==> s[0] != '0',
    ensures
        worth(s) >= 0,
        s[0] != '0' ==> worth(s) >= 1,
        decimal(worth(s) as nat) == s,
    decreases s.len(),
{
    let head = s.subrange(0, s.len() - 1);
    let last = s[s.len() - 1];
    assert(48 <= last as u32 && last as u32 <= 57);
    lemma_digit_back(last);
    if s.len() == 1 {
        assert(worth(head) == 0);
        assert(48 <= s[0] as u32);
        assert(s =~= seq![last]);
    } else {
        assert forall|i: int| 0 <= i < head.len() implies 48 <= (#[trigger] head[i]) as u32
            && head[i] as u32 <= 57 by {
            assert(head[i] == s[i]);
        }
        lemma_decimal_of_worth(head);
        let v = worth(s);
        assert(v == 10 * worth(head) + (last as u32 - 48));
        assert(v / 10 == worth(head) && v % 10 == last as u32 - 48);
        assert(decimal(v as nat) == decimal(worth(head) as nat).push(last));
        assert(s =~= head.push(last));
    }
}

proof fn lemma_octet_text_is_decimal(p: Seq<char>)
    requires
        octet_text(p),
    ensures
        decimal(digits_value(p)) == p,
{
    assert(digits_only(p)) by {
        assert forall|i: int| 0 <= i < p.len() implies 48 <= (#[trigger] p[i]) as u32 && p[i] as u32
            <= 57 by {
            assert(crate::text::ascii_digit(p[i]));
        }
    }
    lemma_worth(p);
    lemma_decimal_of_worth(p);
}

/// A text is read as an address if and only if it is the text of that address:
/// nothing else is read, leading zeros and spaces included.
pub proof fn law_only_its_own_text_is_read_as_an_address(
    v: &[char],
    r: Option<Ipv4Addr>,
    x: &Ipv4Addr,
    s: String,
)
    requires
        call_ensures(parse_ipv4, (v,), r),
        call_ensures(Ipv4Addr::to_string, (x,), s),
    ensures
        r == Some(*x) <==> v@ == s@,
{
    law_dotted_parses_back(*x);
    if r == Some(*x) {
        lemma_parsed_is_dotted(v@, *x);
    }
}

#[verifier::rlimit(40)]
pub proof fn lemma_parsed_is_dotted(v: Seq<char>, x: Ipv4Addr)
    requires
        parsed_ipv4(v) == Some(x),
    ensures
        v == dotted(x),
{
    let dot = |c: char| crate::net::is_dot(c);
    let p = split_by(v, dot);
    let seps = crate::laws::texts::law_split_loses_only_separators(v, dot);
    lemma_octet_text_is_decimal(p[0]);
    lemma_octet_text_is_decimal(p[1]);
    lemma_octet_text_is_decimal(p[2]);
    lemma_octet_text_is_decimal(p[3]);
    assert(dot(seps[0]) && dot(seps[1]) && dot(seps[2]));
    assert(seps =~= seq!['.', '.', '.']);
    assert(p =~= seq![p[0], p[1], p[2], p[3]]);
    lemma_woven_four(p[0], p[1], p[2], p[3]);
    reveal_strlit(".");
    assert("."@ =~= seq!['.']);
    let a = digits_value(p[0]);
    let b = digits_value(p[1]);
    let c = digits_value(p[2]);
    let d = digits_value(p[3]);
    let n = a * 0x100_0000 + b * 0x1_0000 + c * 0x100 + d;
    assert(x.bits == n);
    let hi = a * 256 + b;
    let lo = c * 256 + d;
    assert(n == hi * 0x1_0000 + lo);
    assert(n / 0x1_0000 == hi && n % 0x1_0000 == lo);
    assert(hi / 256 == a && hi % 256 == b);
    assert(lo / 256 == c && lo % 256 == d);
    assert(n / 0x100_0000 == (n / 0x1_0000) / 256);
    assert(n / 0x100 % 256 == lo / 256) by {
        assert(n / 0x100 == hi * 256 + lo / 256);
    }
    assert(n % 256 == lo % 256);
    assert(octet(x, 0) == a && octet(x, 1) == b && octet(x, 2) == c && octet(x, 3) == d);
}

/// The private IPv4 addresses as ranges of numbers: 127.0.0.0/8, 10.0.0.0/8,
/// 172.16.0.0/12, 192.168.0.0/16 and 169.254.0.0/16.
pub open spec fn local_v4(bits: int) -> bool {
    ||| 0x7F00_0000 <= bits <= 0x7FFF_FFFF
    ||| 0x0A00_0000 <= bits <= 0x0AFF_FFFF
    ||| 0xAC10_0000 <= bits <= 0xAC1F_FFFF
    ||| 0xC0A8_0000 <= bits <= 0xC0A8_FFFF
    ||| 0xA9FE_0000 <= bits <= 0xA9FE_FFFF
}

/// The private addresses of either family: in IPv6 ::1, fc00::/7, fe80::/10, and
/// ::ffff:0:0/96 with a private IPv4 address in it.
pub open spec fn local(ip: IpAddr) -> bool {
    match ip {
        IpAddr::V4(a) => local_v4(a.bits as int),
        IpAddr::V6(b) => {
            ||| b == 1
            ||| 0xFC00_0000_0000_0000_0000_0000_0000_0000 <= b
                <= 0xFDFF_FFFF_FFFF_FFFF_FFFF_FFFF_FFFF_FFFF
            ||| 0xFE80_0000_0000_0000_0000_0000_0000_0000 <= b
                <= 0xFEBF_FFFF_FFFF_FFFF_FFFF_FFFF_FFFF_FFFF
            ||| 0xFFFF_0000_0000 <= b <= 0xFFFF_FFFF_FFFF && local_v4(b - 0xFFFF_0000_0000)
        },
    }
}

proof fn lemma_local_v4(a: Ipv4Addr)
    ensures
        a.loopback() == (0x7F00_0000 <= a.bits <= 0x7FFF_FFFF),
        a.private() == (0x0A00_0000 <= a.bits <= 0x0AFF_FFFF || 0xAC10_0000 <= a.bits <= 0xAC1F_FFFF
            || 0xC0A8_0000 <= a.bits <= 0xC0A8_FFFF),
        a.link_local() == (0xA9FE_0000 <= a.bits <= 0xA9FE_FFFF),
        (a.loopback() || a.private() || a.link_local()) == local_v4(a.bits as int),
{
    lemma_octets_sum(a);
}

/// The tests on an IPv4 address, as ranges of numbers.
pub proof fn law_address_ranges(a: &Ipv4Addr, loopback: bool, private: bool, link: bool)
    requires
        call_ensures(Ipv4Addr::is_loopback, (a,), loopback),
        call_ensures(Ipv4Addr::is_private, (a,), private),
        call_ensures(Ipv4Addr::is_link_local, (a,), link),
    ensures
        loopback == (0x7F00_0000 <= a.bits <= 0x7FFF_FFFF),
        private == (0x0A00_0000 <= a.bits <= 0x0AFF_FFFF || 0xAC10_0000 <= a.bits <= 0xAC1F_FFFF
            || 0xC0A8_0000 <= a.bits <= 0xC0A8_FFFF),
        link == (0xA9FE_0000 <= a.bits <= 0xA9FE_FFFF),
{
    lemma_local_v4(*a);
}

/// A request from a private address passes, and any other is answered as an
/// unknown share is.
#[verifier::rlimit(40)]
pub proof fn law_outsiders_see_an_unknown_share(
    peer: IpAddr,
    private: bool,
    r: Option<Reply>,
    unknown: Reply,
)
    requires
        call_ensures(is_on_private_network, (peer,), private),
        call_ensures(lan_gate, (peer,), r),
        call_ensures(denied, (Denied::NotFound,), unknown),
    ensures
        private == local(peer),
        r is None <==> local(peer),
        r matches Some(reply) ==> reply.status == 404 && reply.location is None && reply.body@
            == unknown.body@,
{
    match peer {
        IpAddr::V4(a) => {
            lemma_local_v4(a);
        },
        IpAddr::V6(b) => {
            lemma_local_v4(Ipv4Addr { bits: (b % 0x1_0000_0000) as u32 });
        },
    }
}

} // verus!
