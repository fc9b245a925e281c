//! Internet addresses as plain values, and the text form of IPv4 addresses.

use vstd::prelude::*;

use crate::keymap::Key;
use crate::text::{
    all_digits, ascii_digit, decimal, decimal_string, digits_value, lemma_decimal_len,
    lemma_decimal_no_leading_zero, lemma_decimal_value, lemma_split_concat, lemma_split_none,
    parse_unsigned, split_by, split_chars, views,
};

verus! {

/// An IPv4 address as its 32 bits, the first octet most significant.
#[derive(Debug, Clone, Copy, PartialEq, Eq, Structural)]
pub struct Ipv4Addr {
    pub bits: u32,
}

/// An address of either family.
#[derive(Debug, Clone, Copy, PartialEq, Eq, Structural)]
pub enum IpAddr {
    V4(Ipv4Addr),
    V6(u128),
}

impl View for IpAddr {
    type V = IpAddr;

    open spec fn view(&self) -> IpAddr {
        *self
    }
}

impl Key for IpAddr {
    fn same(&self, other: &Self) -> (r: bool) {
        *self == *other
    }
}

/// The four octets of an address.
pub open spec fn octet(a: Ipv4Addr, i: int) -> nat {
    if i == 0 {
        a.bits as nat / 0x100_0000
    } else if i == 1 {
        a.bits as nat / 0x1_0000 % 256
    } else if i == 2 {
        a.bits as nat / 0x100 % 256
    } else {
        a.bits as nat % 256
    }
}

/// The address with the given octets.
pub open spec fn of_octets(a: nat, b: nat, c: nat, d: nat) -> Ipv4Addr {
    Ipv4Addr { bits: (a * 0x100_0000 + b * 0x1_0000 + c * 0x100 + d) as u32 }
}

/// The dotted decimal form.
pub open spec fn dotted(a: Ipv4Addr) -> Seq<char> {
    decimal(octet(a, 0)) + "."@ + decimal(octet(a, 1)) + "."@ + decimal(octet(a, 2)) + "."@
        + decimal(octet(a, 3))
}

proof fn lemma_octets(a: u32, b: u32, c: u32, d: u32, bits: u32)
    requires
        a < 256,
        b < 256,
        c < 256,
        d < 256,
        bits == a * 0x100_0000 + b * 0x1_0000 + c * 0x100 + d,
    ensures
        bits / 0x100_0000 == a,
        bits / 0x1_0000 % 256 == b,
        bits / 0x100 % 256 == c,
        bits % 256 == d,
{
    let hi = a * 256 + b;
    let lo = c * 256 + d;
    assert(bits == hi * 0x1_0000 + lo);
    assert(bits / 0x1_0000 == hi && bits % 0x1_0000 == lo);
    assert(hi / 256 == a && hi % 256 == b);
    assert(lo / 256 == c && lo % 256 == d);
    assert(bits / 0x100_0000 == (bits / 0x1_0000) / 256);
    assert(bits / 0x100 % 256 == lo / 256) by {
        assert(bits / 0x100 == hi * 256 + lo / 256);
    }
    assert(bits % 256 == lo % 256);
}

impl Ipv4Addr {
    pub fn new(a: u8, b: u8, c: u8, d: u8) -> (r: Ipv4Addr)
        ensures
            r == of_octets(a as nat, b as nat, c as nat, d as nat),
            octet(r, 0) == a,
            octet(r, 1) == b,
            octet(r, 2) == c,
            octet(r, 3) == d,
    {
        let bits: u32 = a as u32 * 0x100_0000 + b as u32 * 0x1_0000 + c as u32 * 0x100 + d as u32;
        proof {
            lemma_octets(a as u32, b as u32, c as u32, d as u32, bits);
        }
        Ipv4Addr { bits }
    }

    pub fn octet_at(&self, i: usize) -> (r: u8)
        requires
            i < 4,
        ensures
            r == octet(*self, i as int),
    {
        if i == 0 {
            (self.bits / 0x100_0000) as u8
        } else if i == 1 {
            (self.bits / 0x1_0000 % 256) as u8
        } else if i == 2 {
            (self.bits / 0x100 % 256) as u8
        } else {
            (self.bits % 256) as u8
        }
    }

    pub fn to_string(&self) -> (s: String)
        ensures
            s@ == dotted(*self),
    {
        let mut s = decimal_string(self.octet_at(0) as u64);
        let b = decimal_string(self.octet_at(1) as u64);
        let c = decimal_string(self.octet_at(2) as u64);
        let d = decimal_string(self.octet_at(3) as u64);
        s.append(".");
        s.append(b.as_str());
        s.append(".");
        s.append(c.as_str());
        s.append(".");
        s.append(d.as_str());
        s
    }

    /// Any host on the same machine: `127.0.0.0/8`.
    pub open spec fn loopback(self) -> bool {
        octet(self, 0) == 127
    }

    pub fn is_loopback(&self) -> (r: bool)
        ensures
            r == self.loopback(),
    {
        self.octet_at(0) == 127
    }

    /// The private ranges `10.0.0.0/8`, `172.16.0.0/12` and `192.168.0.0/16`.
    pub open spec fn private(self) -> bool {
        ||| octet(self, 0) == 10
        ||| octet(self, 0) == 172 && 16 <= octet(self, 1) <= 31
        ||| octet(self, 0) == 192 && octet(self, 1) == 168
    }

    pub fn is_private(&self) -> (r: bool)
        ensures
            r == self.private(),
    {
        let a: u8 = self.octet_at(0);
        let b: u8 = self.octet_at(1);
        a == 10 || (a == 172 && 16 <= b && b <= 31) || (a == 192 && b == 168)
    }

    /// `169.254.0.0/16`.
    pub open spec fn link_local(self) -> bool {
        octet(self, 0) == 169 && octet(self, 1) == 254
    }

    pub fn is_link_local(&self) -> (r: bool)
        ensures
            r == self.link_local(),
    {
        self.octet_at(0) == 169 && self.octet_at(1) == 254
    }
}

/// One octet of a dotted address: one to three digits, no leading zero, at
/// most 255.
pub open spec fn octet_text(s: Seq<char>) -> bool {
    &&& 1 <= s.len() <= 3
    &&& all_digits(s)
    &&& s.len() > 1 ==> s[0] != '0'
    &&& digits_value(s) <= 255
}

/// The address that a dotted decimal text denotes.
pub open spec fn parsed_ipv4(s: Seq<char>) -> Option<Ipv4Addr> {
    let p = split_by(s, |c: char| is_dot(c));
    if p.len() == 4 && octet_text(p[0]) && octet_text(p[1]) && octet_text(p[2]) && octet_text(
        p[3],
    ) {
        Some(
            of_octets(
                digits_value(p[0]),
                digits_value(p[1]),
                digits_value(p[2]),
                digits_value(p[3]),
            ),
        )
    } else {
        None
    }
}

pub open spec fn is_dot(c: char) -> bool {
    c == '.'
}

fn dot(c: char) -> (r: bool)
    ensures
        r == is_dot(c),
{
    c == '.'
}

fn parse_octet(v: &[char]) -> (r: Option<u8>)
    ensures
        r is Some == octet_text(v@),
        r matches Some(n) ==> n == digits_value(v@),
{
    if v.len() == 0 || v.len() > 3 {
        return None;
    }
    if v[0] == '+' {
        proof {
            assert(!ascii_digit(v@[0]));
        }
        return None;
    }
    if v.len() > 1 && v[0] == '0' {
        return None;
    }
    match parse_unsigned(v, 255) {
        Some(n) => Some(n as u8),
        None => None,
    }
}

/// Parses a dotted decimal address.
pub fn parse_ipv4(v: &[char]) -> (r: Option<Ipv4Addr>)
    ensures
        r == parsed_ipv4(v@),
{
    let parts = split_chars(v, dot, Ghost(|c: char| is_dot(c)));
    let ghost p = views(parts@);
    if parts.len() != 4 {
        return None;
    }
    proof {
        assert(p[0] == parts@[0]@ && p[1] == parts@[1]@ && p[2] == parts@[2]@ && p[3]
            == parts@[3]@);
    }
    match (
        parse_octet(parts[0].as_slice()),
        parse_octet(parts[1].as_slice()),
        parse_octet(parts[2].as_slice()),
        parse_octet(parts[3].as_slice()),
    ) {
        (Some(a), Some(b), Some(c), Some(d)) => Some(Ipv4Addr::new(a, b, c, d)),
        _ => None,
    }
}

/// An octet's decimal form is a proper octet text.
proof fn lemma_octet_text(n: nat)
    requires
        n <= 255,
    ensures
        octet_text(decimal(n)),
        digits_value(decimal(n)) == n,
        forall|i: int| 0 <= i < decimal(n).len() ==> !is_dot(#[trigger] decimal(n)[i]),
{
    assert(vstd::arithmetic::power::pow(10, 3) == 1000) by {
        reveal_with_fuel(vstd::arithmetic::power::pow, 4);
    }
    lemma_decimal_len(n, 3);
    lemma_decimal_value(n);
    lemma_decimal_no_leading_zero(n);
    if n == 0 {
        assert(decimal(0).len() == 1);
    }
    assert forall|i: int| 0 <= i < decimal(n).len() implies !is_dot(#[trigger] decimal(n)[i]) by {
        assert(ascii_digit(decimal(n)[i]));
    }
}

/// Parsing the dotted form of an address gives back the address.
pub proof fn law_dotted_parses_back(a: Ipv4Addr)
    ensures
        parsed_ipv4(dotted(a)) == Some(a),
{
    reveal_strlit(".");
    let p = |c: char| is_dot(c);
    let d0 = decimal(octet(a, 0));
    let d1 = decimal(octet(a, 1));
    let d2 = decimal(octet(a, 2));
    let d3 = decimal(octet(a, 3));
    lemma_octet_text(octet(a, 0));
    lemma_octet_text(octet(a, 1));
    lemma_octet_text(octet(a, 2));
    lemma_octet_text(octet(a, 3));
    lemma_split_none(d0, p);
    lemma_split_none(d1, p);
    lemma_split_none(d2, p);
    lemma_split_none(d3, p);
    assert("."@ =~= seq!['.']);
    lemma_split_concat(d0, '.', d1, p);
    lemma_split_concat(d0 + seq!['.'] + d1, '.', d2, p);
    lemma_split_concat(d0 + seq!['.'] + d1 + seq!['.'] + d2, '.', d3, p);
    assert(split_by(dotted(a), p) =~= seq![d0, d1, d2, d3]);
    let n = a.bits as nat;
    let x = n / 0x1_0000;
    let y = n % 0x1_0000;
    assert(n / 0x100_0000 == x / 256);
    assert(n / 0x100 % 256 == y / 256) by {
        assert(n / 0x100 == x * 256 + y / 256);
    }
    assert(n % 256 == y % 256);
    assert(octet(a, 0) * 0x100_0000 + octet(a, 1) * 0x1_0000 + octet(a, 2) * 0x100 + octet(a, 3)
        == n);
}

} // verus!
