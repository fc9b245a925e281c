//! Invitations and the targets that are dialed, as texts.

use vstd::prelude::*;
use vstd::utf8::encode_utf8;

use crate::commands::{
    cancel_pairing, identify_remote, invite_with_code, plan_connect, plan_join, short_id,
    start_pairing, take_pending_deep_link, JoinPlan, PairingInvite,
};
use crate::discovery::interfaces::Iface;
use crate::error::LanBeamError;
use crate::laws::addresses::lemma_parsed_is_dotted;
use crate::laws::documents::{nibble, unpercent};
use crate::laws::texts::{
    all_blank, blank, digits_only, lemma_decimal_digits, lemma_trimmed_of, lemma_worth, tight,
    worth,
};
use crate::net::{dotted, law_dotted_parses_back, octet, parsed_ipv4, Ipv4Addr};
use crate::pages::percent_triplet;
use crate::pairing::{
    best_lan_ip, build_pair_uri, first_lan_ip, lan_ip_rank, lemma_dotted_chars, pairing_code_from,
    parse_dial_target, parse_pair_uri, pick_code, query_of, with_pair, with_pairs, DialTarget,
    LinkView,
};
use crate::percent::{decoded, encoded, percent_decode, percent_encode};
use crate::state::PairingSession;
use crate::text::{
    decimal, first_index, last_index, lemma_first_index, lemma_first_index_unique,
    lemma_split_concat, lemma_split_none, parsed_unsigned, split_by, starts_with, trimmed,
    utf8_lossy,
};
use crate::time::Instant;

verus! {

// ── percent encoding ──────────────────────────────────────────────────────

/// The characters that a link may hold unencoded.
pub open spec fn link_char(c: char) -> bool {
    ||| 'a' <= c && c <= 'z'
    ||| 'A' <= c && c <= 'Z'
    ||| '0' <= c && c <= '9'
    ||| c == '-' || c == '.' || c == '_' || c == '~'
}

proof fn lemma_link_byte(b: u8)
    ensures
        crate::percent::unreserved(b) <==> b < 128 && link_char(b as char),
        crate::percent::unreserved(b) ==> b != 37 && (b as char) as u8 == b,
        percent_triplet(b).len() == 3,
        percent_triplet(b)[0] == '%',
        16 * nibble(percent_triplet(b)[1]) + nibble(percent_triplet(b)[2]) == b,
        link_char(percent_triplet(b)[1]) && link_char(percent_triplet(b)[2]),
{
}

proof fn lemma_encoded_back(b: Seq<u8>)
    ensures
        unpercent(encoded(b)) == b,
        forall|i: int|
            0 <= i < encoded(b).len() ==> link_char(#[trigger] encoded(b)[i]) || encoded(b)[i] == '%',
        (forall|i: int| 0 <= i < b.len() ==> (#[trigger] b[i]) < 128 && link_char(b[i] as char))
            ==> encoded(b).len() == b.len(),
    decreases b.len(),
{
    let e = encoded(b);
    if b.len() == 0 {
        assert(e =~= Seq::empty());
        assert(unpercent(e) =~= b);
    } else {
        let rest = encoded(b.drop_first());
        lemma_encoded_back(b.drop_first());
        lemma_link_byte(b[0]);
        let u = crate::percent::encoded_byte(b[0]);
        assert(e[0] == u[0]);
        assert(e.skip(u.len() as int) =~= rest);
        assert(b =~= seq![b[0]] + b.drop_first());
        if u.len() == 3 {
            assert(e[1] == u[1] && e[2] == u[2]);
        }
        assert forall|i: int| 0 <= i < e.len() implies link_char(#[trigger] e[i]) || e[i] == '%' by {
            if i < u.len() {
                assert(e[i] == u[i]);
            } else {
                assert(e[i] == rest[i - u.len()]);
            }
        }
        if forall|i: int| 0 <= i < b.len() ==> (#[trigger] b[i]) < 128 && link_char(b[i] as char) {
            assert forall|i: int| 0 <= i < b.drop_first().len() implies (
            #[trigger] b.drop_first()[i]) < 128 && link_char(b.drop_first()[i] as char) by {
                assert(b.drop_first()[i] == b[i + 1]);
            }
            assert(b[0] < 128 && link_char(b[0] as char));
        }
    }
}

/// An encoded text decodes to the bytes of the text, holds only letters, digits,
/// `-._~` and percent signs, and is no longer than it has to be.
pub proof fn law_encoded_text_decodes_to_itself(s: &str, r: String)
    requires
        call_ensures(percent_encode, (s,), r),
    ensures
        unpercent(r@) == encode_utf8(s@),
        forall|i: int| 0 <= i < r@.len() ==> link_char(#[trigger] r@[i]) || r@[i] == '%',
        (forall|i: int|
            0 <= i < encode_utf8(s@).len() ==> (#[trigger] encode_utf8(s@)[i]) < 128 && link_char(
                encode_utf8(s@)[i] as char,
            )) ==> r@.len() == encode_utf8(s@).len(),
{
    lemma_encoded_back(encode_utf8(s@));
}

/// Decoding gives back every text that was encoded.
pub proof fn law_decoding_undoes_encoding(s: &str, e: String, again: &str, r: String)
    requires
        call_ensures(percent_encode, (s,), e),
        again@ == e@,
        call_ensures(percent_decode, (again,), r),
    ensures
        r@ == s@,
{
    crate::percent::law_percent_codec_round_trips(s@);
}

/// A hexadecimal digit in either case, and its value.
pub open spec fn hex_value(b: u8) -> int {
    if 48 <= b <= 57 {
        b - 48
    } else if 65 <= b <= 70 {
        b - 65 + 10
    } else if 97 <= b <= 102 {
        b - 97 + 10
    } else {
        -1
    }
}

/// What decoding does at each place: a percent sign with two hexadecimal digits
/// is the byte they are worth, a plus sign is a space, and every other byte, a
/// percent sign without two digits included, is itself.
pub proof fn law_decoding_step_by_step(s: &str, r: String, b: Seq<u8>)
    requires
        call_ensures(percent_decode, (s,), r),
    ensures
        r@ == utf8_lossy(decoded(encode_utf8(s@))),
        decoded(Seq::empty()).len() == 0,
        b.len() >= 3 && b[0] == 37 && hex_value(b[1]) >= 0 && hex_value(b[2]) >= 0 ==> decoded(b)
            == seq![(16 * hex_value(b[1]) + hex_value(b[2])) as u8] + decoded(b.skip(3)),
        b.len() > 0 && b[0] == 43 ==> decoded(b) == seq![32u8] + decoded(b.skip(1)),
        b.len() > 0 && b[0] != 43 && !(b.len() >= 3 && b[0] == 37 && hex_value(b[1]) >= 0
            && hex_value(b[2]) >= 0) ==> decoded(b) == seq![b[0]] + decoded(b.skip(1)),
{
    if b.len() > 0 {
        assert(b.drop_first() =~= b.skip(1));
        if b.len() >= 3 {
            assert(b.subrange(3, b.len() as int) =~= b.skip(3));
        }
    }
}

// ── links ─────────────────────────────────────────────────────────────────

/// A link names the device, its name, its address if it has one, its port and
/// the code, under the keys `d`, `n`, `a`, `p` and `c`.
pub proof fn law_link_names_everything(
    device_id: &str,
    name: &str,
    ip: Option<Ipv4Addr>,
    port: u16,
    code: &str,
    r: String,
    d: String,
    n: String,
)
    requires
        call_ensures(build_pair_uri, (device_id, name, ip, port, code), r),
        call_ensures(percent_encode, (device_id,), d),
        call_ensures(percent_encode, (name,), n),
    ensures
        exists|digits: Seq<char>|
            #[trigger] digits_only(digits) && worth(digits) == port && r@ == "lanbeam://pair?d="@
                + d@ + "&n="@ + n@ + (match ip {
                Some(a) => "&a="@ + dotted(a),
                None => Seq::empty(),
            }) + "&p="@ + digits + "&c="@ + code@,
{
    lemma_decimal_digits(port as nat);
    reveal_strlit("lanbeam://pair?d=");
    reveal_strlit("lanbeam://pair?");
    reveal_strlit("d=");
    assert("lanbeam://pair?"@ + "d="@ =~= "lanbeam://pair?d="@);
    let digits = decimal(port as nat);
    assert(digits_only(digits));
    let tail = match ip {
        Some(a) => "&a="@ + dotted(a),
        None => Seq::empty(),
    };
    assert(r@ =~= "lanbeam://pair?d="@ + d@ + "&n="@ + n@ + tail + "&p="@ + digits + "&c="@ + code@);
}

/// A link that was made with an address leads back to it, with the port and the
/// code that were put in, whatever the id and the name hold.
pub proof fn law_link_leads_back(
    device_id: &str,
    name: &str,
    ip: Ipv4Addr,
    port: u16,
    code: &str,
    link: String,
    input: &str,
    t: Option<DialTarget>,
)
    requires
        code@.len() > 0 && digits_only(code@),
        call_ensures(build_pair_uri, (device_id, name, Some(ip), port, code), link),
        input@ == link@,
        call_ensures(parse_dial_target, (input,), t),
    ensures
        t matches Some(to) && to.ip == ip && to.port == port && to.code is Some && to.code->0@
            == code@,
{
    assert forall|i: int| 0 <= i < code@.len() implies crate::text::ascii_digit(
        #[trigger] code@[i],
    ) by {
        lemma_digit_of(code@[i]);
    }
    crate::pairing::law_pair_link_round_trips(device_id@, name@, ip, port, code@);
}

proof fn lemma_digit_of(c: char)
    ensures
        crate::text::ascii_digit(c) == (48 <= c as u32 && c as u32 <= 57),
{
}

/// A bare address is dialed at port 51704, without a code, blanks around it
/// aside.
pub proof fn law_bare_address_is_dialed_at_the_usual_port(
    input: &str,
    x: Ipv4Addr,
    a: Seq<char>,
    b: Seq<char>,
    t: Option<DialTarget>,
)
    requires
        call_ensures(parse_dial_target, (input,), t),
        input@ == a + dotted(x) + b && all_blank(a) && all_blank(b),
    ensures
        t matches Some(to) && to.ip == x && to.port == 51704 && to.code is None,
{
    lemma_dotted_tight(x);
    lemma_trimmed_of(a, dotted(x), b);
    law_dotted_parses_back(x);
    lemma_no_scheme(dotted(x), Seq::empty());
    assert(dotted(x) + Seq::<char>::empty() =~= dotted(x));
    lemma_no_colon(dotted(x));
}

proof fn lemma_dotted_tight(x: Ipv4Addr)
    ensures
        tight(dotted(x)),
        dotted(x).len() > 0,
        forall|i: int| 0 <= i < dotted(x).len() ==> #[trigger] dotted(x)[i] != ':' && dotted(x)[i] != 'l',
{
    lemma_dotted_chars(x);
    lemma_decimal_digits(octet(x, 0));
    let s = dotted(x);
    assert(s.len() > 0);
    assert forall|i: int| 0 <= i < s.len() implies #[trigger] s[i] != ':' && !blank(s[i]) && s[i]
        != 'l' by {
        assert(crate::text::ascii_digit(s[i]) || s[i] == '.');
        lemma_digit_of(s[i]);
    }
}

proof fn lemma_no_scheme(s: Seq<char>, rest: Seq<char>)
    requires
        s.len() > 0,
        s[0] != 'l',
    ensures
        !starts_with(s + rest, "lanbeam://"@),
{
    reveal_strlit("lanbeam://");
    let w = s + rest;
    if starts_with(w, "lanbeam://"@) {
        assert(w.subrange(0, 10)[0] == w[0]);
        assert("lanbeam://"@[0] == 'l');
    }
}

proof fn lemma_no_colon(s: Seq<char>)
    requires
        forall|i: int| 0 <= i < s.len() ==> #[trigger] s[i] != ':',
    ensures
        last_index(s, ':') == -1,
{
    crate::laws::texts::lemma_last_index(s, ':');
}

/// An address, a colon and a port are dialed there, without a code.
#[verifier::rlimit(40)]
pub proof fn law_address_and_port_are_dialed(
    input: &str,
    x: Ipv4Addr,
    port: u16,
    digits: Seq<char>,
    t: Option<DialTarget>,
)
    requires
        call_ensures(parse_dial_target, (input,), t),
        digits.len() > 0 && digits_only(digits) && worth(digits) == port,
        input@ == dotted(x) + seq![':'] + digits,
    ensures
        t matches Some(to) && to.ip == x && to.port == port && to.code is None,
{
    let s = input@;
    lemma_dotted_tight(x);
    law_dotted_parses_back(x);
    assert forall|i: int| 0 <= i < digits.len() implies #[trigger] digits[i] != ':' && !blank(
        digits[i],
    ) by {
        assert(48 <= digits[i] as u32);
    }
    assert(s.last() == digits[digits.len() - 1]);
    assert(s[0] == dotted(x)[0]);
    assert(tight(s));
    assert(Seq::<char>::empty() + s + Seq::<char>::empty() =~= s);
    lemma_trimmed_of(Seq::empty(), s, Seq::empty());
    lemma_no_scheme(s, Seq::empty());
    assert(s + Seq::<char>::empty() =~= s);
    crate::laws::texts::lemma_last_index(s, ':');
    let c = last_index(s, ':');
    let n = dotted(x).len() as int;
    assert(s[n] == ':');
    if c > n {
        assert(s[c] == digits[c - n - 1]);
    }
    if c < n {
        assert(s[n] != ':');
    }
    assert(s.subrange(0, n) =~= dotted(x));
    assert(s.subrange(n + 1, s.len() as int) =~= digits);
    assert(Seq::<char>::empty() + dotted(x) + Seq::<char>::empty() =~= dotted(x));
    lemma_trimmed_of(Seq::empty(), dotted(x), Seq::empty());
    assert(Seq::<char>::empty() + digits + Seq::<char>::empty() =~= digits);
    assert(tight(digits));
    lemma_trimmed_of(Seq::empty(), digits, Seq::empty());
    lemma_worth(digits);
    assert(crate::text::all_digits(digits)) by {
        assert forall|i: int| 0 <= i < digits.len() implies crate::text::ascii_digit(
            #[trigger] digits[i],
        ) by {
            lemma_digit_of(digits[i]);
        }
    }
    assert(digits[0] != '+') by {
        assert(48 <= digits[0] as u32);
    }
    assert(parsed_unsigned(digits, 65535) == Some(port as nat));
}

/// Whatever is dialed without a link is an address, or an address, a colon and a
/// number, with blanks around them; nothing else is dialed.
pub proof fn law_only_addresses_are_dialed(
    input: &str,
    t: Option<DialTarget>,
    a: Seq<char>,
    s: Seq<char>,
    b: Seq<char>,
)
    requires
        call_ensures(parse_dial_target, (input,), t),
        input@ == a + s + b && all_blank(a) && all_blank(b) && tight(s),
        !(s.len() >= 10 && s.subrange(0, 10) == "lanbeam://"@),
        t is Some,
    ensures
        t->0.code is None,
        s == dotted(t->0.ip) && t->0.port == 51704 || exists|k: int|
            {
                &&& 0 <= k < s.len() && #[trigger] s[k] == ':'
                &&& trimmed(s.subrange(0, k)) == dotted(t->0.ip)
                &&& parsed_unsigned(trimmed(s.subrange(k + 1, s.len() as int)), 65535) == Some(
                    t->0.port as nat,
                )
            },
{
    lemma_trimmed_of(a, s, b);
    reveal_strlit("lanbeam://");
    assert("lanbeam://"@.len() == 10);
    let k = last_index(s, ':');
    crate::laws::texts::lemma_last_index(s, ':');
    if k < 0 {
        lemma_parsed_is_dotted(s, t->0.ip);
    } else {
        lemma_parsed_is_dotted(trimmed(s.subrange(0, k)), t->0.ip);
        assert(s[k] == ':');
    }
}

/// The fields of a link: what one more field behind an ampersand changes.
pub open spec fn after_field(l: LinkView, key: Seq<char>, value: Seq<char>, r: LinkView) -> bool {
    if key == seq!['a'] {
        r.ip == parsed_ipv4(crate::pairing::value_text(value)) && r.port == l.port && r.code == l.code
    } else if key == seq!['p'] {
        &&& r.ip == l.ip && r.code == l.code
        &&& parsed_unsigned(value, 65535) matches Some(p) ==> r.port == p
        &&& parsed_unsigned(value, 65535) is None ==> r.port == l.port
    } else if key == seq!['c'] {
        &&& r.ip == l.ip && r.port == l.port
        &&& r.code == if crate::pairing::value_text(value).len() == 0 {
            l.code
        } else {
            Some(crate::pairing::value_text(value))
        }
    } else {
        r == l
    }
}

/// What the fields of a link add up to so far.
pub open spec fn fields_of(rest: Seq<char>) -> LinkView {
    with_pairs(
        LinkView { ip: None, port: 51704, code: None },
        split_by(query_of(rest), |c: char| c == '&'),
    )
}

proof fn lemma_fields(rest: Seq<char>)
    ensures
        fields_of(rest) == with_pairs(
            crate::pairing::no_link(),
            split_by(query_of(rest), |c: char| crate::pairing::is_ampersand(c)),
        ),
{
    assert((|c: char| c == '&') =~= (|c: char| crate::pairing::is_ampersand(c)));
}

/// A link leads somewhere if and only if its fields give an address; the port is
/// 51704 unless a field says otherwise.
pub proof fn law_link_needs_an_address(rest: &str, t: Option<DialTarget>)
    requires
        call_ensures(parse_pair_uri, (rest,), t),
    ensures
        t is Some <==> fields_of(rest@).ip is Some,
        t matches Some(to) ==> Some(to.ip) == fields_of(rest@).ip && to.port == fields_of(
            rest@,
        ).port && (match to.code {
            Some(c) => Some(c@),
            None => None,
        }) == fields_of(rest@).code,
{
    lemma_fields(rest@);
}

/// One more field `key=value` behind an ampersand sets the address, the port or
/// the code, the last one counting; any other key, and a field without an equals
/// sign, changes nothing.
#[verifier::rlimit(40)]
pub proof fn law_each_field_counts_in_turn(
    rest: Seq<char>,
    key: Seq<char>,
    value: Seq<char>,
    junk: Seq<char>,
)
    requires
        exists|i: int| 0 <= i < rest.len() && #[trigger] rest[i] == '?',
        forall|i: int| 0 <= i < key.len() ==> #[trigger] key[i] != '=' && key[i] != '&',
        forall|i: int| 0 <= i < value.len() ==> #[trigger] value[i] != '&',
        forall|i: int| 0 <= i < junk.len() ==> #[trigger] junk[i] != '=' && junk[i] != '&',
    ensures
        after_field(
            fields_of(rest),
            key,
            value,
            fields_of(rest + seq!['&'] + (key + seq!['='] + value)),
        ),
        fields_of(rest + seq!['&'] + junk) == fields_of(rest),
{
    lemma_one_more(rest, key + seq!['='] + value);
    lemma_one_more(rest, junk);
    let pair = key + seq!['='] + value;
    let l = fields_of(rest);
    lemma_first_index_unique(pair, '=', key.len() as int);
    assert(pair.subrange(0, key.len() as int) =~= key);
    assert(pair.subrange(key.len() as int + 1, pair.len() as int) =~= value);
    lemma_first_index_unique(junk, '=', junk.len() as int);
    reveal_strlit("a");
    reveal_strlit("p");
    reveal_strlit("c");
    assert("a"@ =~= seq!['a']);
    assert("p"@ =~= seq!['p']);
    assert("c"@ =~= seq!['c']);
    assert(seq!['a'][0] == 'a' && seq!['p'][0] == 'p' && seq!['c'][0] == 'c');
    assert(with_pair(l, junk) == l);
}

proof fn lemma_one_more(rest: Seq<char>, pair: Seq<char>)
    requires
        exists|i: int| 0 <= i < rest.len() && #[trigger] rest[i] == '?',
        forall|i: int| 0 <= i < pair.len() ==> #[trigger] pair[i] != '&',
    ensures
        fields_of(rest + seq!['&'] + pair) == with_pair(fields_of(rest), pair),
{
    let amp = |c: char| c == '&';
    let longer = rest + seq!['&'] + pair;
    lemma_first_index(rest, '?');
    let q = first_index(rest, '?');
    let k = choose|i: int| 0 <= i < rest.len() && #[trigger] rest[i] == '?';
    if q == rest.len() {
        assert(rest[k] != '?');
    }
    assert(forall|i: int| 0 <= i < q ==> longer[i] == rest[i]);
    lemma_first_index_unique(longer, '?', q);
    assert(query_of(longer) =~= query_of(rest) + seq!['&'] + pair);
    lemma_split_concat(query_of(rest), '&', pair, amp);
    lemma_split_none(pair, amp);
    let before = split_by(query_of(rest), amp);
    assert((before + seq![pair]).drop_last() =~= before);
    assert((before + seq![pair]).last() == pair);
}

// ── codes ─────────────────────────────────────────────────────────────────

/// A code is the number in the first eight bytes, most significant first, to the
/// last six decimal digits.
pub proof fn law_code_is_the_last_six_digits(b: &[u8; 16], r: String)
    requires
        call_ensures(pairing_code_from, (b,), r),
    ensures
        r@.len() == 6 && digits_only(r@),
        ({
            let high = ((b@[0] * 256 + b@[1]) * 256 + b@[2]) * 256 + b@[3];
            let low = ((b@[4] * 256 + b@[5]) * 256 + b@[6]) * 256 + b@[7];
            worth(r@) == (high * 0x1_0000_0000 + low) % 1_000_000
        }),
{
    crate::pairing::law_code_has_six_digits(b@);
    reveal_with_fuel(crate::pairing::first_eight, 9);
    let n = crate::pairing::first_eight(b@, 8);
    let high = ((b@[0] * 256 + b@[1]) * 256 + b@[2]) * 256 + b@[3];
    let low = ((b@[4] * 256 + b@[5]) * 256 + b@[6]) * 256 + b@[7];
    assert(n == high * 0x1_0000_0000 + low);
    let v = (n % 1_000_000) as nat;
    assert(digits_only(r@)) by {
        assert forall|i: int| 0 <= i < r@.len() implies 48 <= (#[trigger] r@[i]) as u32 && r@[i] as u32
            <= 57 by {
            assert(crate::text::ascii_digit(r@[i]));
            lemma_digit_of(r@[i]);
        }
    }
    lemma_decimal_digits(v);
    let d = decimal(v);
    lemma_zeros((6 - d.len()) as nat, d);
    if d.len() < 6 {
    } else {
        assert(Seq::new(0, |i: int| '0') + d =~= d);
    }
}

/// Zeros in front add nothing.
pub proof fn lemma_zeros(n: nat, d: Seq<char>)
    ensures
        worth(Seq::new(n, |i: int| '0') + d) == worth(d),
    decreases d.len(),
{
    let z = Seq::new(n, |i: int| '0');
    if d.len() == 0 {
        assert(z + d =~= z);
        lemma_only_zeros(n);
    } else {
        lemma_zeros(n, d.subrange(0, d.len() - 1));
        assert((z + d).subrange(0, (z + d).len() - 1) =~= z + d.subrange(0, d.len() - 1));
    }
}

proof fn lemma_only_zeros(n: nat)
    ensures
        worth(Seq::new(n, |i: int| '0')) == 0,
    decreases n,
{
    let z = Seq::new(n, |i: int| '0');
    if n > 0 {
        lemma_only_zeros((n - 1) as nat);
        assert(z.subrange(0, z.len() - 1) =~= Seq::new((n - 1) as nat, |i: int| '0'));
    }
}

/// What is typed in comes before what the link carries, blanks aside.
pub proof fn law_typed_code_comes_first(
    entered: String,
    from_link: Option<String>,
    r: String,
    a: Seq<char>,
    t: Seq<char>,
    b: Seq<char>,
)
    requires
        call_ensures(pick_code, (entered, from_link), r),
        entered@ == a + t + b && all_blank(a) && all_blank(b) && tight(t),
    ensures
        t.len() > 0 ==> r@ == t,
        t.len() == 0 && from_link is Some ==> r@ == from_link->0@,
        t.len() == 0 && from_link is None ==> r@.len() == 0,
{
    lemma_trimmed_of(a, t, b);
}

// ── which address is advertised ───────────────────────────────────────────

/// The rank of an address: networks of homes and offices first, then any other,
/// then 172.16.0.0/12, which virtual networks use, and last 169.254.0.0/16.
pub open spec fn rank(bits: u32) -> int {
    if 0xC0A8_0000 <= bits <= 0xC0A8_FFFF || 0x0A00_0000 <= bits <= 0x0AFF_FFFF {
        0
    } else if 0xA9FE_0000 <= bits <= 0xA9FE_FFFF {
        3
    } else if 0xAC10_0000 <= bits <= 0xAC1F_FFFF {
        2
    } else {
        1
    }
}

proof fn lemma_rank(ip: Ipv4Addr)
    ensures
        crate::pairing::rank_of(ip) == rank(ip.bits),
{
}

/// The address that is advertised is one of the interfaces', with the least rank
/// there is and, among those, the least number; without interfaces there is
/// none.
pub proof fn law_best_address_is_advertised(
    ifaces: Vec<Iface>,
    r: Option<Ipv4Addr>,
    ip: Ipv4Addr,
    n: u8,
)
    requires
        call_ensures(best_lan_ip, (ifaces,), r),
        call_ensures(lan_ip_rank, (ip,), n),
    ensures
        n == rank(ip.bits),
        r is None <==> ifaces@.len() == 0,
        r matches Some(best) ==> {
            &&& exists|i: int| 0 <= i < ifaces@.len() && (#[trigger] ifaces@[i]).ip == best
            &&& forall|i: int|
                0 <= i < ifaces@.len() ==> {
                    let other = (#[trigger] ifaces@[i]).ip;
                    rank(best.bits) < rank(other.bits) || rank(best.bits) == rank(other.bits)
                        && best.bits <= other.bits
                }
        },
{
    lemma_rank(ip);
    match r {
        Some(best) => {
            lemma_rank(best);
            assert forall|i: int| 0 <= i < ifaces@.len() implies ({
                let other = (#[trigger] ifaces@[i]).ip;
                rank(best.bits) < rank(other.bits) || rank(best.bits) == rank(other.bits)
                    && best.bits <= other.bits
            }) by {
                lemma_rank(ifaces@[i].ip);
                assert(crate::pairing::preferred(best, ifaces@[i].ip));
            }
        },
        None => {},
    }
}

/// The advertised address is that of the chosen interface while it is there, and
/// the best of all else.
pub proof fn law_chosen_address_is_advertised(
    all: Vec<Iface>,
    filter: Option<Ipv4Addr>,
    r: Option<Ipv4Addr>,
    best: Option<Ipv4Addr>,
)
    requires
        call_ensures(first_lan_ip, (all, filter), r),
        call_ensures(best_lan_ip, (all,), best),
    ensures
        filter matches Some(ip) ==> (exists|i: int|
            0 <= i < all@.len() && (#[trigger] all@[i]).ip == ip) ==> r == Some(ip),
        filter is None || (forall|i: int|
            0 <= i < all@.len() ==> (#[trigger] all@[i]).ip != filter->0) ==> r == best,
{
    match filter {
        Some(ip) => {
            let p = |i: Iface| i.ip == ip;
            let m = all@.filter(p);
            assert(m == crate::discovery::interfaces::matching(all@, ip));
            assert forall|i: int| 0 <= i < m.len() implies (#[trigger] m[i]).ip == ip by {
                all@.lemma_filter_pred(p, i);
            }
            if exists|i: int| 0 <= i < all@.len() && (#[trigger] all@[i]).ip == ip {
                let i = choose|i: int| 0 <= i < all@.len() && (#[trigger] all@[i]).ip == ip;
                all@.lemma_filter_contains(p, i);
                assert(m.len() > 0);
            } else {
                if m.len() > 0 {
                    crate::exif::lemma_filter_within(all@, p, 0);
                }
                lemma_same_best(r, best, all@);
            }
        },
        None => {
            lemma_same_best(r, best, all@);
        },
    }
}

proof fn lemma_same_best(a: Option<Ipv4Addr>, b: Option<Ipv4Addr>, ifaces: Seq<Iface>)
    requires
        crate::pairing::best_among(a, ifaces),
        crate::pairing::best_among(b, ifaces),
    ensures
        a == b,
{
    if ifaces.len() > 0 {
        let i = choose|i: int| 0 <= i < ifaces.len() && (#[trigger] ifaces[i]).ip == a->0;
        let j = choose|j: int| 0 <= j < ifaces.len() && (#[trigger] ifaces[j]).ip == b->0;
        assert(crate::pairing::preferred(a->0, ifaces[j].ip));
        assert(crate::pairing::preferred(b->0, ifaces[i].ip));
    }
}

// ── the commands ──────────────────────────────────────────────────────────

/// An invitation stands for ten minutes under the code that it shows; its link
/// is the one made of its parts.
pub proof fn law_invitation_stands_for_ten_minutes(
    session: &mut Option<PairingSession>,
    code: String,
    now: Instant,
    device_id: &str,
    name: &str,
    ip: Option<Ipv4Addr>,
    port: u16,
    r: PairingInvite,
    plain: &str,
    link: String,
)
    requires
        call_ensures(invite_with_code, (session, code, now, device_id, name, ip, port), r),
        plain@ == code@,
        call_ensures(build_pair_uri, (device_id, name, ip, port, plain), link),
    ensures
        r.code@ == code@ && r.qr@ == link@,
        *final(session) is Some && final(session)->0.code@ == code@ && final(session)->0.expires.nanos
            == now.nanos + 600_000_000_000,
{
}

/// A fresh invitation has a code of six digits and stands for ten minutes; a
/// cancelled one is gone, and a link that waited is handed out once.
pub proof fn law_fresh_invitation(
    session: &mut Option<PairingSession>,
    now: Instant,
    device_id: &str,
    name: &str,
    ip: Option<Ipv4Addr>,
    port: u16,
    r: PairingInvite,
    plain: &str,
    link: String,
    other: &mut Option<PairingSession>,
    slot: &mut Option<String>,
    waited: Option<String>,
)
    requires
        call_ensures(start_pairing, (session, now, device_id, name, ip, port), r),
        plain@ == r.code@,
        call_ensures(build_pair_uri, (device_id, name, ip, port, plain), link),
        call_ensures(cancel_pairing, (other,), ()),
        call_ensures(take_pending_deep_link, (slot,), waited),
    ensures
        r.code@.len() == 6 && digits_only(r.code@) && r.qr@ == link@,
        *final(session) is Some && final(session)->0.code@ == r.code@
            && final(session)->0.expires.nanos == now.nanos + 600_000_000_000,
        *final(other) is None,
        waited == *old(slot) && *final(slot) is None,
{
    assert forall|i: int| 0 <= i < r.code@.len() implies 48 <= (#[trigger] r.code@[i]) as u32
        && r.code@[i] as u32 <= 57 by {
        assert(crate::text::ascii_digit(r.code@[i]));
        lemma_digit_of(r.code@[i]);
    }
}

/// Joining dials what the address field says, with the typed code or that of the
/// link; without a target or without a code it is refused. Connecting dials the
/// same target.
pub proof fn law_join_and_connect_dial_the_same(
    addr: &str,
    code: String,
    entered: String,
    j: Result<JoinPlan, LanBeamError>,
    c: Result<DialTarget, LanBeamError>,
    t: Option<DialTarget>,
    picked: String,
)
    requires
        call_ensures(plan_join, (addr, code), j),
        call_ensures(plan_connect, (addr,), c),
        call_ensures(parse_dial_target, (addr,), t),
        entered@ == code@,
        t is Some ==> call_ensures(pick_code, (entered, t->0.code), picked),
    ensures
        c is Ok <==> t is Some,
        c matches Ok(to) ==> to@ == t->0@,
        c matches Err(e) ==> e is Protocol && e->Protocol_0@ == "not a valid address: "@ + addr@,
        j is Ok <==> t is Some && picked@.len() > 0,
        j matches Ok(p) ==> p.target.ip == t->0.ip && p.target.port == t->0.port && p.code@ == picked@,
        j matches Err(e) ==> e is Protocol && e->Protocol_0@ == if t is None {
            "not a valid address: "@ + addr@
        } else {
            "no pairing code provided"@
        },
{
}

/// The id of the other side is that of the key it proved, and never this
/// device's own.
pub proof fn law_remote_is_named_by_its_key(
    key: &[u8; 32],
    my_id: &str,
    r: Result<String, LanBeamError>,
)
    requires
        call_ensures(identify_remote, (key, my_id), r),
    ensures
        r is Ok <==> crate::encoding::base64url(key@) != my_id@,
        r matches Ok(id) ==> id@ == crate::encoding::base64url(key@),
        r matches Err(e) ==> e is SelfPeer,
{
}

/// The short id is the first eight characters.
pub proof fn law_short_id_is_eight_characters(device_id: &str, r: String)
    requires
        call_ensures(short_id, (device_id,), r),
    ensures
        device_id@.len() <= 8 ==> r@ == device_id@,
        device_id@.len() > 8 ==> r@ == device_id@.subrange(0, 8),
{
}

/// A link without a question mark, and one with nothing behind it, has no
/// fields.
pub proof fn law_link_without_fields(rest: Seq<char>)
    requires
        forall|i: int| 0 <= i < rest.len() ==> #[trigger] rest[i] != '?',
    ensures
        fields_of(rest) == (LinkView { ip: None, port: 51704, code: None }),
        fields_of(rest + seq!['?']) == fields_of(rest),
{
    let amp = |c: char| c == '&';
    lemma_first_index_unique(rest, '?', rest.len() as int);
    let asked = rest + seq!['?'];
    lemma_first_index_unique(asked, '?', rest.len() as int);
    assert(query_of(rest) =~= Seq::empty());
    assert(query_of(asked) =~= Seq::empty());
    lemma_split_none(Seq::empty(), amp);
    let none = LinkView { ip: None, port: 51704, code: None };
    let pairs = seq![Seq::<char>::empty()];
    lemma_first_index_unique(Seq::empty(), '=', 0);
    reveal_with_fuel(with_pairs, 2);
    assert(pairs.drop_last() =~= Seq::empty());
    assert(pairs.last() =~= Seq::<char>::empty());
    assert(with_pair(none, pairs.last()) == none);
}

} // verus!
