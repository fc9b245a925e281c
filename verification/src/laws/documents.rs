//! What a browser makes of the pages and headers of a share.

use vstd::prelude::*;
use vstd::utf8::encode_utf8;

use crate::laws::shares::{fetches_left, lemma_serveable, running};
use crate::laws::texts::{blank, digits_only, lemma_decimal_digits, worth};
use crate::pages::{
    ascii_fallback, attr_byte, attr_encoded, content_disposition, escaped, escaped_char,
    html_escape, human_size, landing_item, landing_items, landing_text, message_page,
    nearest_double, page_shell, percent_triplet, push_percent, render_landing, rfc5987_encode,
    rounded_quotient, shown_files, size_text, spacing, unit_size, EXACT_LIMIT,
};
use crate::share::{
    begin_download, denied, file_headers, internal_error, landing, listing, Denied, DownloadPlan,
    FileHeaders, Reply, ShareRegistry,
};
use crate::text::decimal;
use crate::time::Instant;

verus! {

// ── escaped text ──────────────────────────────────────────────────────────

/// Whether `s` begins with `head`.
pub open spec fn begins(s: Seq<char>, head: Seq<char>) -> bool {
    head.len() <= s.len() && s.subrange(0, head.len() as int) == head
}

/// The text that a browser shows for HTML text: the five entities as their
/// characters, everything else as it is.
pub open spec fn displayed(html: Seq<char>) -> Seq<char>
    decreases html.len(),
{
    if html.len() == 0 {
        Seq::empty()
    } else if begins(html, seq!['&', 'a', 'm', 'p', ';']) {
        seq!['&'] + displayed(html.skip(5))
    } else if begins(html, seq!['&', 'l', 't', ';']) {
        seq!['<'] + displayed(html.skip(4))
    } else if begins(html, seq!['&', 'g', 't', ';']) {
        seq!['>'] + displayed(html.skip(4))
    } else if begins(html, seq!['&', 'q', 'u', 'o', 't', ';']) {
        seq!['"'] + displayed(html.skip(6))
    } else if begins(html, seq!['&', '#', '3', '9', ';']) {
        seq!['\''] + displayed(html.skip(5))
    } else {
        seq![html[0]] + displayed(html.skip(1))
    }
}

proof fn lemma_escaped_front(s: Seq<char>)
    requires
        s.len() > 0,
    ensures
        escaped(s) == escaped_char(s[0]) + escaped(s.skip(1)),
    decreases s.len(),
{
    if s.len() == 1 {
        assert(s.drop_last().len() == 0);
        assert(s.skip(1).len() == 0);
        assert(escaped(s.drop_last()) =~= Seq::empty());
        assert(escaped(s.skip(1)) =~= Seq::empty());
        assert(escaped(s) =~= escaped_char(s[0]) + escaped(s.skip(1)));
    } else {
        lemma_escaped_front(s.drop_last());
        assert(s.drop_last().skip(1) =~= s.skip(1).drop_last());
        assert(s.skip(1).last() == s.last());
        assert(escaped(s) =~= escaped_char(s[0]) + escaped(s.skip(1)));
    }
}

proof fn lemma_entities()
    ensures
        "&amp;"@ == seq!['&', 'a', 'm', 'p', ';'],
        "&lt;"@ == seq!['&', 'l', 't', ';'],
        "&gt;"@ == seq!['&', 'g', 't', ';'],
        "&quot;"@ == seq!['&', 'q', 'u', 'o', 't', ';'],
        "&#39;"@ == seq!['&', '#', '3', '9', ';'],
{
    reveal_strlit("&amp;");
    reveal_strlit("&lt;");
    reveal_strlit("&gt;");
    reveal_strlit("&quot;");
    reveal_strlit("&#39;");
    assert("&amp;"@ =~= seq!['&', 'a', 'm', 'p', ';']);
    assert("&lt;"@ =~= seq!['&', 'l', 't', ';']);
    assert("&gt;"@ =~= seq!['&', 'g', 't', ';']);
    assert("&quot;"@ =~= seq!['&', 'q', 'u', 'o', 't', ';']);
    assert("&#39;"@ =~= seq!['&', '#', '3', '9', ';']);
}

proof fn lemma_begins(head: Seq<char>, rest: Seq<char>)
    ensures
        begins(head + rest, head),
        (head + rest).skip(head.len() as int) == rest,
{
    assert((head + rest).subrange(0, head.len() as int) =~= head);
    assert((head + rest).skip(head.len() as int) =~= rest);
}

proof fn lemma_not_begins(s: Seq<char>, head: Seq<char>, i: int)
    requires
        0 <= i < head.len(),
        i < s.len() ==> s[i] != head[i],
    ensures
        !begins(s, head),
{
    if head.len() <= s.len() {
        assert(s.subrange(0, head.len() as int)[i] == s[i]);
    }
}

pub proof fn lemma_displayed_escaped(s: Seq<char>)
    ensures
        displayed(escaped(s)) == s,
    decreases s.len(),
{
    lemma_entities();
    let amp = seq!['&', 'a', 'm', 'p', ';'];
    let lt = seq!['&', 'l', 't', ';'];
    let gt = seq!['&', 'g', 't', ';'];
    let quot = seq!['&', 'q', 'u', 'o', 't', ';'];
    let tick = seq!['&', '#', '3', '9', ';'];
    if s.len() == 0 {
        assert(escaped(s) =~= Seq::empty());
        assert(displayed(escaped(s)) =~= s);
    } else {
        let c = s[0];
        let rest = escaped(s.skip(1));
        let e = escaped(s);
        lemma_escaped_front(s);
        lemma_displayed_escaped(s.skip(1));
        assert(s =~= seq![c] + s.skip(1));
        lemma_begins(escaped_char(c), rest);
        if c == '&' {
        } else if c == '<' {
            lemma_not_begins(e, amp, 1);
        } else if c == '>' {
            lemma_not_begins(e, amp, 1);
            lemma_not_begins(e, lt, 1);
        } else if c == '"' {
            lemma_not_begins(e, amp, 1);
            lemma_not_begins(e, lt, 1);
            lemma_not_begins(e, gt, 1);
        } else if c == '\'' {
            lemma_not_begins(e, amp, 1);
            lemma_not_begins(e, lt, 1);
            lemma_not_begins(e, gt, 1);
            lemma_not_begins(e, quot, 1);
        } else {
            assert(e[0] == c);
            lemma_not_begins(e, amp, 0);
            lemma_not_begins(e, lt, 0);
            lemma_not_begins(e, gt, 0);
            lemma_not_begins(e, quot, 0);
            lemma_not_begins(e, tick, 0);
        }
    }
}

/// A browser shows escaped text as the text itself, whatever it is.
pub proof fn law_escaped_text_is_shown_as_it_was(s: &str, r: String)
    requires
        call_ensures(html_escape, (s,), r),
    ensures
        displayed(r@) == s@,
{
    lemma_displayed_escaped(s@);
}

/// Escaped text holds none of `<`, `>`, `"` and `'`, and text that holds none of
/// these and no `&` is left as it is.
pub proof fn law_escaping_touches_five_characters(s: &str, r: String)
    requires
        call_ensures(html_escape, (s,), r),
    ensures
        forall|i: int|
            0 <= i < r@.len() ==> {
                let c = #[trigger] r@[i];
                c != '<' && c != '>' && c != '"' && c != '\''
            },
        (forall|i: int|
            0 <= i < s@.len() ==> {
                let c = #[trigger] s@[i];
                c != '<' && c != '>' && c != '"' && c != '\'' && c != '&'
            }) ==> r@ == s@,
{
    crate::pages::law_escaped_text_is_inert(s@);
    assert forall|i: int| 0 <= i < r@.len() implies ({
        let c = #[trigger] r@[i];
        c != '<' && c != '>' && c != '"' && c != '\''
    }) by {
        assert(!crate::pages::markup(escaped(s@)[i]));
    }
    if forall|i: int|
        0 <= i < s@.len() ==> {
            let c = #[trigger] s@[i];
            c != '<' && c != '>' && c != '"' && c != '\'' && c != '&'
        } {
        lemma_plain_escaped(s@);
    }
}

proof fn lemma_plain_escaped(s: Seq<char>)
    requires
        forall|i: int|
            0 <= i < s.len() ==> {
                let c = #[trigger] s[i];
                c != '<' && c != '>' && c != '"' && c != '\'' && c != '&'
            },
    ensures
        escaped(s) == s,
    decreases s.len(),
{
    if s.len() > 0 {
        assert forall|i: int| 0 <= i < s.drop_last().len() implies ({
            let c = #[trigger] s.drop_last()[i];
            c != '<' && c != '>' && c != '"' && c != '\'' && c != '&'
        }) by {
            assert(s.drop_last()[i] == s[i]);
        }
        lemma_plain_escaped(s.drop_last());
        assert(s[s.len() - 1] == s.last());
        assert(s.drop_last() + seq![s.last()] =~= s);
    } else {
        assert(escaped(s) =~= s);
    }
}

// ── the headers of a download ─────────────────────────────────────────────

/// The value of an upper case hexadecimal digit.
pub open spec fn nibble(c: char) -> int {
    if '0' <= c && c <= '9' {
        c as u32 - 48
    } else {
        c as u32 - 55
    }
}

/// The bytes that a percent-encoded text stands for.
pub open spec fn unpercent(s: Seq<char>) -> Seq<u8>
    decreases s.len(),
{
    if s.len() == 0 {
        Seq::empty()
    } else if s[0] == '%' && s.len() >= 3 {
        seq![(16 * nibble(s[1]) + nibble(s[2])) as u8] + unpercent(s.skip(3))
    } else {
        seq![s[0] as u8] + unpercent(s.skip(1))
    }
}

/// The characters that stand for themselves in `filename*`.
pub open spec fn token_char(c: char) -> bool {
    ||| 'a' <= c && c <= 'z'
    ||| 'A' <= c && c <= 'Z'
    ||| '0' <= c && c <= '9'
    ||| c == '!' || c == '#' || c == '$' || c == '&' || c == '+' || c == '-' || c == '.'
    ||| c == '^' || c == '_' || c == '`' || c == '|' || c == '~'
}

pub open spec fn attr_unit(b: u8) -> Seq<char> {
    if attr_byte(b) {
        seq![b as char]
    } else {
        percent_triplet(b)
    }
}

proof fn lemma_attr_front(b: Seq<u8>)
    requires
        b.len() > 0,
    ensures
        attr_encoded(b) == attr_unit(b[0]) + attr_encoded(b.skip(1)),
    decreases b.len(),
{
    if b.len() == 1 {
        assert(b.drop_last().len() == 0);
        assert(b.skip(1).len() == 0);
        assert(attr_encoded(b.drop_last()) =~= Seq::empty());
        assert(attr_encoded(b.skip(1)) =~= Seq::empty());
        assert(attr_encoded(b) =~= attr_unit(b[0]) + attr_encoded(b.skip(1)));
    } else {
        lemma_attr_front(b.drop_last());
        assert(b.drop_last().skip(1) =~= b.skip(1).drop_last());
        assert(b.skip(1).last() == b.last());
        assert(attr_encoded(b) =~= attr_unit(b[0]) + attr_encoded(b.skip(1)));
    }
}

proof fn lemma_triplet(b: u8)
    ensures
        percent_triplet(b).len() == 3,
        percent_triplet(b)[0] == '%',
        16 * nibble(percent_triplet(b)[1]) + nibble(percent_triplet(b)[2]) == b,
        token_char(percent_triplet(b)[1]) && token_char(percent_triplet(b)[2]),
        attr_byte(b) ==> b != 37 && token_char(b as char) && (b as char) as u8 == b,
        !attr_byte(b) ==> b >= 128 || !token_char(b as char),
{
}

proof fn lemma_attr_back(b: Seq<u8>)
    ensures
        unpercent(attr_encoded(b)) == b,
        forall|i: int|
            0 <= i < attr_encoded(b).len() ==> token_char(#[trigger] attr_encoded(b)[i])
                || attr_encoded(b)[i] == '%',
        (forall|i: int| 0 <= i < b.len() ==> (#[trigger] b[i]) < 128 && token_char(b[i] as char))
            ==> attr_encoded(b).len() == b.len(),
    decreases b.len(),
{
    let e = attr_encoded(b);
    if b.len() == 0 {
        assert(e =~= Seq::empty());
        assert(unpercent(e) =~= b);
    } else {
        let rest = attr_encoded(b.skip(1));
        lemma_attr_front(b);
        lemma_attr_back(b.skip(1));
        lemma_triplet(b[0]);
        let u = attr_unit(b[0]);
        assert(e[0] == u[0]);
        assert(e.skip(u.len() as int) =~= rest);
        assert(b =~= seq![b[0]] + b.skip(1));
        if !attr_byte(b[0]) {
            assert(e[1] == u[1] && e[2] == u[2]);
        }
        assert forall|i: int| 0 <= i < e.len() implies token_char(#[trigger] e[i]) || e[i] == '%' by {
            if i < u.len() {
                assert(e[i] == u[i]);
            } else {
                assert(e[i] == rest[i - u.len()]);
            }
        }
        if forall|i: int| 0 <= i < b.len() ==> (#[trigger] b[i]) < 128 && token_char(b[i] as char) {
            assert forall|i: int| 0 <= i < b.skip(1).len() implies (#[trigger] b.skip(1)[i]) < 128
                && token_char(b.skip(1)[i] as char) by {
                assert(b.skip(1)[i] == b[i + 1]);
            }
            assert(b[0] < 128 && token_char(b[0] as char));
        }
    }
}

/// The extended name decodes to the bytes of the name, whatever it is, and is
/// written in letters, digits, twelve marks and percent signs only. Nothing in
/// it is encoded that can stand for itself.
pub proof fn law_extended_name_decodes_to_the_name(name: &str, r: String)
    requires
        call_ensures(rfc5987_encode, (name,), r),
    ensures
        unpercent(r@) == encode_utf8(name@),
        forall|i: int| 0 <= i < r@.len() ==> token_char(#[trigger] r@[i]) || r@[i] == '%',
        (forall|i: int|
            0 <= i < encode_utf8(name@).len() ==> (#[trigger] encode_utf8(name@)[i]) < 128
                && token_char(encode_utf8(name@)[i] as char)) ==> r@.len() == encode_utf8(
            name@,
        ).len(),
{
    lemma_attr_back(encode_utf8(name@));
}

/// One byte is added as a percent sign and two digits that are worth it.
pub proof fn law_percent_triplet(out: &mut String, b: u8)
    requires
        call_ensures(push_percent, (out, b), ()),
    ensures
        final(out)@.len() == old(out)@.len() + 3,
        final(out)@.subrange(0, old(out)@.len() as int) == old(out)@,
        final(out)@[old(out)@.len() as int] == '%',
        16 * nibble(final(out)@[old(out)@.len() as int + 1]) + nibble(final(out)@[old(out)@.len() as int + 2])
            == b,
{
    lemma_triplet(b);
    assert(final(out)@.subrange(0, old(out)@.len() as int) =~= old(out)@);
}

/// The plain name keeps every visible ASCII character but `"` and `\` in its
/// place, puts `_` for every other character, and is `download` where only
/// spaces would be left.
pub proof fn law_plain_name_keeps_visible_ascii(name: &str, r: String)
    requires
        call_ensures(ascii_fallback, (name,), r),
    ensures
        (forall|i: int| 0 <= i < name@.len() ==> #[trigger] name@[i] == ' ') ==> r@ == "download"@,
        !(forall|i: int| 0 <= i < name@.len() ==> #[trigger] name@[i] == ' ') ==> {
            &&& r@.len() == name@.len()
            &&& forall|i: int|
                0 <= i < r@.len() ==> #[trigger] r@[i] == if ' ' <= name@[i] && name@[i] <= '~'
                    && name@[i] != '"' && name@[i] != '\\' {
                    name@[i]
                } else {
                    '_'
                }
        },
{
    let s = name@.map_values(|c: char| crate::pages::plain_or_underscore(c));
    let (a, b) = crate::laws::texts::lemma_trimmed_parts(s);
    let t = crate::text::trimmed(s);
    if forall|i: int| 0 <= i < name@.len() ==> #[trigger] name@[i] == ' ' {
        if t.len() > 0 {
            let k = a.len() as int;
            assert(s[k] == t[0]);
            assert(name@[k] == ' ');
            assert(blank(t[0]));
        }
    } else {
        let k = choose|k: int| 0 <= k < name@.len() && #[trigger] name@[k] != ' ';
        if t.len() == 0 {
            if k < a.len() {
                assert(s[k] == a[k]);
                assert(blank(a[k]));
            } else {
                assert(s[k] == b[k - a.len()]);
                assert(blank(b[k - a.len()]));
            }
        }
        assert(t.len() > 0);
    }
}

/// The header offers the plain name in quotes and the extended name behind it.
pub proof fn law_disposition_offers_both_names(name: &str, plain: String, extended: String, r: String)
    requires
        call_ensures(ascii_fallback, (name,), plain),
        call_ensures(rfc5987_encode, (name,), extended),
        call_ensures(content_disposition, (name,), r),
    ensures
        r@ == "attachment; filename=\""@ + plain@ + "\"; filename*=UTF-8''"@ + extended@,
{
}

/// A served file is sent as bytes, with its length and under its own name.
pub proof fn law_file_headers(len: u64, name: &str, offered: String, h: FileHeaders)
    requires
        call_ensures(file_headers, (len, name), h),
        call_ensures(content_disposition, (name,), offered),
    ensures
        h.content_type@ == "application/octet-stream"@,
        h.content_disposition@ == offered@,
        digits_only(h.content_length@) && worth(h.content_length@) == len,
{
    lemma_decimal_digits(len as nat);
}

// ── sizes ─────────────────────────────────────────────────────────────────

/// A unit above the byte.
pub open spec fn unit(name: Seq<char>, size: int) -> bool {
    ||| name == "KB"@ && size == 1024
    ||| name == "MB"@ && size == 1024 * 1024
    ||| name == "GB"@ && size == 1024 * 1024 * 1024
    ||| name == "TB"@ && size == 1024 * 1024 * 1024 * 1024
}

/// How far `a` and `b` are apart.
pub open spec fn gap(a: int, b: int) -> int {
    if a < b {
        b - a
    } else {
        a - b
    }
}

/// `tenths` of `size` is within half a tenth of `bytes`, the even one of two that
/// are, or within a thousand bytes of that where the number of bytes is past what
/// a double can hold.
pub open spec fn tells(tenths: int, size: int, bytes: int) -> bool {
    &&& bytes < 0x20_0000_0000_0000 && 2 * gap(tenths * size, 10 * bytes) == size ==> tenths % 2
        == 0
    &&& 2 * gap(tenths * size, 10 * bytes) <= size + if bytes < 0x20_0000_0000_0000 {
        0int
    } else {
        20 * 1024int
    }
}

/// `whole.tenth unit` with one digit behind the point.
pub open spec fn size_line(
    r: Seq<char>,
    whole: Seq<char>,
    tenth: Seq<char>,
    name: Seq<char>,
) -> bool {
    &&& r == whole + "."@ + tenth + " "@ + name
    &&& digits_only(whole) && whole.len() >= 1
    &&& digits_only(tenth) && tenth.len() == 1
}

proof fn lemma_rounded(n: nat, d: nat)
    requires
        d > 0,
    ensures
        2 * gap((rounded_quotient(n, d) * d) as int, n as int) <= d,
        2 * gap((rounded_quotient(n, d) * d) as int, n as int) == d ==> rounded_quotient(n, d) % 2
            == 0,
{
    let q = n / d;
    let r = n % d;
    assert(n == q * d + r) by (nonlinear_arith)
        requires
            d > 0,
            q == n / d,
            r == n % d,
    ;
    assert((q + 1) * d == q * d + d) by (nonlinear_arith);
    assert(r < d) by (nonlinear_arith)
        requires
            d > 0,
            r == n % d,
    ;
}

proof fn lemma_spacing(n: nat, u: nat)
    requires
        n < 0x1_0000_0000_0000_0000,
        u == 1 || u == 2 || u == 4 || u == 8 || u == 16 || u == 32 || u == 64 || u == 128 || u
            == 256 || u == 512 || u == 1024 || u == 2048,
    ensures
        1 <= spacing(n, u) <= 2048,
        n < 0x20_0000_0000_0000 ==> spacing(n, 1) == 1,
    decreases 2048 - u,
{
    if n >= EXACT_LIMIT * u {
        assert(u < 2048);
        lemma_spacing(n, 2 * u);
    }
}

proof fn lemma_nearest(n: nat)
    requires
        n < 0x1_0000_0000_0000_0000,
    ensures
        n < 0x20_0000_0000_0000 ==> nearest_double(n) == n,
        n >= 0x20_0000_0000_0000 ==> gap(nearest_double(n) as int, n as int) <= 1024,
{
    lemma_spacing(n, 1);
    lemma_rounded(n, spacing(n, 1));
}

/// A size below 1024 is written as bytes, and any other with one decimal in the
/// greatest of the four units that is no larger than it; the number written is
/// the nearest there is.
#[verifier::rlimit(40)]
pub proof fn law_size_is_the_nearest_tenth_of_its_unit(bytes: u64, r: String)
    requires
        call_ensures(human_size, (bytes,), r),
    ensures
        bytes < 1024 ==> exists|d: Seq<char>| #[trigger]
            digits_only(d) && worth(d) == bytes && r@ == d + " B"@,
        bytes >= 1024 ==> exists|whole: Seq<char>, tenth: Seq<char>, name: Seq<char>, size: int|
            {
                &&& #[trigger] size_line(r@, whole, tenth, name)
                &&& #[trigger] unit(name, size)
                &&& size <= bytes
                &&& name == "TB"@ || bytes < 1024 * size
                &&& tells(10 * worth(whole) + worth(tenth), size, bytes as int)
            },
{
    if bytes < 1024 {
        lemma_decimal_digits(bytes as nat);
        assert(digits_only(decimal(bytes as nat)));
    } else {
        lemma_nearest(bytes as nat);
        let m = nearest_double(bytes as nat);
        let size = unit_size(m);
        let name = crate::pages::unit_name(m);
        let tenths = rounded_quotient(10 * m, size);
        lemma_rounded(10 * m, size);
        let whole = decimal(tenths / 10);
        let tenth = decimal(tenths % 10);
        lemma_decimal_digits(tenths / 10);
        lemma_decimal_digits(tenths % 10);
        assert(tenth.len() == 1);
        assert(r@ =~= whole + "."@ + tenth + " "@ + name);
        assert(size_line(r@, whole, tenth, name));
        assert(unit(name, size as int));
    }
}

// ── pages ─────────────────────────────────────────────────────────────────

/// What every page begins with: everything that a page needs is in it.
pub open spec fn frame() -> Seq<char> {
    "<!doctype html><html lang=\"en\"><head><meta charset=\"utf-8\">\
     <meta name=\"viewport\" content=\"width=device-width, initial-scale=1\">\
     <title>LanBeam</title><style>\
     body{font-family:system-ui,-apple-system,Segoe UI,Roboto,sans-serif;\
     max-width:34rem;margin:3rem auto;padding:0 1.25rem;color:#1a1a1a;\
     background:#fafafa;line-height:1.5}\
     h1{font-size:1.4rem;margin:0 0 .25rem}\
     .lead{color:#444;margin:.25rem 0 1.5rem}\
     ul.files{list-style:none;padding:0;margin:0}\
     ul.files li{display:flex;justify-content:space-between;align-items:center;\
     gap:1rem;padding:.6rem .8rem;border:1px solid #e3e3e3;border-radius:.5rem;\
     margin-bottom:.5rem;background:#fff}\
     ul.files a{color:#2563eb;text-decoration:none;word-break:break-all}\
     ul.files a:hover{text-decoration:underline}\
     .sz{color:#777;font-size:.85rem;white-space:nowrap}\
     .foot{color:#999;font-size:.8rem;margin-top:2rem}\
     @media(prefers-color-scheme:dark){body{background:#111;color:#eee}\
     .lead{color:#bbb}ul.files li{background:#1b1b1b;border-color:#333}\
     ul.files a{color:#6ea8fe}.sz{color:#888}.foot{color:#666}}\
     </style></head><body>"@
}

/// Two pages differ by their bodies only, and a body stands last in its page.
pub proof fn law_page_is_its_body_in_a_fixed_frame(a: &str, b: &str, ra: String, rb: String)
    requires
        call_ensures(page_shell, (a,), ra),
        call_ensures(page_shell, (b,), rb),
    ensures
        ra@ == frame() + a@ + "</body></html>"@,
        rb@ == frame() + b@ + "</body></html>"@,
{
}

/// A message page shows its message and nothing else behind the title.
pub proof fn law_message_page_shows_the_message(msg: &str, label: String, body: &str, r: String, p: String)
    requires
        call_ensures(html_escape, (msg,), label),
        call_ensures(message_page, (msg,), r),
        body@ == "<h1>LanBeam</h1><p class=\"lead\">"@ + label@ + "</p>"@,
        call_ensures(page_shell, (body,), p),
    ensures
        r@ == p@,
{
}

/// The words of each refusal and of a failure.
pub proof fn law_refusals_say_why(d: Denied, msg: &str, p: String, r: Reply, failed: Reply)
    requires
        call_ensures(denied, (d,), r),
        call_ensures(internal_error, (), failed),
        call_ensures(message_page, (msg,), p),
    ensures
        d == Denied::NotFound && msg@
            == "This share link is invalid or the file no longer exists."@ ==> r.body@ == p@,
        d == Denied::Gone && msg@
            == "This share is no longer available — it was stopped, expired, or hit its download limit."@
            ==> r.body@ == p@,
        msg@ == "Something went wrong serving this share."@ ==> failed.body@ == p@,
{
}

/// The line of one file: a link to `/s/`, the token, `/` and the index, with the
/// label as its text, and then the size.
pub open spec fn file_line(
    token: Seq<char>,
    index: Seq<char>,
    label: Seq<char>,
    size: Seq<char>,
) -> Seq<char> {
    "<li><a href=\"/s/"@ + token + "/"@ + index + "\">"@ + label + "</a><span class=\"sz\">"@ + size
        + "</span></li>\n"@
}

/// Whether `line` links file `i` by its number and shows its name and its size.
pub open spec fn links(line: Seq<char>, token: Seq<char>, i: int, name: Seq<char>, size: u64) -> bool {
    exists|index: Seq<char>, label: Seq<char>|
        {
            &&& line == #[trigger] file_line(token, index, label, size_text(size as nat))
            &&& digits_only(index) && worth(index) == i && index.len() >= 1
            &&& index[0] == '0' ==> index.len() == 1
            &&& displayed(label) == name
            &&& forall|k: int| 0 <= k < label.len() ==> #[trigger] label[k] != '<'
        }
}

/// `list` is cut at `cuts` into one line for each of `n` files.
pub open spec fn cut_at(list: Seq<char>, cuts: Seq<int>, n: int) -> bool {
    &&& cuts.len() == n + 1
    &&& cuts[0] == 0 && cuts[n] == list.len()
    &&& forall|i: int| 0 <= i < n ==> 0 <= #[trigger] cuts[i] <= cuts[i + 1] <= list.len()
}

proof fn lemma_line(token: Seq<char>, i: nat, name: Seq<char>, size: u64)
    ensures
        links(landing_item(token, i, name, size as nat), token, i as int, name, size),
{
    let line = landing_item(token, i, name, size as nat);
    lemma_decimal_digits(i);
    lemma_displayed_escaped(name);
    crate::pages::law_escaped_text_is_inert(name);
    let label = escaped(name);
    assert forall|k: int| 0 <= k < label.len() implies #[trigger] label[k] != '<' by {
        assert(!crate::pages::markup(escaped(name)[k]));
    }
    assert(line =~= file_line(token, decimal(i), label, size_text(size as nat)));
}

#[verifier::rlimit(40)]
proof fn lemma_lines(token: Seq<char>, files: Seq<(Seq<char>, nat)>, sizes: Seq<u64>) -> (cuts: Seq<
    int,
>)
    requires
        sizes.len() == files.len(),
        forall|i: int| 0 <= i < files.len() ==> (#[trigger] files[i]).1 == sizes[i],
    ensures
        cut_at(landing_items(token, files), cuts, files.len() as int),
        forall|i: int|
            0 <= i < files.len() ==> links(
                landing_items(token, files).subrange(#[trigger] cuts[i], cuts[i + 1]),
                token,
                i,
                files[i].0,
                sizes[i],
            ),
    decreases files.len(),
{
    let list = landing_items(token, files);
    if files.len() == 0 {
        seq![0int]
    } else {
        let n = files.len() - 1;
        let before = landing_items(token, files.drop_last());
        let cuts = lemma_lines(token, files.drop_last(), sizes.drop_last());
        let more = cuts.push(list.len() as int);
        let line = landing_item(token, n as nat, files.last().0, files.last().1);
        assert(list == before + line);
        assert(files[n] == files.last());
        lemma_line(token, n as nat, files[n].0, sizes[n]);
        assert forall|i: int| 0 <= i < files.len() implies {
            &&& 0 <= #[trigger] more[i] <= more[i + 1] <= list.len()
            &&& links(list.subrange(more[i], more[i + 1]), token, i, files[i].0, sizes[i])
        } by {
            if i < n {
                assert(files.drop_last()[i] == files[i]);
                assert(more[i] == cuts[i] && more[i + 1] == cuts[i + 1]);
                assert(list.subrange(more[i], more[i + 1]) =~= before.subrange(
                    cuts[i],
                    cuts[i + 1],
                ));
            } else {
                assert(list.subrange(more[i], more[i + 1]) =~= line);
            }
        }
        more
    }
}

/// What the landing page says below its list.
pub open spec fn footing() -> Seq<char> {
    "</ul>\
     <p class=\"foot\">Served directly from the sender's device over your local network — no account, no cloud, no third-party server.</p>"@
}

/// What the landing page says above its list.
pub open spec fn heading(n: int, count: Seq<char>) -> Seq<char> {
    "<h1>LanBeam</h1><p class=\"lead\">"@ + count + (if n == 1 {
        " file"@
    } else {
        " files"@
    }) + " shared with you.</p><ul class=\"files\">"@
}

/// The landing page is a page whose list has one line for every file, in order:
/// line `i` links `/s/`, the token and the number `i`, and shows the name and the
/// size of file `i`. The number of files stands above it, and nothing but the
/// closing note below.
#[verifier::rlimit(40)]
pub proof fn law_landing_page_links_every_file(
    token: &str,
    files: &[(String, u64)],
    r: String,
    body: &str,
    p: String,
) -> (parts: (Seq<char>, Seq<char>, Seq<int>))
    requires
        call_ensures(render_landing, (token, files), r),
        call_ensures(page_shell, (body,), p),
    ensures
        ({
            let (count, list, cuts) = parts;
            &&& body@ == heading(files@.len() as int, count) + list + footing() ==> r@ == p@
            &&& digits_only(count) && worth(count) == files@.len()
            &&& cut_at(list, cuts, files@.len() as int)
            &&& forall|i: int|
                0 <= i < files@.len() ==> links(
                    list.subrange(#[trigger] cuts[i], cuts[i + 1]),
                    token@,
                    i,
                    files@[i].0@,
                    files@[i].1,
                )
        }),
{
    let shown = shown_files(files@);
    let sizes = files@.map_values(|f: (String, u64)| f.1);
    let cuts = lemma_lines(token@, shown, sizes);
    let count = decimal(files@.len());
    lemma_decimal_digits(files@.len());
    let list = landing_items(token@, shown);
    reveal_strlit(" ");
    reveal_strlit("file");
    reveal_strlit("files");
    reveal_strlit(" file");
    reveal_strlit(" files");
    assert(" "@ + "file"@ =~= " file"@);
    assert(" "@ + "files"@ =~= " files"@);
    if body@ == heading(files@.len() as int, count) + list + footing() {
        assert(landing_text(token@, shown) =~= crate::pages::page(body@));
    }
    assert forall|i: int| 0 <= i < files@.len() implies links(
        list.subrange(#[trigger] cuts[i], cuts[i + 1]),
        token@,
        i,
        files@[i].0@,
        files@[i].1,
    ) by {
        assert(shown[i].0 == files@[i].0@);
        assert(sizes[i] == files@[i].1);
    }
    (count, list, cuts)
}

/// Whether `part` stands somewhere in `s`.
pub open spec fn holds(s: Seq<char>, part: Seq<char>, at: int) -> bool {
    0 <= at && at + part.len() <= s.len() && s.subrange(at, at + part.len()) == part
}

/// A page for several files holds a line for each of them.
#[verifier::rlimit(40)]
proof fn lemma_page_line(token: Seq<char>, files: Seq<crate::share::ShareFile>, i: int)
    requires
        files.len() > 1,
        0 <= i < files.len(),
    ensures
        exists|line: Seq<char>, at: int|
            #[trigger] holds(landing_text(token, listing(files)), line, at) && links(
                line,
                token,
                i,
                files[i].name@,
                files[i].size,
            ),
{
    let shown = listing(files);
    let sizes = files.map_values(|f: crate::share::ShareFile| f.size);
    let cuts = lemma_lines(token, shown, sizes);
    let list = landing_items(token, shown);
    let line = list.subrange(cuts[i], cuts[i + 1]);
    assert(shown[i].0 == files[i].name@);
    assert(sizes[i] == files[i].size);
    let body = landing_text(token, shown);
    let top = crate::pages::PAGE_HEAD@ + ("<h1>LanBeam</h1><p class=\"lead\">"@ + decimal(shown.len())
        + " "@ + "files"@ + " shared with you.</p><ul class=\"files\">"@);
    let bottom = crate::pages::LANDING_FOOT@ + crate::pages::PAGE_TAIL@;
    assert(body =~= top + list + bottom);
    let at = top.len() + cuts[i];
    assert(body.subrange(at, at + line.len()) =~= line);
    assert(holds(body, line, at));
}

/// The page of a share that serves has, for every index of the share, a line
/// whose link carries that index and whose text is the name and the size of the
/// file there; and a request with that index opens that very file.
#[verifier::rlimit(40)]
pub proof fn law_link_opens_the_file_it_shows(
    registry: &ShareRegistry,
    token: &str,
    now: Instant,
    r: Reply,
    index: u32,
    again: &mut ShareRegistry,
    later: Instant,
    peer_ip: &str,
    plan: DownloadPlan,
)
    requires
        registry@.contains_key(token@),
        running(registry@[token@], now) && fetches_left(registry@[token@]),
        registry@[token@].files@.len() > 1,
        index < registry@[token@].files@.len(),
        call_ensures(landing, (registry, token, now), r),
        old(again)@ == registry@,
        running(registry@[token@], later),
        call_ensures(begin_download, (again, token, index, false, later, peer_ip), plan),
    ensures
        r.status == 200,
        ({
            let f = registry@[token@].files@[index as int];
            &&& exists|line: Seq<char>, at: int|
                #[trigger] holds(r.body@, line, at) && links(
                    line,
                    token@,
                    index as int,
                    f.name@,
                    f.size,
                )
            &&& plan matches DownloadPlan::Open { path, name, size, event } && path@ == f.path@
                && name@ == f.name@ && size == f.size
        }),
{
    let s = registry@[token@];
    lemma_serveable(s, now);
    lemma_serveable(s, later);
    lemma_page_line(token@, s.files@, index as int);
}

} // verus!
