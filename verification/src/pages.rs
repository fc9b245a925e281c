//! The web pages and headers of a browser share: HTML escaping, the landing
//! page, message pages, and the `Content-Disposition` value of a download.

use vstd::prelude::*;
use vstd::utf8::encode_utf8;

use crate::text::{
    chars_of, decimal, decimal_string, hex_upper, hex_upper_char, trim_chars, trimmed,
};

verus! {

// ── escaping ──────────────────────────────────────────────────────────────

/// The form of one character in element content or a quoted attribute.
pub open spec fn escaped_char(c: char) -> Seq<char> {
    if c == '&' {
        "&amp;"@
    } else if c == '<' {
        "&lt;"@
    } else if c == '>' {
        "&gt;"@
    } else if c == '"' {
        "&quot;"@
    } else if c == '\'' {
        "&#39;"@
    } else {
        seq![c]
    }
}

pub open spec fn escaped(s: Seq<char>) -> Seq<char>
    decreases s.len(),
{
    if s.len() == 0 {
        Seq::empty()
    } else {
        escaped(s.drop_last()) + escaped_char(s.last())
    }
}

/// Minimal HTML-entity escaping of untrusted text.
pub fn html_escape(s: &str) -> (r: String)
    ensures
        r@ == escaped(s@),
{
    let v = chars_of(s);
    let mut out = String::new();
    for i in 0..v.len()
        invariant
            v@ == s@,
            out@ == escaped(v@.subrange(0, i as int)),
    {
        let c = v[i];
        let ghost before = out@;
        proof {
            assert(v@.subrange(0, i + 1).drop_last() =~= v@.subrange(0, i as int));
            assert(v@.subrange(0, i + 1).last() == c);
        }
        if c == '&' {
            out.append("&amp;");
        } else if c == '<' {
            out.append("&lt;");
        } else if c == '>' {
            out.append("&gt;");
        } else if c == '"' {
            out.append("&quot;");
        } else if c == '\'' {
            out.append("&#39;");
        } else {
            out.push(c);
            proof {
                assert(out@ =~= before + seq![c]);
            }
        }
    }
    proof {
        assert(v@.subrange(0, v@.len() as int) =~= v@);
    }
    out
}

/// Whether `c` could open or close a tag or a quoted attribute.
pub open spec fn markup(c: char) -> bool {
    c == '<' || c == '>' || c == '"' || c == '\''
}

/// Escaped text holds no character that could open or close markup.
pub proof fn law_escaped_text_is_inert(s: Seq<char>)
    ensures
        forall|i: int| 0 <= i < escaped(s).len() ==> !markup(#[trigger] escaped(s)[i]),
    decreases s.len(),
{
    if s.len() > 0 {
        law_escaped_text_is_inert(s.drop_last());
        reveal_strlit("&amp;");
        reveal_strlit("&lt;");
        reveal_strlit("&gt;");
        reveal_strlit("&quot;");
        reveal_strlit("&#39;");
        let head = escaped(s.drop_last());
        let tail = escaped_char(s.last());
        assert forall|i: int| 0 <= i < escaped(s).len() implies !markup(
            #[trigger] escaped(s)[i],
        ) by {
            if i < head.len() {
                assert(escaped(s)[i] == head[i]);
            } else {
                assert(escaped(s)[i] == tail[i - head.len()]);
            }
        }
    }
}

// ── Content-Disposition ───────────────────────────────────────────────────

/// A character that may stand in a quoted ASCII file name.
pub open spec fn plain_name_char(c: char) -> bool {
    0x20 <= c as u32 <= 0x7E && c != '"' && c != '\\'
}

pub open spec fn plain_or_underscore(c: char) -> char {
    if plain_name_char(c) {
        c
    } else {
        '_'
    }
}

/// A name with everything but plain ASCII replaced by `_`, or `download` when
/// only white space would be left.
pub open spec fn ascii_name(name: Seq<char>) -> Seq<char> {
    let s = name.map_values(|c: char| plain_or_underscore(c));
    if trimmed(s).len() == 0 {
        "download"@
    } else {
        s
    }
}

pub fn ascii_fallback(name: &str) -> (r: String)
    ensures
        r@ == ascii_name(name@),
{
    let v = chars_of(name);
    let mut s = String::new();
    for i in 0..v.len()
        invariant
            v@ == name@,
            s@ == v@.subrange(0, i as int).map_values(|c: char| plain_or_underscore(c)),
    {
        let c = v[i];
        let u: u32 = c as u32;
        if 0x20 <= u && u <= 0x7E && c != '"' && c != '\\' {
            s.push(c);
        } else {
            s.push('_');
        }
        proof {
            assert(s@ =~= v@.subrange(0, i + 1).map_values(|c: char| plain_or_underscore(c)));
        }
    }
    proof {
        assert(v@.subrange(0, v@.len() as int) =~= v@);
    }
    let t = trim_chars(s.as_str());
    if t.len() == 0 {
        "download".to_owned()
    } else {
        s
    }
}

/// The bytes that stand for themselves in an extended header parameter: ASCII
/// letters and digits, and `! # $ & + - . ^ _ \` | ~`.
pub open spec fn attr_byte(b: u8) -> bool {
    ||| 48 <= b <= 57
    ||| 65 <= b <= 90
    ||| 97 <= b <= 122
    ||| b == 33
    ||| b == 35
    ||| b == 36
    ||| b == 38
    ||| b == 43
    ||| b == 45
    ||| b == 46
    ||| b == 94
    ||| b == 95
    ||| b == 96
    ||| b == 124
    ||| b == 126
}

fn is_attr_byte(b: u8) -> (r: bool)
    ensures
        r == attr_byte(b),
{
    (48 <= b && b <= 57) || (65 <= b && b <= 90) || (97 <= b && b <= 122) || b == 33 || b == 35 || b
        == 36 || b == 38 || b == 43 || b == 45 || b == 46 || b == 94 || b == 95 || b == 96 || b
        == 124 || b == 126
}

/// A byte as `%` and two upper case hexadecimal digits.
pub open spec fn percent_triplet(b: u8) -> Seq<char> {
    seq!['%', hex_upper(b / 16), hex_upper(b % 16)]
}

pub fn push_percent(out: &mut String, b: u8)
    ensures
        final(out)@ == old(out)@ + percent_triplet(b),
{
    out.push('%');
    out.push(hex_upper_char(b / 16));
    out.push(hex_upper_char(b % 16));
    proof {
        assert(out@ =~= old(out)@ + percent_triplet(b));
    }
}

pub open spec fn attr_encoded(bytes: Seq<u8>) -> Seq<char>
    decreases bytes.len(),
{
    if bytes.len() == 0 {
        Seq::empty()
    } else if attr_byte(bytes.last()) {
        attr_encoded(bytes.drop_last()).push(bytes.last() as char)
    } else {
        attr_encoded(bytes.drop_last()) + percent_triplet(bytes.last())
    }
}

/// Percent-encoding of a name for the `filename*` parameter.
pub fn rfc5987_encode(name: &str) -> (r: String)
    ensures
        r@ == attr_encoded(encode_utf8(name@)),
{
    let bytes = name.as_bytes();
    let mut out = String::new();
    for i in 0..bytes.len()
        invariant
            bytes@ == encode_utf8(name@),
            out@ == attr_encoded(bytes@.subrange(0, i as int)),
    {
        let b: u8 = bytes[i];
        proof {
            assert(bytes@.subrange(0, i + 1).drop_last() =~= bytes@.subrange(0, i as int));
            assert(bytes@.subrange(0, i + 1).last() == b);
        }
        if is_attr_byte(b) {
            out.push(b as char);
        } else {
            push_percent(&mut out, b);
        }
    }
    proof {
        assert(bytes@.subrange(0, bytes@.len() as int) =~= bytes@);
    }
    out
}

/// The header value: an ASCII `filename` and the exact name in `filename*`.
pub open spec fn disposition(name: Seq<char>) -> Seq<char> {
    "attachment; filename=\""@ + ascii_name(name) + "\"; filename*=UTF-8''"@ + attr_encoded(
        encode_utf8(name),
    )
}

pub fn content_disposition(name: &str) -> (r: String)
    ensures
        r@ == disposition(name@),
{
    let ascii = ascii_fallback(name);
    let encoded = rfc5987_encode(name);
    let mut r = "attachment; filename=\"".to_owned();
    r.append(ascii.as_str());
    r.append("\"; filename*=UTF-8''");
    r.append(encoded.as_str());
    r
}

/// A character that may stand in a header value.
pub open spec fn header_char(c: char) -> bool {
    0x20 <= c as u32 <= 0x7E
}

proof fn lemma_attr_encoded_visible(bytes: Seq<u8>)
    ensures
        forall|i: int|
            0 <= i < attr_encoded(bytes).len() ==> header_char(#[trigger] attr_encoded(bytes)[i]),
    decreases bytes.len(),
{
    if bytes.len() > 0 {
        lemma_attr_encoded_visible(bytes.drop_last());
        let head = attr_encoded(bytes.drop_last());
        let b = bytes.last();
        assert forall|i: int| 0 <= i < attr_encoded(bytes).len() implies header_char(
            #[trigger] attr_encoded(bytes)[i],
        ) by {
            if i < head.len() {
                assert(attr_encoded(bytes)[i] == head[i]);
            }
        }
    }
}

/// The header value is a valid one whatever the name.
pub proof fn law_disposition_is_a_header_value(name: Seq<char>)
    ensures
        forall|i: int|
            0 <= i < disposition(name).len() ==> header_char(#[trigger] disposition(name)[i]),
{
    reveal_strlit("attachment; filename=\"");
    reveal_strlit("\"; filename*=UTF-8''");
    reveal_strlit("download");
    lemma_attr_encoded_visible(encode_utf8(name));
    let a = "attachment; filename=\""@;
    let b = ascii_name(name);
    let c = "\"; filename*=UTF-8''"@;
    let d = attr_encoded(encode_utf8(name));
    assert forall|i: int| 0 <= i < b.len() implies header_char(#[trigger] b[i]) by {}
    assert forall|i: int| 0 <= i < disposition(name).len() implies header_char(
        #[trigger] disposition(name)[i],
    ) by {
        let x = disposition(name)[i];
        if i < a.len() {
            assert(x == a[i]);
        } else if i < a.len() + b.len() {
            assert(x == b[i - a.len()]);
        } else if i < a.len() + b.len() + c.len() {
            assert(x == c[i - a.len() - b.len()]);
        } else {
            assert(x == d[i - a.len() - b.len() - c.len()]);
        }
    }
}

// ── sizes ─────────────────────────────────────────────────────────────────

/// Integers from here on are not all exact in double precision.
pub const EXACT_LIMIT: u128 = 0x20_0000_0000_0000;

/// The spacing of double precision numbers around `n`, starting from `u`.
pub open spec fn spacing(n: nat, u: nat) -> nat
    decreases
            if n < EXACT_LIMIT * u {
                0
            } else {
                n + 1 - EXACT_LIMIT * u
            },
    when u > 0
{
    if n < EXACT_LIMIT * u {
        u
    } else {
        spacing(n, 2 * u)
    }
}

/// The quotient rounded to the nearest integer, ties to even.
pub open spec fn rounded_quotient(n: nat, d: nat) -> nat {
    let q = n / d;
    let r = n % d;
    if 2 * r < d || (2 * r == d && q % 2 == 0) {
        q
    } else {
        q + 1
    }
}

/// The double precision number nearest to `n`, ties to even.
pub open spec fn nearest_double(n: nat) -> nat {
    rounded_quotient(n, spacing(n, 1)) * spacing(n, 1)
}

pub open spec fn unit_size(m: nat) -> nat {
    if m < 0x10_0000 {
        0x400
    } else if m < 0x4000_0000 {
        0x10_0000
    } else if m < 0x100_0000_0000 {
        0x4000_0000
    } else {
        0x100_0000_0000
    }
}

pub open spec fn unit_name(m: nat) -> Seq<char> {
    if m < 0x10_0000 {
        "KB"@
    } else if m < 0x4000_0000 {
        "MB"@
    } else if m < 0x100_0000_0000 {
        "GB"@
    } else {
        "TB"@
    }
}

/// A size in bytes below one binary kilobyte, else with one decimal in the
/// largest binary unit up to terabytes.
pub open spec fn size_text(bytes: nat) -> Seq<char> {
    if bytes < 1024 {
        decimal(bytes) + " B"@
    } else {
        let m = nearest_double(bytes);
        let tenths = rounded_quotient(10 * m, unit_size(m));
        decimal(tenths / 10) + "."@ + decimal(tenths % 10) + " "@ + unit_name(m)
    }
}

fn round_quotient(n: u128, d: u128) -> (q: u128)
    requires
        0 < d < 0x1_0000_0000_0000_0000_0000,
        n < 0x1_0000_0000_0000_0000_0000,
    ensures
        q == rounded_quotient(n as nat, d as nat),
        q <= n / d + 1,
{
    let q: u128 = n / d;
    let r: u128 = n % d;
    if 2 * r < d || (2 * r == d && q % 2 == 0) {
        q
    } else {
        proof {
            assert(n / d <= n) by (nonlinear_arith)
                requires
                    d > 0,
            ;
        }
        q + 1
    }
}

pub fn human_size(bytes: u64) -> (r: String)
    ensures
        r@ == size_text(bytes as nat),
{
    if bytes < 1024 {
        let mut r = decimal_string(bytes);
        r.append(" B");
        return r;
    }
    let n: u128 = bytes as u128;
    let mut u: u128 = 1;
    while n >= EXACT_LIMIT * u
        invariant
            n == bytes,
            1 <= u <= 0x1000,
            n >= EXACT_LIMIT * u ==> u < 0x800,
            spacing(n as nat, 1) == spacing(n as nat, u as nat),
        decreases 0x1000 - u,
    {
        proof {
            assert(n < 0x1_0000_0000_0000_0000);
            assert(EXACT_LIMIT * 0x800 == 0x1_0000_0000_0000_0000);
        }
        u = u * 2;
    }
    let q: u128 = round_quotient(n, u);
    proof {
        assert(spacing(n as nat, 1) == u);
        assert(n / u <= n) by (nonlinear_arith)
            requires
                u >= 1,
        ;
        assert((n / u) * u <= n) by (nonlinear_arith)
            requires
                u >= 1,
        ;
        assert(q * u <= n + u) by (nonlinear_arith)
            requires
                q <= n / u + 1,
                (n / u) * u <= n,
                u >= 1,
        ;
        assert(q * u >= n - u) by (nonlinear_arith)
            requires
                q >= n / u,
                u >= 1,
        ;
    }
    let m: u128 = q * u;
    let (d, name) = if m < 0x10_0000 {
        (0x400u128, "KB")
    } else if m < 0x4000_0000 {
        (0x10_0000u128, "MB")
    } else if m < 0x100_0000_0000 {
        (0x4000_0000u128, "GB")
    } else {
        (0x100_0000_0000u128, "TB")
    };
    let tenths: u128 = round_quotient(10 * m, d);
    proof {
        assert(d == unit_size(m as nat));
        assert(tenths <= 0x1_0000_0000_0000_0000) by (nonlinear_arith)
            requires
                tenths <= (10 * m) / (d as int) + 1,
                d >= 0x400,
                m <= 0x1_0000_0000_0000_1000,
        ;
    }
    let mut r = decimal_string((tenths / 10) as u64);
    r.append(".");
    let tail = decimal_string((tenths % 10) as u64);
    r.append(tail.as_str());
    r.append(" ");
    r.append(name);
    r
}

// ── documents ─────────────────────────────────────────────────────────────

pub const PAGE_HEAD: &'static str = "<!doctype html><html lang=\"en\"><head><meta charset=\"utf-8\">\
     <meta name=\"viewport\" content=\"width=device-width, initial-scale=1\">\
     <title>LanBeam</title><style>\
     body{font-family:system-ui,-apple-system,Segoe UI,Roboto,sans-serif;\
     max-width:34rem;margin:3rem auto;padding:0 1.25rem;color:#1a1a1a;\
     background:#fafafa;line-height:1.5}\
     h1{font-size:1.4rem;margin:0 0 .25rem}\
     .lead{color:#444;margin:.25rem 0 1.5rem}\
     ul.files{list-style:none;padding:0;margin:0}\
     ul.files li{display:flex;justify-content:space-between;align-items:center;\
     gap:1rem;padding:.6rem .8rem;border:1px solid #e3e3e3;border-radius:.5rem;\
     margin-bottom:.5rem;background:#fff}\
     ul.files a{color:#2563eb;text-decoration:none;word-break:break-all}\
     ul.files a:hover{text-decoration:underline}\
     .sz{color:#777;font-size:.85rem;white-space:nowrap}\
     .foot{color:#999;font-size:.8rem;margin-top:2rem}\
     @media(prefers-color-scheme:dark){body{background:#111;color:#eee}\
     .lead{color:#bbb}ul.files li{background:#1b1b1b;border-color:#333}\
     ul.files a{color:#6ea8fe}.sz{color:#888}.foot{color:#666}}\
     </style></head><body>";

pub const PAGE_TAIL: &'static str = "</body></html>";

pub const LANDING_FOOT: &'static str = "</ul>\
     <p class=\"foot\">Served directly from the sender's device over your local network — no account, no cloud, no third-party server.</p>";

/// A document around `body`; everything it needs is inline.
pub open spec fn page(body: Seq<char>) -> Seq<char> {
    PAGE_HEAD@ + body + PAGE_TAIL@
}

pub fn page_shell(body: &str) -> (r: String)
    ensures
        r@ == page(body@),
{
    let mut r = PAGE_HEAD.to_owned();
    r.append(body);
    r.append(PAGE_TAIL);
    r
}

/// A page that holds one message.
pub open spec fn message_text(msg: Seq<char>) -> Seq<char> {
    page("<h1>LanBeam</h1><p class=\"lead\">"@ + escaped(msg) + "</p>"@)
}

pub fn message_page(msg: &str) -> (r: String)
    ensures
        r@ == message_text(msg@),
{
    let mut body = "<h1>LanBeam</h1><p class=\"lead\">".to_owned();
    let text = html_escape(msg);
    body.append(text.as_str());
    body.append("</p>");
    page_shell(body.as_str())
}

/// The list item of one shared file: a link by index, its name and its size.
pub open spec fn landing_item(token: Seq<char>, i: nat, name: Seq<char>, size: nat) -> Seq<char> {
    "<li><a href=\"/s/"@ + token + "/"@ + decimal(i) + "\">"@ + escaped(name)
        + "</a><span class=\"sz\">"@ + size_text(size) + "</span></li>\n"@
}

/// The names and sizes as they are shown.
pub open spec fn shown_files(files: Seq<(String, u64)>) -> Seq<(Seq<char>, nat)> {
    files.map_values(|f: (String, u64)| (f.0@, f.1 as nat))
}

pub open spec fn landing_items(token: Seq<char>, files: Seq<(Seq<char>, nat)>) -> Seq<char>
    decreases files.len(),
{
    if files.len() == 0 {
        Seq::empty()
    } else {
        landing_items(token, files.drop_last()) + landing_item(
            token,
            (files.len() - 1) as nat,
            files.last().0,
            files.last().1,
        )
    }
}

/// The page that lists every file of a share.
pub open spec fn landing_text(token: Seq<char>, files: Seq<(Seq<char>, nat)>) -> Seq<char> {
    page(
        "<h1>LanBeam</h1><p class=\"lead\">"@ + decimal(files.len()) + " "@ + (if files.len() == 1 {
            "file"@
        } else {
            "files"@
        }) + " shared with you.</p><ul class=\"files\">"@ + landing_items(token, files)
            + LANDING_FOOT@,
    )
}

pub fn render_landing(token: &str, files: &[(String, u64)]) -> (r: String)
    ensures
        r@ == landing_text(token@, shown_files(files@)),
{
    let n: usize = files.len();
    let ghost shown = shown_files(files@);
    let mut body = "<h1>LanBeam</h1><p class=\"lead\">".to_owned();
    let count = decimal_string(n as u64);
    body.append(count.as_str());
    body.append(" ");
    body.append(if n == 1 { "file" } else { "files" });
    body.append(" shared with you.</p><ul class=\"files\">");
    let mut items = String::new();
    for i in 0..n
        invariant
            n == files@.len(),
            shown == shown_files(files@),
            items@ == landing_items(token@, shown.subrange(0, i as int)),
    {
        proof {
            assert(shown.subrange(0, i + 1).drop_last() =~= shown.subrange(0, i as int));
            assert(shown.subrange(0, i + 1).last() == (files@[i as int].0@, files@[i as int].1 as nat));
        }
        let item = landing_li(token, i as u64, files[i].0.as_str(), files[i].1);
        items.append(item.as_str());
    }
    proof {
        assert(shown.subrange(0, n as int) =~= shown);
    }
    body.append(items.as_str());
    body.append(LANDING_FOOT);
    page_shell(body.as_str())
}

fn landing_li(token: &str, i: u64, name: &str, size: u64) -> (r: String)
    ensures
        r@ == landing_item(token@, i as nat, name@, size as nat),
{
    let mut r = "<li><a href=\"/s/".to_owned();
    r.append(token);
    r.append("/");
    let index = decimal_string(i);
    r.append(index.as_str());
    r.append("\">");
    let label = html_escape(name);
    r.append(label.as_str());
    r.append("</a><span class=\"sz\">");
    let shown = human_size(size);
    r.append(shown.as_str());
    r.append("</span></li>\n");
    r
}

} // verus!
