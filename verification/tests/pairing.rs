use lanbeam::calendar::{civil_from_days, compact_utc_stamp};
use lanbeam::consts::DEFAULT_TCP_PORT;
use lanbeam::discovery::interfaces::Iface;
use lanbeam::net::Ipv4Addr;
use lanbeam::pairing::{
    best_lan_ip, build_pair_uri, first_lan_ip, fresh_pairing_code, lan_ip_rank, pairing_code_from,
    parse_dial_target, pick_code,
};
use lanbeam::percent::{percent_decode, percent_encode};

#[test]
fn civil_from_days_known_dates() {
    assert_eq!(civil_from_days(0), (1970, 1, 1));
    assert_eq!(civil_from_days(19_723), (2024, 1, 1));
    assert_eq!(civil_from_days(19_723 + 31 + 28), (2024, 2, 29));
    assert_eq!(civil_from_days(-1), (1969, 12, 31));
}

#[test]
fn dates_follow_one_another() {
    let lengths = [31, 28, 31, 30, 31, 30, 31, 31, 30, 31, 30, 31];
    let (mut y, mut m, mut d) = civil_from_days(-800_000);
    for day in -799_999..800_000i64 {
        let leap = y % 4 == 0 && (y % 100 != 0 || y % 400 == 0);
        let last = lengths[(m - 1) as usize] + if m == 2 && leap { 1 } else { 0 };
        if d < last {
            d += 1;
        } else if m < 12 {
            m += 1;
            d = 1;
        } else {
            y += 1;
            m = 1;
            d = 1;
        }
        assert_eq!(civil_from_days(day), (y, m, d));
    }
}

#[test]
fn compact_utc_stamp_formats_and_pads() {
    assert_eq!(compact_utc_stamp(0), "19700101-000000");
    assert_eq!(compact_utc_stamp(1_000_000_000), "20010909-014640");
}

#[test]
fn parse_dial_target_handles_addr_and_link() {
    let t = parse_dial_target("192.168.1.5:52637").expect("ip:port parses");
    assert_eq!(t.ip, Ipv4Addr::new(192, 168, 1, 5));
    assert_eq!(t.port, 52637);
    assert!(t.code.is_none());

    let t = parse_dial_target("192.168.1.5").expect("bare ip parses");
    assert_eq!(t.port, DEFAULT_TCP_PORT, "a missing port falls back to the default");

    let t = parse_dial_target("  10.0.0.7:51704  ").expect("surrounding space is trimmed");
    assert_eq!(t.ip, Ipv4Addr::new(10, 0, 0, 7));

    let link = "lanbeam://pair?d=abc&n=My%20PC&a=192.168.1.9&p=51999&c=482913";
    let t = parse_dial_target(link).expect("link parses");
    assert_eq!(t.ip, Ipv4Addr::new(192, 168, 1, 9));
    assert_eq!(t.port, 51999);
    assert_eq!(t.code.as_deref(), Some("482913"));

    assert!(parse_dial_target("not-an-ip").is_none());
    assert!(parse_dial_target("999.1.1.1:5").is_none(), "an out-of-range octet is rejected");
    assert!(
        parse_dial_target("192.168.1.5:70000").is_none(),
        "an out-of-range port is rejected"
    );
}

#[test]
fn addresses_are_dotted_decimals() {
    for bad in ["01.2.3.4", "1.2.3", "1.2.3.4.5", "1..3.4", "1.2.3.256", "+1.2.3.4", ""] {
        assert!(parse_dial_target(bad).is_none(), "{bad}");
    }
    for good in ["0.0.0.0", "255.255.255.255", "10.20.30.40"] {
        assert_eq!(parse_dial_target(good).unwrap().ip.to_string(), good);
    }
}

#[test]
fn pair_uri_round_trips_through_the_parser() {
    let ip = Ipv4Addr::new(192, 168, 1, 20);
    let uri = build_pair_uri("dev-Id_1", "My PC", Some(ip), 51704, "482913");
    assert!(uri.starts_with("lanbeam://pair?"), "got {uri}");
    assert!(uri.contains("n=My%20PC"), "the name must be percent-encoded: {uri}");
    assert!(uri.contains("a=192.168.1.20"));

    let t = parse_dial_target(&uri).expect("the built link must parse");
    assert_eq!(t.ip, ip);
    assert_eq!(t.port, 51704);
    assert_eq!(t.code.as_deref(), Some("482913"));

    let no_ip = build_pair_uri("dev", "n", None, 51704, "111111");
    assert!(!no_ip.contains("&a="), "no address → no a= param: {no_ip}");
    assert!(
        parse_dial_target(&no_ip).is_none(),
        "a link without a= yields no target"
    );
}

#[test]
fn pairing_ip_prefers_real_lan_over_virtual_adapter() {
    let mk = |a, b, c, d| Iface { ip: Ipv4Addr::new(a, b, c, d), broadcast: None };
    assert_eq!(
        best_lan_ip(vec![mk(172, 24, 32, 1), mk(192, 168, 1, 20)]),
        Some(Ipv4Addr::new(192, 168, 1, 20)),
    );
    assert_eq!(
        best_lan_ip(vec![mk(172, 24, 32, 1), mk(10, 0, 0, 5)]),
        Some(Ipv4Addr::new(10, 0, 0, 5)),
    );
    assert_eq!(
        best_lan_ip(vec![mk(172, 20, 5, 5)]),
        Some(Ipv4Addr::new(172, 20, 5, 5)),
    );
    assert_eq!(
        best_lan_ip(vec![mk(169, 254, 3, 3)]),
        Some(Ipv4Addr::new(169, 254, 3, 3)),
    );
    assert_eq!(best_lan_ip(vec![]), None);
}

#[test]
fn ties_go_to_the_lowest_address() {
    let mk = |a, b, c, d| Iface { ip: Ipv4Addr::new(a, b, c, d), broadcast: None };
    let all = vec![mk(192, 168, 1, 20), mk(172, 16, 0, 1), mk(192, 168, 1, 3)];
    assert_eq!(best_lan_ip(all.clone()), Some(Ipv4Addr::new(192, 168, 1, 3)));
    assert_eq!(
        first_lan_ip(all.clone(), Some(Ipv4Addr::new(172, 16, 0, 1))),
        Some(Ipv4Addr::new(172, 16, 0, 1)),
        "a selected interface is the one that is offered"
    );
    assert_eq!(
        first_lan_ip(all, Some(Ipv4Addr::new(8, 8, 8, 8))),
        Some(Ipv4Addr::new(192, 168, 1, 3))
    );
    assert!(lan_ip_rank(Ipv4Addr::new(192, 168, 0, 1)) < lan_ip_rank(Ipv4Addr::new(172, 16, 0, 1)));
}

#[test]
fn percent_codec_round_trips_utf8() {
    for original in ["书房 · MacBook Pro", "plain", "a/b?c=d&e", "空格 spaces"] {
        let enc = percent_encode(original);
        assert_eq!(percent_decode(&enc), original, "round-trip must be lossless");
    }
    assert_eq!(percent_decode("a+b"), "a b", "+ decodes to space");
    assert_eq!(
        percent_decode("bad%zz"),
        "bad%zz",
        "a malformed escape keeps its bytes"
    );
}

#[test]
fn percent_codec_edges() {
    assert_eq!(percent_encode("a-b_c.d~e f"), "a-b_c.d~e%20f");
    assert_eq!(percent_encode("+%"), "%2B%25");
    assert_eq!(percent_decode("%e4%BD%a0"), "你", "both cases of hex digits");
    assert_eq!(percent_decode("%4"), "%4", "a cut escape keeps its bytes");
    assert_eq!(percent_decode("%"), "%");
    assert_eq!(percent_decode("%FF"), "\u{FFFD}", "what is no text is replaced");
}

#[test]
fn fresh_pairing_code_is_six_digits() {
    for _ in 0..64 {
        let code = fresh_pairing_code();
        assert_eq!(code.len(), 6, "code must be 6 chars: {code}");
        assert!(
            code.bytes().all(|b| b.is_ascii_digit()),
            "code must be all digits: {code}"
        );
    }
}

#[test]
fn fresh_codes_differ() {
    let first = fresh_pairing_code();
    assert!((0..16).any(|_| fresh_pairing_code() != first));
}

#[test]
fn a_code_is_padded() {
    assert_eq!(pairing_code_from(&[0; 16]), "000000");
    let mut b = [0u8; 16];
    b[7] = 7;
    b[8] = 1;
    assert_eq!(pairing_code_from(&b), "000007");
    assert_eq!(pairing_code_from(&[0xFF; 16]), "551615");
}

#[test]
fn pick_code_prefers_entered_then_link() {
    assert_eq!(
        pick_code(" 482913 ".into(), Some("999999".into())),
        "482913",
        "an explicitly-entered code wins and is trimmed"
    );
    assert_eq!(
        pick_code("   ".into(), Some("123456".into())),
        "123456",
        "a blank entry falls back to the scanned link's code"
    );
    assert_eq!(
        pick_code(String::new(), None),
        "",
        "nothing entered and no link yields an empty code"
    );
}

#[test]
fn parse_pair_uri_tolerates_malformed_query_params() {
    let link = "lanbeam://pair?flag&a=192.168.1.9&c=&p=notaport";
    let t = parse_dial_target(link).expect("a= still yields a target");
    assert_eq!(t.ip, Ipv4Addr::new(192, 168, 1, 9));
    assert_eq!(t.port, DEFAULT_TCP_PORT, "an unparseable port keeps the default");
    assert!(t.code.is_none(), "an empty c= carries no code");

    assert!(
        parse_dial_target("lanbeam://pair?p=51999&c=123456").is_none(),
        "a link without a= yields no dial target"
    );
}
