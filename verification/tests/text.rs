use rustls::pki_types::{Ipv6Addr, ServerName};
use typroxy::addr::{ipv4_text, ipv6_text, target_key, target_port};
use typroxy::text::{contains_char, first_field, last_field, parse_u16, same_text, trim};

const WHITE_SPACE: [(u32, u32); 10] = [
    (0x9, 0xD),
    (0x20, 0x20),
    (0x85, 0x85),
    (0xA0, 0xA0),
    (0x1680, 0x1680),
    (0x2000, 0x200A),
    (0x2028, 0x2029),
    (0x202F, 0x202F),
    (0x205F, 0x205F),
    (0x3000, 0x3000),
];

#[test]
fn white_space_is_trimmed_and_nothing_else() {
    for code in 0..=0x10FFFFu32 {
        if let Some(c) = char::from_u32(code) {
            let white = WHITE_SPACE.iter().any(|(from, to)| *from <= code && code <= *to);
            let text = format!("{}x{}", c, c);
            let expected = if white { "x".to_string() } else { text.clone() };
            assert_eq!(trim(&text, false), expected, "U+{:04X}", code);
        }
    }
}

#[test]
fn nul_is_trimmed_on_request() {
    assert_eq!(trim("\0 a b\0\n", true), "a b");
    assert_eq!(trim("\0 a b\0\n", false), "\0 a b\0");
    assert_eq!(trim(" \t\0 ", true), "");
    assert_eq!(trim("", true), "");
    assert_eq!(trim("a", false), "a");
}

#[test]
fn fields() {
    assert_eq!(first_field("10.0.0.1:8888", ':'), "10.0.0.1");
    assert_eq!(first_field("host", ':'), "host");
    assert_eq!(first_field(":1", ':'), "");
    assert_eq!(first_field("", ':'), "");
    assert_eq!(last_field("[::1]:53", ':'), "53");
    assert_eq!(last_field("host", ':'), "host");
    assert_eq!(last_field("host:", ':'), "");
    assert_eq!(last_field("", ':'), "");
    assert!(contains_char("a:b", ':'));
    assert!(!contains_char("ab", ':'));
    assert!(!contains_char("", ':'));
}

#[test]
fn texts_are_compared_whole() {
    assert!(same_text("", ""));
    assert!(same_text("ключ", "ключ"));
    assert!(!same_text("ключ", "ключи"));
    assert!(!same_text("a", "b"));
}

#[test]
fn numbers_in_decimal() {
    assert_eq!(parse_u16("0"), Some(0));
    assert_eq!(parse_u16("65535"), Some(65535));
    assert_eq!(parse_u16("65536"), None);
    assert_eq!(parse_u16("00000000000000000000080"), Some(80));
    assert_eq!(parse_u16("99999999999999999999999"), None);
    assert_eq!(parse_u16("+443"), Some(443));
    assert_eq!(parse_u16("+"), None);
    assert_eq!(parse_u16("++1"), None);
    assert_eq!(parse_u16("-1"), None);
    assert_eq!(parse_u16("-0"), None);
    assert_eq!(parse_u16(""), None);
    assert_eq!(parse_u16(" 1"), None);
    assert_eq!(parse_u16("1 "), None);
    assert_eq!(parse_u16("1_0"), None);
    assert_eq!(parse_u16("٣"), None);
    assert_eq!(parse_u16("0x10"), None);
}

#[test]
fn numbers_agree_with_std() {
    for n in 0..=70000u32 {
        let text = format!("{}", n);
        assert_eq!(parse_u16(&text), text.parse::<u16>().ok());
    }
}

#[test]
fn ipv4_is_dotted() {
    assert_eq!(ipv4_text(&[0, 0, 0, 0]), "0.0.0.0");
    assert_eq!(ipv4_text(&[255, 10, 8, 100]), "255.10.8.100");
}

fn v6(groups: [u16; 8]) -> String {
    let mut octets = Vec::new();
    for group in groups {
        octets.extend_from_slice(&group.to_be_bytes());
    }
    ipv6_text(&octets)
}

#[test]
fn ipv6_is_canonical() {
    assert_eq!(v6([0, 0, 0, 0, 0, 0, 0, 0]), "::");
    assert_eq!(v6([0, 0, 0, 0, 0, 0, 0, 1]), "::1");
    assert_eq!(v6([1, 0, 0, 0, 0, 0, 0, 0]), "1::");
    assert_eq!(v6([0x2001, 0xdb8, 0, 0, 0, 0, 0, 1]), "2001:db8::1");
    assert_eq!(v6([0x2001, 0xdb8, 0, 1, 1, 1, 1, 1]), "2001:db8:0:1:1:1:1:1");
    assert_eq!(v6([0x2001, 0xdb8, 0, 0, 1, 0, 0, 1]), "2001:db8::1:0:0:1");
    assert_eq!(v6([0x2001, 0, 0, 1, 0, 0, 0, 1]), "2001:0:0:1::1");
    assert_eq!(v6([0, 0, 1, 2, 3, 4, 0, 0]), "::1:2:3:4:0:0");
    assert_eq!(v6([1, 2, 3, 4, 5, 6, 7, 8]), "1:2:3:4:5:6:7:8");
    assert_eq!(v6([0, 2, 3, 4, 5, 6, 7, 0]), "0:2:3:4:5:6:7:0");
    assert_eq!(
        v6([0xABCD, 0xEF01, 0x10, 0x100, 0xF000, 0xF, 0xFF, 0xFFFF]),
        "abcd:ef01:10:100:f000:f:ff:ffff"
    );
    assert_eq!(v6([0xfe80, 0, 0, 0, 0, 0, 0, 0x1234]), "fe80::1234");
}

#[test]
fn ipv6_mapped_ipv4_ends_in_dotted_decimal() {
    assert_eq!(v6([0, 0, 0, 0, 0, 0xffff, 0xc0a8, 0x0001]), "::ffff:192.168.0.1");
    assert_eq!(v6([0, 0, 0, 0, 0, 0xffff, 0, 0]), "::ffff:0.0.0.0");
    assert_eq!(v6([0, 0, 0, 0, 0, 0, 0xc0a8, 0x0001]), "::c0a8:1");
    assert_eq!(v6([0, 0, 0, 0, 1, 0xffff, 0, 0]), "::1:ffff:0:0");
}

#[test]
fn keys_keep_their_port() {
    for host in ["example.com", "[2001:db8::1]", "", "a:b:c"] {
        for port in [0u16, 1, 80, 443, 9999, 65535] {
            let key = target_key(host, port);
            assert_eq!(key, format!("{}:{}", host, port));
            assert_eq!(target_port(&key), port);
        }
    }
}

#[test]
fn keys_without_a_number_have_port_zero() {
    assert_eq!(target_port("example.com"), 0);
    assert_eq!(target_port("example.com:"), 0);
    assert_eq!(target_port("example.com:http"), 0);
    assert_eq!(target_port("example.com:65536"), 0);
    assert_eq!(target_port(""), 0);
    assert_eq!(target_port("8080"), 8080);
    assert_eq!(target_port("host:+53"), 53);
}

/// The text that std gives to an IPv6 address.
fn std_v6(groups: [u16; 8]) -> String {
    ServerName::from(Ipv6Addr::from(groups)).to_str().into_owned()
}

#[test]
fn ipv6_agrees_with_std() {
    for mask in 0..256u32 {
        for value in [1u16, 0xf, 0xa0, 0xfff, 0xffff] {
            let mut groups = [0u16; 8];
            for i in 0..8 {
                if mask & (1 << i) != 0 {
                    groups[i] = value;
                }
            }
            assert_eq!(v6(groups), std_v6(groups));
        }
    }
    let mut state = 1u32;
    for _ in 0..2000 {
        let mut groups = [0u16; 8];
        for group in groups.iter_mut() {
            state = state.wrapping_mul(1664525).wrapping_add(1013904223);
            if state & 0x8000_0000 != 0 {
                *group = (state >> 8) as u16;
            }
        }
        assert_eq!(v6(groups), std_v6(groups));
    }
}
