use tfscale::ip::{format_ip, format_ipv4, parse_ip, parse_ipv4, parse_socket_addr, IpAddress, Ipv4Address};
use tfscale::ipv6::{format_ipv6, parse_ipv6_chars};
use tfscale::text::{format_decimal, format_hex, sort_texts, trim_chars};

fn chars(s: &str) -> Vec<char> {
    s.chars().collect()
}

#[test]
fn formats_and_parses_ipv4() {
    assert_eq!(format_ipv4(Ipv4Address::new(100, 64, 0, 2)), "100.64.0.2");
    assert_eq!(parse_ipv4("100.64.0.2"), Some(Ipv4Address::new(100, 64, 0, 2)));
    assert_eq!(parse_ipv4("255.255.255.255"), Some(Ipv4Address::new(255, 255, 255, 255)));
    assert_eq!(parse_ipv4("256.0.0.1"), None);
    assert_eq!(parse_ipv4("1.2.3"), None);
    assert_eq!(parse_ipv4("01.2.3.4"), None);
    assert_eq!(parse_ipv4(""), None);
}

#[test]
fn ipv4_text_round_trips() {
    for (a, expected) in [([0u8, 0, 0, 0], "0.0.0.0"), ([1, 2, 3, 4], "1.2.3.4"), ([10, 200, 30, 255], "10.200.30.255")] {
        let text = format_ipv4(Ipv4Address(a));
        assert_eq!(text, expected);
        assert_eq!(parse_ipv4(&text), Some(Ipv4Address(a)));
    }
}

#[test]
fn formats_ipv6_like_std() {
    let cases: [([u16; 8], &str); 7] = [
        ([0, 0, 0, 0, 0, 0, 0, 0], "::"),
        ([0, 0, 0, 0, 0, 0, 0, 1], "::1"),
        ([0x2001, 0xdb8, 0, 0, 0, 0, 0, 1], "2001:db8::1"),
        ([0x2001, 0xdb8, 0, 1, 0, 0, 0, 1], "2001:db8:0:1::1"),
        ([0x2001, 0, 0, 1, 0, 0, 0, 1], "2001:0:0:1::1"),
        ([0, 0, 0, 0, 0, 0xffff, 0xc000, 0x0280], "::ffff:192.0.2.128"),
        ([1, 2, 3, 4, 5, 6, 7, 8], "1:2:3:4:5:6:7:8"),
    ];
    for (segments, expected) in cases {
        assert_eq!(format_ipv6(&segments), expected);
    }
}

#[test]
fn parses_ipv6_like_std() {
    let cases: [(&str, [u16; 8]); 6] = [
        ("::", [0, 0, 0, 0, 0, 0, 0, 0]),
        ("::1", [0, 0, 0, 0, 0, 0, 0, 1]),
        ("2001:db8::1", [0x2001, 0xdb8, 0, 0, 0, 0, 0, 1]),
        ("fe80::1:2", [0xfe80, 0, 0, 0, 0, 0, 1, 2]),
        ("1:2:3:4:5:6:7:8", [1, 2, 3, 4, 5, 6, 7, 8]),
        ("::ffff:192.0.2.128", [0, 0, 0, 0, 0, 0xffff, 0xc000, 0x0280]),
    ];
    for (text, segments) in cases {
        assert_eq!(parse_ipv6_chars(&chars(text)), Some(segments), "{text}");
    }
    for text in [":", "1::2::3", "12345::", "1:2:3:4:5:6:7:8:9", "g::1"] {
        assert_eq!(parse_ipv6_chars(&chars(text)), None, "{text}");
    }
}

#[test]
fn parses_either_family() {
    assert_eq!(parse_ip("10.0.0.1"), Some(IpAddress::V4(Ipv4Address::new(10, 0, 0, 1))));
    assert_eq!(parse_ip("::1"), Some(IpAddress::V6([0, 0, 0, 0, 0, 0, 0, 1])));
    assert_eq!(parse_ip("not-an-ip"), None);
    assert_eq!(format_ip(&IpAddress::V6([0x2001, 0xdb8, 0, 0, 0, 0, 0, 1])), "2001:db8::1");
}

#[test]
fn parses_socket_addresses() {
    assert_eq!(
        parse_socket_addr("127.0.0.1:1053"),
        Some((IpAddress::V4(Ipv4Address::new(127, 0, 0, 1)), 1053))
    );
    assert_eq!(parse_socket_addr("[::1]:443"), Some((IpAddress::V6([0, 0, 0, 0, 0, 0, 0, 1]), 443)));
    assert_eq!(parse_socket_addr("127.0.0.1"), None);
    assert_eq!(parse_socket_addr("127.0.0.1:70000"), None);
    assert_eq!(parse_socket_addr("::1:443"), None);
}

#[test]
fn formats_numbers() {
    assert_eq!(format_decimal(0), "0");
    assert_eq!(format_decimal(18446744073709551615), "18446744073709551615");
    assert_eq!(format_hex(0), "0");
    assert_eq!(format_hex(0xdb8), "db8");
}

#[test]
fn trims_and_sorts_text() {
    assert_eq!(trim_chars("  a b \n"), vec!['a', ' ', 'b']);
    assert_eq!(
        sort_texts(vec![chars("b"), chars("ab"), chars("a")]),
        vec![chars("a"), chars("ab"), chars("b")]
    );
}
