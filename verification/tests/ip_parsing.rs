use seaki::ip::{format_ip, format_ipv4, format_ipv6, is_loopback, parse_ip_addr, IpAddress};

fn v4(a: u8, b: u8, c: u8, d: u8) -> Option<IpAddress> {
    Some(IpAddress::V4([a, b, c, d]))
}

fn v6(g: [u16; 8]) -> Option<IpAddress> {
    Some(IpAddress::V6(g))
}

#[test]
fn dotted_decimal_is_ipv4() {
    assert_eq!(parse_ip_addr("192.168.1.20"), v4(192, 168, 1, 20));
    assert_eq!(parse_ip_addr("0.0.0.0"), v4(0, 0, 0, 0));
    assert_eq!(parse_ip_addr("255.255.255.255"), v4(255, 255, 255, 255));
    assert_eq!(parse_ip_addr("127.0.0.1"), v4(127, 0, 0, 1));
}

#[test]
fn malformed_ipv4_is_refused() {
    for s in [
        "", "1.2.3", "1.2.3.4.", ".1.2.3", "1.2.3.4.5", "256.1.1.1", "1.2.3.04", "01.2.3.4",
        "1..2.3", "1.2.3.-4", "+1.2.3.4", " 1.2.3.4", "1.2.3.4 ", "1.2.3.1000", "a.b.c.d",
        "1.2.3.4:80", "1,2,3,4",
    ] {
        assert_eq!(parse_ip_addr(s), None, "{:?}", s);
    }
}

#[test]
fn ipv6_forms_are_accepted() {
    assert_eq!(parse_ip_addr("::"), v6([0; 8]));
    assert_eq!(parse_ip_addr("::1"), v6([0, 0, 0, 0, 0, 0, 0, 1]));
    assert_eq!(parse_ip_addr("1::"), v6([1, 0, 0, 0, 0, 0, 0, 0]));
    assert_eq!(
        parse_ip_addr("fe80::1:2"),
        v6([0xfe80, 0, 0, 0, 0, 0, 1, 2])
    );
    assert_eq!(
        parse_ip_addr("2001:DB8:0:0:8:800:200C:417A"),
        v6([0x2001, 0xdb8, 0, 0, 8, 0x800, 0x200c, 0x417a])
    );
    assert_eq!(
        parse_ip_addr("::ffff:192.0.2.128"),
        v6([0, 0, 0, 0, 0, 0xffff, 0xc000, 0x0280])
    );
    assert_eq!(
        parse_ip_addr("1:2:3:4:5:6:1.2.3.4"),
        v6([1, 2, 3, 4, 5, 6, 0x0102, 0x0304])
    );
    assert_eq!(parse_ip_addr("1:2:3:4:5:6:7::"), v6([1, 2, 3, 4, 5, 6, 7, 0]));
    assert_eq!(parse_ip_addr("::2:3:4:5:6:7:8"), v6([0, 2, 3, 4, 5, 6, 7, 8]));
    assert_eq!(parse_ip_addr("0001:00:0::ffff"), v6([1, 0, 0, 0, 0, 0, 0, 0xffff]));
}

#[test]
fn malformed_ipv6_is_refused() {
    for s in [
        ":", ":::", "1:", ":1", "1::2::3", "1:::2", "12345::", "g::1", "1:2:3:4:5:6:7",
        "1:2:3:4:5:6:7:8:9", "1:2:3:4:5:6:7::8", "::0:0:0:0:0:0:0:0", "1.2.3.4::",
        "1:2:3:4:5:6:7:1.2.3.4", "::1.2.3", "::1.2.3.04", "::1.2.3.4.5", "1:2:3:4:5:6::1.2.3.4",
        "::1:2:3:4:5:6:1.2.3.4", "1:2:3:4:5:6:7:8:", "[::1]", "::1%eth0",
    ] {
        assert_eq!(parse_ip_addr(s), None, "{:?}", s);
    }
}

#[test]
fn ipv4_text_round_trips() {
    for o in [[0u8, 0, 0, 0], [10, 0, 0, 1], [192, 168, 100, 254], [255, 9, 99, 100]] {
        let t = format_ipv4(&o);
        assert_eq!(parse_ip_addr(&t), Some(IpAddress::V4(o)));
    }
    assert_eq!(format_ipv4(&[192, 168, 1, 7]), "192.168.1.7");
    assert_eq!(format_ipv4(&[0, 10, 100, 255]), "0.10.100.255");
}

#[test]
fn loopback_addresses() {
    assert!(is_loopback(&IpAddress::V4([127, 0, 0, 1])));
    assert!(is_loopback(&IpAddress::V4([127, 200, 3, 9])));
    assert!(!is_loopback(&IpAddress::V4([128, 0, 0, 1])));
    assert!(is_loopback(&IpAddress::V6([0, 0, 0, 0, 0, 0, 0, 1])));
    assert!(!is_loopback(&IpAddress::V6([0, 0, 0, 0, 0, 0xffff, 0x7f00, 1])));
    assert!(!is_loopback(&IpAddress::V6([0; 8])));
}

#[test]
fn ipv6_text_compresses_the_first_longest_zero_run() {
    assert_eq!(format_ipv6(&[0, 0, 0, 0, 0, 0, 0, 1]), "::1");
    assert_eq!(format_ipv6(&[0; 8]), "::");
    assert_eq!(format_ipv6(&[1, 0, 0, 0, 0, 0, 0, 0]), "1::");
    assert_eq!(format_ipv6(&[0xfe80, 0, 0, 0, 0, 0, 1, 2]), "fe80::1:2");
    assert_eq!(format_ipv6(&[1, 0, 0, 4, 5, 0, 0, 8]), "1::4:5:0:0:8");
    assert_eq!(format_ipv6(&[1, 0, 2, 0, 3, 0, 4, 0]), "1:0:2:0:3:0:4:0");
    assert_eq!(format_ipv6(&[0, 0, 1, 0, 0, 0, 0, 0]), "0:0:1::");
    assert_eq!(format_ipv6(&[0x2001, 0xdb8, 0, 0, 8, 0x800, 0x200c, 0x417a]), "2001:db8::8:800:200c:417a");
    assert_eq!(format_ipv6(&[0, 0, 0, 0, 0, 0xffff, 0xc000, 0x0280]), "::ffff:192.0.2.128");
    assert_eq!(format_ipv6(&[0, 0, 0, 0, 0, 0, 0xc00a, 0x2ff]), "::c00a:2ff");
    assert_eq!(format_ipv6(&[0xabcd, 0xef01, 0x2345, 0x6789, 0xa, 0xb, 0xc, 0xd]), "abcd:ef01:2345:6789:a:b:c:d");
}

#[test]
fn ip_text_round_trips() {
    let samples = [
        IpAddress::V6([0, 0, 0, 0, 0, 0, 0, 1]),
        IpAddress::V6([0; 8]),
        IpAddress::V6([1, 0, 0, 4, 5, 0, 0, 8]),
        IpAddress::V6([0xffff; 8]),
        IpAddress::V6([0, 0, 0, 0, 0, 0xffff, 0x7f00, 1]),
        IpAddress::V6([0, 1, 0, 1, 0, 1, 0, 1]),
        IpAddress::V6([0x2001, 0xdb8, 1, 2, 0, 0, 0, 5]),
        IpAddress::V4([172, 16, 0, 255]),
    ];
    for a in samples {
        assert_eq!(parse_ip_addr(&format_ip(&a)), Some(a), "{:?}", a);
    }
}
