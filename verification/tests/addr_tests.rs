use shredstream_proxy::addr::{parse_ipv4, addr_less, ip_less, IpAddress, SockAddr};

fn v4(a: u8, b: u8, c: u8, d: u8) -> u32 {
    ((a as u32) << 24) | ((b as u32) << 16) | ((c as u32) << 8) | (d as u32)
}

#[test]
fn parses_plain_dotted_quad() {
    assert_eq!(parse_ipv4(b"1.2.3.4"), Some(v4(1, 2, 3, 4)));
    assert_eq!(parse_ipv4(b"0.0.0.0"), Some(0));
    assert_eq!(parse_ipv4(b"255.255.255.255"), Some(u32::MAX));
    assert_eq!(parse_ipv4(b"10.0.0.1"), Some(v4(10, 0, 0, 1)));
    assert_eq!(parse_ipv4(b"192.168.1.200"), Some(v4(192, 168, 1, 200)));
}

#[test]
fn rejects_out_of_range_octet() {
    assert_eq!(parse_ipv4(b"256.1.1.1"), None);
    assert_eq!(parse_ipv4(b"1.1.1.999"), None);
    assert_eq!(parse_ipv4(b"1.1.300.1"), None);
}

#[test]
fn rejects_wrong_shape() {
    assert_eq!(parse_ipv4(b""), None);
    assert_eq!(parse_ipv4(b"1.2.3"), None);
    assert_eq!(parse_ipv4(b"1.2.3.4.5"), None);
    assert_eq!(parse_ipv4(b"1..3.4"), None);
    assert_eq!(parse_ipv4(b".1.2.3"), None);
    assert_eq!(parse_ipv4(b"1.2.3."), None);
    assert_eq!(parse_ipv4(b"a.b.c.d"), None);
    assert_eq!(parse_ipv4(b"1.2.3.4 "), None);
    assert_eq!(parse_ipv4(b"1234.1.1.1"), None);
}

#[test]
fn rejects_leading_zeros() {
    assert_eq!(parse_ipv4(b"01.2.3.4"), None);
    assert_eq!(parse_ipv4(b"1.2.3.04"), None);
    assert_eq!(parse_ipv4(b"1.00.3.4"), None);
    // a single zero octet is fine
    assert_eq!(parse_ipv4(b"0.2.3.4"), Some(v4(0, 2, 3, 4)));
}

#[test]
fn orders_addresses_by_family_value_then_port() {
    let a = SockAddr { ip: IpAddress::V4(v4(10, 0, 0, 1)), port: 8001 };
    let b = SockAddr { ip: IpAddress::V4(v4(10, 0, 0, 2)), port: 8000 };
    let c = SockAddr { ip: IpAddress::V4(v4(10, 0, 0, 1)), port: 8002 };
    let d = SockAddr { ip: IpAddress::V6(1), port: 1 };
    assert!(addr_less(&a, &b));
    assert!(!addr_less(&b, &a));
    assert!(addr_less(&a, &c));
    assert!(addr_less(&b, &d));
    assert!(!addr_less(&d, &b));
    assert!(ip_less(&IpAddress::V4(u32::MAX), &IpAddress::V6(0)));
    assert!(!addr_less(&a, &a));
    assert_eq!(a, a);
    assert_ne!(a, c);
}
