//! Tests of the relay classifier and the IP address parsing it rests on.

use nginx_rtmp_exporter::ip::{parse_ip_addr, IpParsed};
use nginx_rtmp_exporter::xml::RtmpStreamClient;

fn client(address: Option<&str>, flashver: Option<&str>) -> RtmpStreamClient {
    RtmpStreamClient {
        id: 1,
        address: address.map(|s| s.to_owned()),
        time: 0,
        flashver: flashver.map(|s| s.to_owned()),
        pageurl: None,
        dropped: 0,
        avsync: 0,
        timestamp: 0,
        publishing: None,
        active: None,
    }
}

const RELAY: &str = "ngx-local-relay";

#[test]
fn parses_ipv4() {
    assert_eq!(
        parse_ip_addr("192.168.1.5"),
        Some(IpParsed::V4 { a: 192, b: 168, c: 1, d: 5 })
    );
    assert_eq!(parse_ip_addr("0.0.0.0"), Some(IpParsed::V4 { a: 0, b: 0, c: 0, d: 0 }));
    assert_eq!(
        parse_ip_addr("255.255.255.255"),
        Some(IpParsed::V4 { a: 255, b: 255, c: 255, d: 255 })
    );
}

#[test]
fn rejects_malformed_ipv4() {
    assert_eq!(parse_ip_addr(""), None);
    assert_eq!(parse_ip_addr("1.2.3"), None);
    assert_eq!(parse_ip_addr("1.2.3.4.5"), None);
    assert_eq!(parse_ip_addr("256.1.1.1"), None);
    assert_eq!(parse_ip_addr("01.2.3.4"), None);
    assert_eq!(parse_ip_addr("1.2.3.4 "), None);
    assert_eq!(parse_ip_addr("1234.1.1.1"), None);
    assert_eq!(parse_ip_addr("not an ip"), None);
}

#[test]
fn parses_ipv6() {
    assert_eq!(
        parse_ip_addr("::1"),
        Some(IpParsed::V6 { g0: 0, g1: 0, g2: 0, g3: 0, g4: 0, g5: 0, g6: 0, g7: 1 })
    );
    assert_eq!(
        parse_ip_addr("0:0:0:0:0:0:0:1"),
        Some(IpParsed::V6 { g0: 0, g1: 0, g2: 0, g3: 0, g4: 0, g5: 0, g6: 0, g7: 1 })
    );
    assert_eq!(
        parse_ip_addr("fe80::1"),
        Some(IpParsed::V6 { g0: 0xfe80, g1: 0, g2: 0, g3: 0, g4: 0, g5: 0, g6: 0, g7: 1 })
    );
    assert_eq!(
        parse_ip_addr("2001:db8:1:2:3:4:5:6"),
        Some(IpParsed::V6 {
            g0: 0x2001,
            g1: 0xdb8,
            g2: 1,
            g3: 2,
            g4: 3,
            g5: 4,
            g6: 5,
            g7: 6
        })
    );
    // Embedded IPv4 in the trailing position.
    assert_eq!(
        parse_ip_addr("::ffff:127.0.0.1"),
        Some(IpParsed::V6 { g0: 0, g1: 0, g2: 0, g3: 0, g4: 0, g5: 0xffff, g6: 0x7f00, g7: 1 })
    );
    assert_eq!(
        parse_ip_addr("::0.0.0.1"),
        Some(IpParsed::V6 { g0: 0, g1: 0, g2: 0, g3: 0, g4: 0, g5: 0, g6: 0, g7: 1 })
    );
    assert_eq!(
        parse_ip_addr("::"),
        Some(IpParsed::V6 { g0: 0, g1: 0, g2: 0, g3: 0, g4: 0, g5: 0, g6: 0, g7: 0 })
    );
}

#[test]
fn rejects_malformed_ipv6() {
    assert_eq!(parse_ip_addr(":::"), None);
    assert_eq!(parse_ip_addr("1:2"), None);
    assert_eq!(parse_ip_addr("1:2:3:4:5:6:7:8:9"), None);
    assert_eq!(parse_ip_addr("1::2::3"), None);
    assert_eq!(parse_ip_addr("12345::"), None);
    assert_eq!(parse_ip_addr("g::1"), None);
    assert_eq!(parse_ip_addr("1.2.3.4::"), None);
}

#[test]
fn is_relay_matches_the_sentinel_exactly() {
    assert!(client(None, Some(RELAY)).is_relay());
    assert!(!client(None, Some("FMLE/3.0")).is_relay());
    assert!(!client(None, Some("ngx-local-relay-2")).is_relay());
    assert!(!client(None, None).is_relay());
}

#[test]
fn local_relay_needs_relay_sentinel_and_internal_address() {
    // Loopback and private addresses, with the sentinel: local relays.
    assert!(client(Some("127.0.0.1"), Some(RELAY)).is_local_relay());
    assert!(client(Some("127.9.8.7"), Some(RELAY)).is_local_relay());
    assert!(client(Some("10.0.0.3"), Some(RELAY)).is_local_relay());
    assert!(client(Some("172.16.0.1"), Some(RELAY)).is_local_relay());
    assert!(client(Some("172.31.255.255"), Some(RELAY)).is_local_relay());
    assert!(client(Some("192.168.1.5"), Some(RELAY)).is_local_relay());
    assert!(client(Some("::1"), Some(RELAY)).is_local_relay());
    assert!(client(Some("0:0:0:0:0:0:0:1"), Some(RELAY)).is_local_relay());
}

#[test]
fn local_relay_fails_open_toward_viewer() {
    // Absent address.
    assert!(!client(None, Some(RELAY)).is_local_relay());
    // Malformed addresses.
    assert!(!client(Some(""), Some(RELAY)).is_local_relay());
    assert!(!client(Some("299.0.0.1"), Some(RELAY)).is_local_relay());
    assert!(!client(Some("localhost"), Some(RELAY)).is_local_relay());
    // Valid but public or merely link-local addresses.
    assert!(!client(Some("8.8.8.8"), Some(RELAY)).is_local_relay());
    assert!(!client(Some("172.32.0.1"), Some(RELAY)).is_local_relay());
    assert!(!client(Some("fe80::1"), Some(RELAY)).is_local_relay());
    // The IPv4-mapped loopback is an IPv6 address, not the loopback one.
    assert!(!client(Some("::ffff:127.0.0.1"), Some(RELAY)).is_local_relay());
    // Without the sentinel even an internal address is a viewer.
    assert!(!client(Some("127.0.0.1"), Some("FMLE/3.0")).is_local_relay());
    assert!(!client(Some("192.168.1.5"), None).is_local_relay());
}
