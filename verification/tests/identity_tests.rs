use homepage_core::identity::{derive_identity, parse_ip, parse_ipv4, IpAddr};

#[test]
fn ipv4_parses_dotted_decimal() {
    assert_eq!(parse_ipv4(b"1.2.3.4"), Some(0x01020304));
    assert_eq!(parse_ipv4(b"127.0.0.1"), Some(0x7f000001));
    assert_eq!(parse_ipv4(b"255.255.255.255"), Some(0xffffffff));
    assert_eq!(parse_ipv4(b"0.0.0.0"), Some(0));
}

#[test]
fn ipv4_rejects_malformed_addresses() {
    assert_eq!(parse_ipv4(b""), None);
    assert_eq!(parse_ipv4(b"1.2.3"), None);
    assert_eq!(parse_ipv4(b"1.2.3.4.5"), None);
    assert_eq!(parse_ipv4(b"256.1.1.1"), None);
    assert_eq!(parse_ipv4(b"01.2.3.4"), None);
    assert_eq!(parse_ipv4(b"1.2.3.x"), None);
    assert_eq!(parse_ipv4(b"1..3.4"), None);
    assert_eq!(parse_ipv4(b" 1.2.3.4"), None);
}

#[test]
fn proxy_header_wins_when_it_parses() {
    let r = derive_identity(Some("9.8.7.6"), Some("1.2.3.4"), Some(IpAddr::V4(42)));
    assert_eq!(r, Some(IpAddr::V4(0x09080706)));
}

#[test]
fn forwarded_for_first_entry_is_used() {
    let r = derive_identity(None, Some("1.2.3.4, 5.6.7.8"), Some(IpAddr::V4(42)));
    assert_eq!(r, Some(IpAddr::V4(0x01020304)));
    let r = derive_identity(None, Some("  10.0.0.1 , 5.6.7.8"), None);
    assert_eq!(r, Some(IpAddr::V4(0x0a000001)));
}

#[test]
fn unparseable_headers_fall_back_to_peer() {
    let peer = Some(IpAddr::V6(7));
    assert_eq!(derive_identity(Some("not-an-ip"), None, peer), peer);
    assert_eq!(derive_identity(None, Some("garbage, 1.2.3.4"), peer), peer);
    assert_eq!(derive_identity(None, None, peer), peer);
}

#[test]
fn unresolvable_identity_is_nothing() {
    assert_eq!(derive_identity(Some("x"), Some("y"), None), None);
    assert_eq!(derive_identity(None, None, None), None);
}

#[test]
fn parse_ip_wraps_ipv4() {
    assert_eq!(parse_ip(b"1.2.3.4"), Some(IpAddr::V4(0x01020304)));
    assert_eq!(parse_ip(b"nope"), None);
}

#[test]
fn ipv6_parses_full_form() {
    assert_eq!(
        homepage_core::identity::parse_ipv6(b"1:2:3:4:5:6:7:8"),
        Some(0x0001_0002_0003_0004_0005_0006_0007_0008)
    );
    assert_eq!(
        homepage_core::identity::parse_ipv6(b"2001:0db8:85a3:0000:0000:8a2e:0370:7334"),
        Some(0x2001_0db8_85a3_0000_0000_8a2e_0370_7334)
    );
    assert_eq!(
        homepage_core::identity::parse_ipv6(b"ABCD:ef01:2345:6789:abcd:EF01:2345:6789"),
        Some(0xabcd_ef01_2345_6789_abcd_ef01_2345_6789)
    );
}

#[test]
fn ipv6_elision_stands_for_zero_groups() {
    assert_eq!(homepage_core::identity::parse_ipv6(b"::"), Some(0));
    assert_eq!(homepage_core::identity::parse_ipv6(b"::1"), Some(1));
    assert_eq!(
        homepage_core::identity::parse_ipv6(b"fe80::1"),
        Some(0xfe80_0000_0000_0000_0000_0000_0000_0001)
    );
    assert_eq!(
        homepage_core::identity::parse_ipv6(b"2001:db8::8a2e:370:7334"),
        Some(0x2001_0db8_0000_0000_0000_8a2e_0370_7334)
    );
    assert_eq!(
        homepage_core::identity::parse_ipv6(b"1:2:3:4:5:6:7::"),
        Some(0x0001_0002_0003_0004_0005_0006_0007_0000)
    );
}

#[test]
fn ipv6_embedded_dotted_quad_fills_the_last_groups() {
    assert_eq!(
        homepage_core::identity::parse_ipv6(b"::ffff:192.168.0.1"),
        Some(0x0000_0000_0000_0000_0000_ffff_c0a8_0001)
    );
    assert_eq!(
        homepage_core::identity::parse_ipv6(b"1:2:3:4:5:6:7.8.9.10"),
        Some(0x0001_0002_0003_0004_0005_0006_0708_090a)
    );
}

#[test]
fn ipv6_rejects_malformed_addresses() {
    let reject: &[&[u8]] = &[
        b"",
        b":",
        b"1:2:3:4:5:6:7",
        b"1:2:3:4:5:6:7:8:9",
        b"1:2:3:4:5:6:7:8::",
        b"1:2:3:4:5:6:7::8",
        b"1:::2",
        b"12345::",
        b"g::",
        b"1:2:3:4:5:6:1.2.3.4.5",
        b"::1.2.3.300",
        b"1.2.3.4::",
    ];
    for input in reject {
        assert_eq!(homepage_core::identity::parse_ipv6(input), None);
    }
}

#[test]
fn ipv6_headers_derive_identities() {
    let r = derive_identity(Some("fe80::1"), None, None);
    assert_eq!(r, Some(IpAddr::V6(0xfe80_0000_0000_0000_0000_0000_0000_0001)));
    let r = derive_identity(None, Some("2001:db8::2, 1.2.3.4"), None);
    assert_eq!(r, Some(IpAddr::V6(0x2001_0db8_0000_0000_0000_0000_0000_0002)));
}
