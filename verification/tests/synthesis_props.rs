use ddns6::error::Ddns6Error;
use ddns6::ipv6::{parse_interface_id, Ipv6Prefix};
use ddns6::Ipv6Address;

fn addr(s: &str) -> Ipv6Address {
    Ipv6Address::from_text(s).unwrap()
}

#[test]
fn test_derive_zeroes_bits_beyond_length() {
    let a = addr("ffff:ffff:ffff:ffff:ffff:ffff:ffff:ffff");
    for len in 0..=128u8 {
        let prefix = Ipv6Prefix::from_address(a, len).unwrap();
        let bits = prefix.network().bits;
        for pos in len..128 {
            let bit = (bits >> (127 - pos as u32)) & 1;
            assert_eq!(bit, 0, "bit {} not cleared for length {}", pos, len);
        }
    }
}

#[test]
fn test_round_trip_with_zero_interface_id() {
    let a = addr("2001:db8:abcd:ef01:2345:6789:abcd:ef01");
    for len in 0..=128u8 {
        let prefix = Ipv6Prefix::from_address(a, len).unwrap();
        let back = prefix.combine_with_interface_id("::0").unwrap();
        assert_eq!(back, prefix.network(), "round trip failed at length {}", len);
        let back_bare = prefix.combine_with_interface_id("::").unwrap();
        assert_eq!(back_bare, prefix.network());
    }
}

#[test]
fn test_combine_deterministic() {
    let prefix = Ipv6Prefix::from_address(addr("2001:db8:1:2::"), 64).unwrap();
    let first = prefix.combine_with_interface_id("::dead:beef").unwrap();
    let second = prefix.combine_with_interface_id("::dead:beef").unwrap();
    assert_eq!(first, second);
}

#[test]
fn test_octet_boundary_split() {
    // Prefix length 48 is six whole octets: the first six octets come
    // from the prefix, the remaining ten from the interface identifier.
    let prefix = Ipv6Prefix::from_address(addr("2001:db8:1234::"), 48).unwrap();
    let iid = addr("aaaa:bbbb:cccc:dddd:eeee:ffff:1111:2222");
    let combined = prefix
        .combine_with_interface_id("aaaa:bbbb:cccc:dddd:eeee:ffff:1111:2222")
        .unwrap();
    for i in 0..6 {
        assert_eq!(combined.octet(i), prefix.network().octet(i));
    }
    for i in 6..16 {
        assert_eq!(combined.octet(i), iid.octet(i));
    }
}

#[test]
fn test_non_boundary_blends_single_octet() {
    // Prefix length 52 straddles octet 6: the high four bits of that
    // octet come from the prefix, the low four from the identifier.
    let prefix = Ipv6Prefix::from_address(addr("2001:db8:1234:5f00::"), 52).unwrap();
    let iid = addr("::aa:1:2:3:4");
    let combined = prefix.combine_with_interface_id("::aa:1:2:3:4").unwrap();
    for i in 0..6 {
        assert_eq!(combined.octet(i), prefix.network().octet(i));
    }
    let high_mask = 0xf0u8;
    assert_eq!(
        combined.octet(6),
        (prefix.network().octet(6) & high_mask) | (iid.octet(6) & !high_mask)
    );
    for i in 7..16 {
        assert_eq!(combined.octet(i), iid.octet(i));
    }
}

#[test]
fn test_default_length_scenario() {
    let prefix = Ipv6Prefix::extract_from_address(addr("2001:db8:1234:5678::1"), 64).unwrap();
    let result = prefix.combine_with_interface_id("::1").unwrap();
    assert_eq!(result, addr("2001:db8:1234:5678::1"));
}

#[test]
fn test_parse_accepts_full_and_compressed_forms() {
    assert_eq!(
        addr("2001:0db8:0000:0000:0000:0000:0000:0001"),
        addr("2001:db8::1")
    );
    assert_eq!(addr("::"), Ipv6Address::from_bits(0));
    assert_eq!(addr("::1"), Ipv6Address::from_bits(1));
    assert_eq!(
        addr("1:2:3:4:5:6:7:8").to_text(),
        "1:2:3:4:5:6:7:8"
    );
}

#[test]
fn test_parse_rejects_malformed_literals() {
    assert!(Ipv6Address::from_text("").is_none());
    assert!(Ipv6Address::from_text("1:2:3").is_none());
    assert!(Ipv6Address::from_text("1::2::3").is_none());
    assert!(Ipv6Address::from_text("12345::").is_none());
    assert!(Ipv6Address::from_text("::1:2:3:4:5:6:7:8").is_none());
    assert!(Ipv6Address::from_text("g::1").is_none());
    assert!(Ipv6Address::from_text(":::").is_none());
    assert!(Ipv6Address::from_text("1:2:3:4:5:6:7:8:9").is_none());
    assert!(Ipv6Address::from_text("::ffff:300.1.1.1").is_none());
    assert!(Ipv6Address::from_text("::ffff:1.2.3").is_none());
}

#[test]
fn test_parse_embedded_ipv4_tail() {
    let mapped = addr("::ffff:192.168.1.1");
    assert_eq!(mapped.octet(12), 192);
    assert_eq!(mapped.octet(13), 168);
    assert_eq!(mapped.octet(14), 1);
    assert_eq!(mapped.octet(15), 1);
    assert_eq!(mapped.to_text(), "::ffff:192.168.1.1");
}

#[test]
fn test_canonical_text_compression() {
    assert_eq!(addr("::").to_text(), "::");
    assert_eq!(addr("::1").to_text(), "::1");
    assert_eq!(addr("1::").to_text(), "1::");
    assert_eq!(addr("2001:db8:0:0:1:0:0:1").to_text(), "2001:db8::1:0:0:1");
    assert_eq!(addr("2001:db8:1200:0:1:2:3:4").to_text(), "2001:db8:1200:0:1:2:3:4");
    assert_eq!(addr("ff:ab00::").to_text(), "ff:ab00::");
}

#[test]
fn test_prefix_length_error_kind() {
    let r = Ipv6Prefix::from_address(addr("2001:db8::"), 200);
    assert!(matches!(r, Err(Ddns6Error::Ipv6Parse(_))));
}

#[test]
fn test_interface_id_error_kind() {
    let r = parse_interface_id("no-way");
    assert!(matches!(r, Err(Ddns6Error::InvalidInterfaceId(_))));
}

#[test]
fn test_interface_id_fallback_order() {
    // A bare hex token is read through the documentation-range embedding.
    let one = parse_interface_id("1").unwrap();
    assert_eq!(one, addr("2001:db8::1"));
    // A full literal is taken as-is, before any embedding.
    let full = parse_interface_id("fe80::7").unwrap();
    assert_eq!(full, addr("fe80::7"));
    // An IPv4-looking token already parses under the documentation-range
    // embedding, which permits a dotted tail.
    let v4 = parse_interface_id("192.168.1.7").unwrap();
    assert_eq!(v4, addr("2001:db8::192.168.1.7"));
}

#[test]
fn test_text_round_trip() {
    let cases = [
        "::",
        "::1",
        "1::",
        "2001:db8:1234:5678::1",
        "::ffff:192.168.1.1",
        "1:2:3:4:5:6:7:8",
        "2001:db8:1200:0:1:2:3:4",
        "fe80::aaaa:bbbb:cccc:dddd",
    ];
    for s in cases {
        let a = addr(s);
        assert_eq!(Ipv6Address::from_text(&a.to_text()).unwrap(), a);
        assert_eq!(a.to_text(), s);
    }
}
