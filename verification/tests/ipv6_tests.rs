use ddns6::ipv6::{parse_interface_id, Ipv6Prefix};
use ddns6::Ipv6Address;

fn addr(s: &str) -> Ipv6Address {
    Ipv6Address::from_text(s).unwrap()
}

#[test]
fn test_extract_prefix() {
    let a = addr("2001:db8:1234:5678::1");
    let prefix = Ipv6Prefix::extract_from_address(a, 64).unwrap();

    assert_eq!(prefix.prefix_len(), 64);
    assert_eq!(prefix.network(), addr("2001:db8:1234:5678::"));
}

#[test]
fn test_combine_with_interface_id() {
    let a = addr("2001:db8:1234:5678::1");
    let prefix = Ipv6Prefix::extract_from_address(a, 64).unwrap();

    let result = prefix.combine_with_interface_id("::1").unwrap();
    assert_eq!(result, addr("2001:db8:1234:5678::1"));

    let result = prefix.combine_with_interface_id("::2").unwrap();
    assert_eq!(result, addr("2001:db8:1234:5678::2"));

    let result = prefix
        .combine_with_interface_id("::a1b2:c3d4:e5f6:7890")
        .unwrap();
    assert_eq!(result, addr("2001:db8:1234:5678:a1b2:c3d4:e5f6:7890"));
}

#[test]
fn test_parse_interface_id() {
    assert!(parse_interface_id("::1").is_ok());
    assert!(parse_interface_id("::2").is_ok());
    assert!(parse_interface_id("1").is_ok());
    assert!(parse_interface_id("a1b2:c3d4:e5f6:7890").is_ok());
}

#[test]
fn test_prefix_56() {
    let a = addr("2001:db8:1234:5600::1");
    let prefix = Ipv6Prefix::extract_from_address(a, 56).unwrap();

    assert_eq!(prefix.prefix_len(), 56);

    let result = prefix.combine_with_interface_id("::1:0:0:1").unwrap();
    assert_eq!(result.to_text(), "2001:db8:1234:5600:1::1");
}

#[test]
fn test_prefix_48() {
    let a = addr("2001:db8:1200::1");
    let prefix = Ipv6Prefix::extract_from_address(a, 48).unwrap();

    assert_eq!(prefix.prefix_len(), 48);

    let result = prefix.combine_with_interface_id("::1:2:3:4").unwrap();
    assert_eq!(result.to_text(), "2001:db8:1200:0:1:2:3:4");
}

#[test]
fn test_prefix_length_validation() {
    let a = addr("2001:db8::1");

    assert!(Ipv6Prefix::from_address(a, 0).is_ok());
    assert!(Ipv6Prefix::from_address(a, 64).is_ok());
    assert!(Ipv6Prefix::from_address(a, 128).is_ok());
    assert!(Ipv6Prefix::from_address(a, 129).is_err());
}

#[test]
fn test_ipv6_prefix_new() {
    let a = addr("2001:db8::");
    let prefix = Ipv6Prefix::new(a, 64);

    assert_eq!(prefix.network(), a);
    assert_eq!(prefix.prefix_len(), 64);
}

#[test]
fn test_parse_interface_id_formats() {
    assert!(parse_interface_id("::1").is_ok());
    assert!(parse_interface_id("::ffff:192.168.1.1").is_ok());
    assert!(parse_interface_id("fe80::1").is_ok());
    assert!(parse_interface_id("1234:5678:90ab:cdef").is_ok());
    assert!(parse_interface_id("1").is_ok());
    assert!(parse_interface_id("ff:ff:ff:ff").is_ok());
}

#[test]
fn test_parse_interface_id_invalid() {
    assert!(parse_interface_id("not-an-address").is_err());
    assert!(parse_interface_id("999.999.999.999").is_err());
    assert!(parse_interface_id("gggg::1").is_err());
}

#[test]
fn test_combine_with_various_prefix_lengths() {
    let addr32 = addr("2001:db8::");
    let prefix32 = Ipv6Prefix::from_address(addr32, 32).unwrap();
    let result = prefix32
        .combine_with_interface_id("::1234:5678:90ab:cdef")
        .unwrap();
    assert_eq!(result.to_text(), "2001:db8::1234:5678:90ab:cdef");

    let addr80 = addr("2001:db8:1234:5678:90ab::");
    let prefix80 = Ipv6Prefix::from_address(addr80, 80).unwrap();
    let result = prefix80.combine_with_interface_id("::cdef").unwrap();
    assert!(result.to_text().starts_with("2001:db8:1234:5678:90ab"));
}

#[test]
fn test_combine_preserves_prefix() {
    let a = addr("2001:db8:abcd:ef01::");
    let prefix = Ipv6Prefix::from_address(a, 64).unwrap();

    let result1 = prefix.combine_with_interface_id("::1").unwrap();
    let result2 = prefix.combine_with_interface_id("::2").unwrap();

    assert!(result1.to_text().starts_with("2001:db8:abcd:ef01"));
    assert!(result2.to_text().starts_with("2001:db8:abcd:ef01"));
    assert_ne!(result1, result2);
}

#[test]
fn test_edge_case_all_zeros() {
    let a = addr("::");
    let prefix = Ipv6Prefix::extract_from_address(a, 64).unwrap();
    let result = prefix.combine_with_interface_id("::1").unwrap();
    assert_eq!(result.to_text(), "::1");
}

#[test]
fn test_edge_case_all_ones() {
    let a = addr("ffff:ffff:ffff:ffff::");
    let prefix = Ipv6Prefix::extract_from_address(a, 64).unwrap();
    let result = prefix.combine_with_interface_id("::1").unwrap();
    assert!(result.to_text().starts_with("ffff:ffff:ffff:ffff"));
}
