//! Addresses and networks in text.

use eshield::common::IpFamily;
use eshield::common::IpKey;
use eshield::ip::parse_cidr;
use eshield::ip::parse_ip;
use eshield::ip::parse_ip_or_cidr;
use eshield::ip::IpError;
use eshield::ip_format::format_ip_key;
use eshield::maps::bytes_to_ip_key;
use eshield::maps::ip_index_key;
use eshield::maps::key_of_octets;
use eshield::prefix::lookup;
use eshield::prefix::IpPrefix;

#[test]
fn config_test_parse_ip_ipv4_ok() {
    let key = parse_ip("192.0.2.1").unwrap();
    assert_eq!(key.family, IpFamily::Ipv4.to_u8());
    assert_eq!(key.ipv4(), 0xc000_0201);
}

#[test]
fn config_test_parse_ip_ipv6_ok() {
    let key = parse_ip("2001:db8::1").unwrap();
    assert_eq!(key.family, IpFamily::Ipv6.to_u8());
    let expected: [u8; 16] = [0x20, 0x01, 0x0d, 0xb8, 0, 0, 0, 0, 0, 0, 0, 0, 0, 0, 0, 1];
    assert_eq!(key.addr, expected);
}

#[test]
fn test_parse_cidr_ipv4_ok() {
    let (key, prefix) = parse_cidr("10.0.0.0/8").unwrap();
    assert_eq!(prefix, 8);
    assert_eq!(key.family, IpFamily::Ipv4.to_u8());
    assert_eq!(key.ipv4(), 0x0a00_0000);
}

#[test]
fn config_test_parse_cidr_ipv6_ok() {
    let (key, prefix) = parse_cidr("2001:db8::/32").unwrap();
    assert_eq!(prefix, 32);
    assert_eq!(key.family, IpFamily::Ipv6.to_u8());
    assert_eq!(&key.addr[..4], &[0x20, 0x01, 0x0d, 0xb8]);
    assert!(key.addr[4..].iter().all(|&b| b == 0));
}

#[test]
fn config_test_parse_cidr_invalid_prefix_rejected() {
    assert!(parse_cidr("192.0.2.0/33").is_err());
    assert!(parse_cidr("2001:db8::/129").is_err());
}

#[test]
fn control_test_parse_ip_ipv4_ok() {
    let key = parse_ip("192.0.2.1").unwrap();
    assert_eq!(key.family, IpFamily::Ipv4.to_u8());
    assert_eq!(key.ipv4(), 0xc000_0201);
}

#[test]
fn control_test_parse_ip_ipv6_ok() {
    let key = parse_ip("::1").unwrap();
    assert_eq!(key.family, IpFamily::Ipv6.to_u8());
}

#[test]
fn test_parse_cidr_ok() {
    let (key, prefix) = parse_cidr("10.0.0.0/8").unwrap();
    assert_eq!(key.family, IpFamily::Ipv4.to_u8());
    assert_eq!(key.ipv4(), 0x0a00_0000);
    assert_eq!(prefix, 8);
}

#[test]
fn control_test_parse_cidr_ipv6_ok() {
    let (key, prefix) = parse_cidr("2001:db8::/32").unwrap();
    assert_eq!(key.family, IpFamily::Ipv6.to_u8());
    assert_eq!(prefix, 32);
}

#[test]
fn control_test_parse_cidr_invalid_prefix_rejected() {
    assert!(parse_cidr("192.0.2.0/33").is_err());
    assert!(parse_cidr("2001:db8::/129").is_err());
}

#[test]
fn a_network_reads_back_from_its_text() {
    for s in ["10.1.2.3/12", "0.0.0.0/0", "192.0.2.7/32", "2001:db8:ffff::1/33", "::ffff:1.2.3.4/96"]
    {
        let (key, prefix) = parse_cidr(s).unwrap();
        let text = format!("{}/{}", format_ip_key(&key), prefix);
        assert_eq!(parse_cidr(&text), Ok((key, prefix)));
    }
    assert_eq!(parse_cidr("10.31.2.3/12").unwrap().0.ipv4(), 0x0a10_0000);
    let (key, _) = parse_cidr("2001:db8:1:2:ff34::1/64").unwrap();
    assert_eq!(format_ip_key(&key), "2001:db8:1:2:ff00::");
    let (key, _) = parse_cidr("2001:db8::ffff/127").unwrap();
    assert_eq!(format_ip_key(&key), "2001:db8::fffe");
}

#[test]
fn a_host_is_an_address_or_a_network_of_one() {
    assert_eq!(parse_ip_or_cidr("192.0.2.7/32"), parse_ip("192.0.2.7"));
    assert_eq!(parse_ip_or_cidr("2001:db8::1/128"), parse_ip("2001:db8::1"));
    assert_eq!(parse_ip_or_cidr("192.0.2.0/24"), Err(IpError::HostRequired(32)));
    assert_eq!(parse_ip_or_cidr("192.0.2.7/32/32"), Err(IpError::InvalidCidr));
}

#[test]
fn each_kind_of_bad_address_is_told_apart() {
    assert_eq!(parse_ip("1.2.3"), Err(IpError::InvalidAddress));
    assert_eq!(parse_ip("01.2.3.4"), Err(IpError::InvalidAddress));
    assert_eq!(parse_ip("256.2.3.4"), Err(IpError::InvalidAddress));
    assert_eq!(parse_ip("1::2::3"), Err(IpError::InvalidAddress));
    assert_eq!(parse_cidr("10.0.0.0"), Err(IpError::InvalidCidr));
    assert_eq!(parse_cidr("10.0.0.0/x"), Err(IpError::InvalidPrefix));
    assert_eq!(parse_cidr("10.0.0.0/33"), Err(IpError::PrefixTooLong));
    assert_eq!(parse_cidr("10.0.0/8"), Err(IpError::InvalidAddress));
}

#[test]
fn an_address_of_a_host_may_carry_its_full_prefix() {
    assert_eq!(parse_ip_or_cidr("10.0.0.1/32").unwrap().ipv4(), 0x0a00_0001);
    assert_eq!(parse_ip_or_cidr("10.0.0.1").unwrap().ipv4(), 0x0a00_0001);
    assert_eq!(parse_ip_or_cidr("10.0.0.0/24"), Err(IpError::HostRequired(32)));
    assert_eq!(parse_ip_or_cidr("2001:db8::/32"), Err(IpError::HostRequired(128)));
}

#[test]
fn formatted_addresses_read_back() {
    for text in ["192.0.2.1", "0.0.0.0", "255.255.255.255"] {
        let key = parse_ip(text).unwrap();
        assert_eq!(format_ip_key(&key), text);
    }
    for text in [
        "2001:db8::1",
        "::",
        "::1",
        "1::",
        "fe80::1:0:0:1",
        "1:2:3:4:5:6:7:8",
        "::ffff:1.2.3.4",
    ] {
        let key = parse_ip(text).unwrap();
        let shown = format_ip_key(&key);
        assert_eq!(parse_ip(&shown).unwrap(), key);
        assert_eq!(shown, text);
    }
}

#[test]
fn mapped_address_has_sixteen_octets() {
    let key = parse_ip("::ffff:1.2.3.4").unwrap();
    assert_eq!(key.addr, [0, 0, 0, 0, 0, 0, 0, 0, 0, 0, 0xff, 0xff, 1, 2, 3, 4]);
}

#[test]
fn keys_of_a_table_tell_addresses_apart() {
    let a = IpKey::from_ipv4([10, 0, 0, 1]);
    let b = IpKey::from_ipv6(a.addr);
    assert_ne!(ip_index_key(&a), ip_index_key(&b));
    assert_eq!(key_of_octets(&ip_index_key(&a)), a);
    assert_eq!(bytes_to_ip_key(&ip_index_key(&b)), b);
    assert_eq!(bytes_to_ip_key(&[1, 2, 3]), IpKey::default());
}

#[test]
fn a_family_reads_back_from_its_number() {
    assert_eq!(IpFamily::from_u8(4), Some(IpFamily::Ipv4));
    assert_eq!(IpFamily::from_u8(6), Some(IpFamily::Ipv6));
    assert_eq!(IpFamily::from_u8(5), None);
    assert_eq!(IpKey::from_ipv4([1, 2, 3, 4]).ipv4(), 0x0102_0304);
}

#[test]
fn a_prefix_holds_the_addresses_below_it() {
    let net = IpPrefix { key: IpKey::from_ipv4([10, 1, 0, 0]), len: 16 };
    assert!(net.contains(&IpKey::from_ipv4([10, 1, 255, 7])));
    assert!(!net.contains(&IpKey::from_ipv4([10, 2, 0, 0])));
    let wide = IpPrefix { key: net.key, len: 7 };
    assert!(wide.contains(&IpKey::from_ipv4([11, 9, 9, 9])));
    assert!(!wide.contains(&IpKey::from_ipv4([12, 0, 0, 0])));
    assert!(!net.contains(&IpKey::from_ipv6(IpKey::from_ipv4([10, 1, 0, 0]).addr)));
    let table = vec![net];
    assert!(lookup(&table, &IpKey::from_ipv4([10, 1, 2, 3])));
    assert!(!lookup(&table, &IpKey::from_ipv4([10, 3, 2, 3])));
}
