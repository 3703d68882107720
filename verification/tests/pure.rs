//! Cookies, checksums, decay and port rules.

use eshield::pure::build_cookie;
use eshield::pure::checksum;
use eshield::pure::decay_counter;
use eshield::pure::match_port_acl_entry;
use eshield::pure::mix;
use eshield::pure::mss_to_idx;
use eshield::pure::tcp_checksum;
use eshield::pure::AclMatch;
use eshield::pure::COOKIE_SECRET_LEN;

#[test]
fn test_mss_to_idx() {
    assert_eq!(mss_to_idx(0), 0);
    assert_eq!(mss_to_idx(535), 0);
    assert_eq!(mss_to_idx(536), 0);
    assert_eq!(mss_to_idx(1299), 0);
    assert_eq!(mss_to_idx(1300), 1);
    assert_eq!(mss_to_idx(1459), 1);
    assert_eq!(mss_to_idx(1460), 2);
    assert_eq!(mss_to_idx(9000), 2);
}

#[test]
fn test_mix_deterministic() {
    let mut a = 0x9e37_79b9;
    mix(&mut a, 0x1234_5678);
    let mut b = 0x9e37_79b9;
    mix(&mut b, 0x1234_5678);
    assert_eq!(a, b);
    assert_ne!(a, 0x9e37_79b9);
}

#[test]
fn test_build_cookie_encodes_mss_idx() {
    let secret = [0u8; COOKIE_SECRET_LEN];
    let c0 = build_cookie(0xc0a8_0001, 0xc0a8_0002, 12345, 80, 1, 0, &secret);
    let c2 = build_cookie(0xc0a8_0001, 0xc0a8_0002, 12345, 80, 1, 2, &secret);
    assert_eq!(c0 >> 24, 0);
    assert_eq!(c2 >> 24, 2);
    assert_ne!(c0 & 0x00ff_ffff, c2 & 0x00ff_ffff);
}

#[test]
fn test_build_cookie_different_inputs_differ() {
    let secret = [0xabu8; COOKIE_SECRET_LEN];
    let c1 = build_cookie(0xc0a8_0001, 0xc0a8_0002, 12345, 80, 1, 1, &secret);
    let c2 = build_cookie(0xc0a8_0003, 0xc0a8_0002, 12345, 80, 1, 1, &secret);
    assert_ne!(c1, c2);
}

#[test]
fn test_build_cookie_secret_changes_output() {
    let s1 = [0x00u8; COOKIE_SECRET_LEN];
    let s2 = [0xffu8; COOKIE_SECRET_LEN];
    let c1 = build_cookie(0xc0a8_0001, 0xc0a8_0002, 12345, 80, 1, 1, &s1);
    let c2 = build_cookie(0xc0a8_0001, 0xc0a8_0002, 12345, 80, 1, 1, &s2);
    assert_ne!(c1, c2);
}

#[test]
fn test_checksum_zero_for_zero_data() {
    assert_eq!(checksum(&[0, 0, 0, 0]), 0xffff);
}

#[test]
fn a_header_of_zeros_verifies_with_its_checksum() {
    let mut header = [0u8; 20];
    let sum = checksum(&header);
    header[10..12].copy_from_slice(&sum.to_be_bytes());
    assert_eq!(checksum(&header), 0);
}

#[test]
fn test_checksum_known_ip_header() {
    // The header 45 00 00 73 00 00 40 00 40 11 b8 61 c0 a8 00 01 c0 a8 00 c7
    // with its checksum field b8 61 set to 0.
    let data = [
        0x45, 0x00, 0x00, 0x73, 0x00, 0x00, 0x40, 0x00, 0x40, 0x11, 0x00, 0x00, 0xc0, 0xa8,
        0x00, 0x01, 0xc0, 0xa8, 0x00, 0xc7,
    ];
    assert_eq!(checksum(&data), 0xb861);
}

#[test]
fn test_checksum_odd_length() {
    // The last octet is the high one of its word.
    let data = [0x00, 0x01, 0x02];
    let expected = {
        let mut sum: u32 = ((0x00u32) << 8) | 0x01;
        sum += (0x02u32) << 8;
        while (sum >> 16) != 0 {
            sum = (sum & 0xffff) + (sum >> 16);
        }
        !(sum as u16)
    };
    assert_eq!(checksum(&data), expected);
}

#[test]
fn test_tcp_checksum_known_vector() {
    // The smallest segment, all zero, with its pseudo header.
    let saddr = 0xc0a8_0001u32;
    let daddr = 0xc0a8_0002u32;
    let tcp = [0u8; 20];
    let cs = tcp_checksum(saddr, daddr, 6, &tcp);
    // The same sum by hand.
    let mut sum: u32 = 0;
    sum += (saddr >> 16) & 0xffff;
    sum += saddr & 0xffff;
    sum += (daddr >> 16) & 0xffff;
    sum += daddr & 0xffff;
    sum += 6u32;
    sum += tcp.len() as u32;
    for pair in tcp.chunks(2) {
        let word = if pair.len() == 2 {
            ((pair[0] as u32) << 8) | (pair[1] as u32)
        } else {
            (pair[0] as u32) << 8
        };
        sum += word;
    }
    while (sum >> 16) != 0 {
        sum = (sum & 0xffff) + (sum >> 16);
    }
    let expected = !(sum as u16);
    assert_eq!(cs, expected);
}

#[test]
fn test_decay_counter_zero_elapsed() {
    assert_eq!(decay_counter(100, 0, 100_000_000, 7, 8), 100);
}

#[test]
fn test_decay_counter_one_tick() {
    // 100 * 7 / 8 = 87
    assert_eq!(decay_counter(100, 100_000_000, 100_000_000, 7, 8), 87);
}

#[test]
fn test_decay_counter_multiple_ticks() {
    // 100 * (7/8)^3 = 100 * 343 / 512 = 66
    assert_eq!(decay_counter(100, 300_000_000, 100_000_000, 7, 8), 66);
}

#[test]
fn test_decay_counter_caps_at_64_ticks() {
    let v1 = decay_counter(1_000_000, 64 * 100_000_000, 100_000_000, 7, 8);
    let v2 = decay_counter(1_000_000, 10_000 * 100_000_000, 100_000_000, 7, 8);
    assert_eq!(v1, v2);
}

#[test]
fn test_decay_counter_zero_denominator() {
    // The counter stays as it is.
    assert_eq!(decay_counter(100, 100_000_000, 100_000_000, 7, 0), 100);
}

#[test]
fn test_port_acl_match_any_any_drop() {
    assert_eq!(
        match_port_acl_entry(6, 80, 0, 0, 0, 2),
        Some(AclMatch::Drop)
    );
}

#[test]
fn test_port_acl_match_protocol_specific() {
    assert_eq!(
        match_port_acl_entry(6, 80, 6, 80, 80, 2),
        Some(AclMatch::Drop)
    );
    assert_eq!(match_port_acl_entry(17, 80, 6, 80, 80, 2), None);
}

#[test]
fn test_port_acl_match_port_range() {
    assert_eq!(
        match_port_acl_entry(6, 443, 6, 1, 1024, 2),
        Some(AclMatch::Drop)
    );
    assert_eq!(
        match_port_acl_entry(6, 443, 6, 1, 1024, 1),
        Some(AclMatch::Allow)
    );
    assert_eq!(match_port_acl_entry(6, 4433, 6, 1, 1024, 2), None);
}

#[test]
fn test_port_acl_match_any_protocol_specific_port() {
    assert_eq!(
        match_port_acl_entry(17, 53, 0, 53, 53, 2),
        Some(AclMatch::Drop)
    );
}

#[test]
fn test_port_acl_match_empty_action() {
    assert_eq!(match_port_acl_entry(6, 80, 6, 80, 80, 0), None);
}

#[test]
fn a_written_checksum_verifies() {
    let mut data = [
        0x45, 0x00, 0x00, 0x73, 0x00, 0x00, 0x40, 0x00, 0x40, 0x11, 0x00, 0x00, 0xc0, 0xa8, 0x00,
        0x01, 0xc0, 0xa8, 0x00, 0xc7,
    ];
    let sum = checksum(&data);
    data[10] = (sum >> 8) as u8;
    data[11] = sum as u8;
    assert_eq!(checksum(&data), 0);
}

#[test]
fn decay_never_raises_a_counter() {
    assert_eq!(decay_counter(100, 100_000_000, 100_000_000, 8, 8), 100);
    assert_eq!(decay_counter(100, 100_000_000, 0, 7, 8), 100);
    assert_eq!(decay_counter(u64::MAX, 100_000_000, 100_000_000, 1, 2), u64::MAX / 2);
}

#[test]
fn a_port_rule_covers_the_ports_it_names() {
    assert_eq!(match_port_acl_entry(6, 1, 0, 1, 1, 1), Some(AclMatch::Allow));
    assert_eq!(match_port_acl_entry(6, 2, 0, 1, 1, 1), None);
    assert_eq!(match_port_acl_entry(6, 80, 0, 80, 0, 2), Some(AclMatch::Drop));
    assert_eq!(match_port_acl_entry(6, 81, 0, 80, 0, 2), None);
    assert_eq!(match_port_acl_entry(6, 80, 6, 80, 80, 3), None);
}
