use fanout::validator::{validate, IpAddress, ValidationError};

#[test]
fn rejects_out_of_range_ipv4_octets() {
    assert_eq!(validate("999.999.999.999:80").unwrap_err(), ValidationError::InvalidAddress);
}

#[test]
fn rejects_port_zero() {
    assert_eq!(validate("127.0.0.1:0").unwrap_err(), ValidationError::InvalidPort);
}

#[test]
fn rejects_port_above_range() {
    assert_eq!(validate("127.0.0.1:70000").unwrap_err(), ValidationError::InvalidPort);
}

#[test]
fn rejects_descriptor_without_port() {
    assert_eq!(validate("127.0.0.1").unwrap_err(), ValidationError::MalformedDescriptor);
}

#[test]
fn accepts_ipv4_with_port() {
    let d = validate("127.0.0.1:9000").unwrap();
    assert_eq!(d.port, 9000);
    match d.addr {
        IpAddress::V4 { octets } => assert_eq!(octets, vec![127u8, 0, 0, 1]),
        IpAddress::V6 { .. } => panic!("parsed an IPv4 literal as IPv6"),
    }
}

#[test]
fn accepts_ipv6_loopback_with_port() {
    let d = validate("::1:9000").unwrap();
    assert_eq!(d.port, 9000);
    match d.addr {
        IpAddress::V6 { segments } => {
            assert_eq!(segments, vec![0u16, 0, 0, 0, 0, 0, 0, 1]);
        },
        IpAddress::V4 { .. } => panic!("parsed an IPv6 literal as IPv4"),
    }
}

#[test]
fn accepts_full_eight_group_ipv6() {
    let d = validate("fe80:0:0:0:1:2:3:4:443").unwrap();
    assert_eq!(d.port, 443);
    match d.addr {
        IpAddress::V6 { segments } => {
            assert_eq!(segments, vec![0xFE80u16, 0, 0, 0, 1, 2, 3, 4]);
        },
        IpAddress::V4 { .. } => panic!("parsed an IPv6 literal as IPv4"),
    }
}

#[test]
fn accepts_compressed_ipv6_in_the_middle() {
    let d = validate("2001:db8::7:1").unwrap();
    assert_eq!(d.port, 1);
    match d.addr {
        IpAddress::V6 { segments } => {
            assert_eq!(segments, vec![0x2001u16, 0x0DB8, 0, 0, 0, 0, 0, 7]);
        },
        IpAddress::V4 { .. } => panic!("parsed an IPv6 literal as IPv4"),
    }
}

#[test]
fn accepts_all_zero_ipv6() {
    let d = validate(":::80").unwrap();
    assert_eq!(d.port, 80);
    match d.addr {
        IpAddress::V6 { segments } => assert_eq!(segments, vec![0u16; 8]),
        IpAddress::V4 { .. } => panic!("parsed an IPv6 literal as IPv4"),
    }
}

#[test]
fn accepts_uppercase_hex_groups() {
    let d = validate("FE80::1:80").unwrap();
    assert_eq!(d.port, 80);
    match d.addr {
        IpAddress::V6 { segments } => {
            assert_eq!(segments, vec![0xFE80u16, 0, 0, 0, 0, 0, 0, 1]);
        },
        IpAddress::V4 { .. } => panic!("parsed an IPv6 literal as IPv4"),
    }
}

#[test]
fn accepts_ipv6_with_embedded_dotted_quad() {
    let d = validate("::ffff:192.168.0.1:8080").unwrap();
    assert_eq!(d.port, 8080);
    match d.addr {
        IpAddress::V6 { segments } => {
            assert_eq!(segments, vec![0u16, 0, 0, 0, 0, 0xFFFF, 0xC0A8, 0x0001]);
        },
        IpAddress::V4 { .. } => panic!("parsed an IPv6 literal as IPv4"),
    }
}

#[test]
fn accepts_full_ipv6_with_embedded_dotted_quad() {
    let d = validate("1:2:3:4:5:6:7.8.9.10:80").unwrap();
    assert_eq!(d.port, 80);
    match d.addr {
        IpAddress::V6 { segments } => {
            assert_eq!(segments, vec![1u16, 2, 3, 4, 5, 6, 0x0708, 0x090A]);
        },
        IpAddress::V4 { .. } => panic!("parsed an IPv6 literal as IPv4"),
    }
}

#[test]
fn rejects_dotted_quad_before_the_end_of_ipv6() {
    assert_eq!(validate("::1.2.3.4:ffff:80").unwrap_err(), ValidationError::InvalidAddress);
}

#[test]
fn rejects_bad_embedded_dotted_quad() {
    assert_eq!(validate("::ffff:192.168.0.256:80").unwrap_err(), ValidationError::InvalidAddress);
}

#[test]
fn accepts_port_with_leading_zeros() {
    let d = validate("1.2.3.4:0080").unwrap();
    assert_eq!(d.port, 80);
}

#[test]
fn accepts_port_range_bounds() {
    assert_eq!(validate("1.2.3.4:1").unwrap().port, 1);
    assert_eq!(validate("1.2.3.4:65535").unwrap().port, 65535);
}

#[test]
fn rejects_host_names() {
    assert_eq!(validate("example.com:80").unwrap_err(), ValidationError::InvalidAddress);
}

#[test]
fn rejects_empty_address_part() {
    assert_eq!(validate(":80").unwrap_err(), ValidationError::MalformedDescriptor);
}

#[test]
fn rejects_empty_port_part() {
    assert_eq!(validate("1.2.3.4:").unwrap_err(), ValidationError::MalformedDescriptor);
}

#[test]
fn rejects_descriptor_without_colon() {
    assert_eq!(validate("localhost").unwrap_err(), ValidationError::MalformedDescriptor);
}

#[test]
fn rejects_ipv4_with_leading_zero_octet() {
    assert_eq!(validate("01.2.3.4:80").unwrap_err(), ValidationError::InvalidAddress);
}

#[test]
fn rejects_ipv4_with_three_octets() {
    assert_eq!(validate("1.2.3:80").unwrap_err(), ValidationError::InvalidAddress);
}

#[test]
fn rejects_ipv6_with_two_compressions() {
    assert_eq!(validate("1::2::3:80").unwrap_err(), ValidationError::InvalidAddress);
}

#[test]
fn rejects_ipv6_with_nine_groups() {
    assert_eq!(
        validate("1:2:3:4:5:6:7:8:9:80").unwrap_err(),
        ValidationError::InvalidAddress
    );
}

#[test]
fn rejects_ipv6_group_of_five_digits() {
    assert_eq!(validate("12345::1:80").unwrap_err(), ValidationError::InvalidAddress);
}

#[test]
fn rejects_non_numeric_port() {
    assert_eq!(validate("1.2.3.4:http").unwrap_err(), ValidationError::InvalidPort);
}
