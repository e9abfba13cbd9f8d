use pdf_mcp_server::{is_private_ip, IpAddress};

fn v4(a: u8, b: u8, c: u8, d: u8) -> IpAddress {
    IpAddress::V4([a, b, c, d])
}

fn v6(s: [u16; 8]) -> IpAddress {
    IpAddress::V6(s)
}

#[test]
fn test_is_private_ip_loopback() {
    assert!(is_private_ip(&v4(127, 0, 0, 1)));
    assert!(is_private_ip(&v4(127, 0, 0, 2)));
}

#[test]
fn test_is_private_ip_private_ranges() {
    assert!(is_private_ip(&v4(10, 0, 0, 1)));
    assert!(is_private_ip(&v4(172, 16, 0, 1)));
    assert!(is_private_ip(&v4(172, 31, 255, 255)));
    assert!(is_private_ip(&v4(192, 168, 1, 1)));
}

#[test]
fn test_is_private_ip_link_local() {
    assert!(is_private_ip(&v4(169, 254, 169, 254)));
    assert!(is_private_ip(&v4(169, 254, 0, 1)));
}

#[test]
fn test_is_private_ip_cgnat() {
    assert!(is_private_ip(&v4(100, 64, 0, 1)));
    assert!(is_private_ip(&v4(100, 127, 255, 255)));
}

#[test]
fn test_is_private_ip_special() {
    assert!(is_private_ip(&v4(0, 0, 0, 0)));
    assert!(is_private_ip(&v4(255, 255, 255, 255)));
}

#[test]
fn test_is_private_ip_public() {
    assert!(!is_private_ip(&v4(8, 8, 8, 8)));
    assert!(!is_private_ip(&v4(1, 1, 1, 1)));
    assert!(!is_private_ip(&v4(203, 0, 113, 1)));
}

#[test]
fn test_is_private_ip_ipv6() {
    // ::1, ::, fc00::1, fd00::1, fe80::1
    assert!(is_private_ip(&v6([0, 0, 0, 0, 0, 0, 0, 1])));
    assert!(is_private_ip(&v6([0, 0, 0, 0, 0, 0, 0, 0])));
    assert!(is_private_ip(&v6([0xfc00, 0, 0, 0, 0, 0, 0, 1])));
    assert!(is_private_ip(&v6([0xfd00, 0, 0, 0, 0, 0, 0, 1])));
    assert!(is_private_ip(&v6([0xfe80, 0, 0, 0, 0, 0, 0, 1])));
}

#[test]
fn test_is_private_ip_ipv6_public() {
    // 2001:db8::1, 2607:f8b0:4004:800::200e
    assert!(!is_private_ip(&v6([0x2001, 0xdb8, 0, 0, 0, 0, 0, 1])));
    assert!(!is_private_ip(&v6([0x2607, 0xf8b0, 0x4004, 0x800, 0, 0, 0, 0x200e])));
}

#[test]
fn private_ranges_have_sharp_edges() {
    assert!(!is_private_ip(&v4(172, 15, 255, 255)));
    assert!(!is_private_ip(&v4(172, 32, 0, 0)));
    assert!(!is_private_ip(&v4(100, 63, 255, 255)));
    assert!(!is_private_ip(&v4(100, 128, 0, 0)));
    assert!(!is_private_ip(&v4(192, 169, 0, 1)));
    assert!(!is_private_ip(&v4(255, 255, 255, 254)));
    assert!(!is_private_ip(&v6([0, 0, 0, 0, 0, 0, 0, 2])));
    assert!(!is_private_ip(&v6([0xfec0, 0, 0, 0, 0, 0, 0, 1])));
    assert!(is_private_ip(&v6([0xfebf, 0, 0, 0, 0, 0, 0, 1])));
    assert!(!is_private_ip(&v6([0xfbff, 0, 0, 0, 0, 0, 0, 1])));
    assert!(!is_private_ip(&v6([1, 0, 0, 0, 0, 0, 0, 1])));
}
