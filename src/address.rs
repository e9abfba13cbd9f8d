//! Classification of IP addresses that a download must not reach.
use vstd::prelude::*;

verus! {

/// An IP address: four octets, or eight 16-bit segments.
#[derive(Clone, Copy, Debug, PartialEq, Eq)]
pub enum IpAddress {
    V4([u8; 4]),
    V6([u16; 8]),
}

/// Whether an IPv4 address is loopback (127/8), private (10/8, 172.16/12,
/// 192.168/16), link-local (169.254/16), broadcast, unspecified, or in the
/// shared carrier-grade NAT space (100.64/10).
pub open spec fn private_v4(o: [u8; 4]) -> bool {
    let (a, b, c, d) = (o[0], o[1], o[2], o[3]);
    ||| a == 127
    ||| a == 10
    ||| a == 172 && 16 <= b <= 31
    ||| a == 192 && b == 168
    ||| a == 169 && b == 254
    ||| a == 255 && b == 255 && c == 255 && d == 255
    ||| a == 0 && b == 0 && c == 0 && d == 0
    ||| a == 100 && 64 <= b <= 127
}

/// Whether an IPv6 address is loopback (`::1`), unspecified (`::`), unique
/// local (fc00::/7) or link-local (fe80::/10).
pub open spec fn private_v6(s: [u16; 8]) -> bool {
    let zero_head = s[0] == 0 && s[1] == 0 && s[2] == 0 && s[3] == 0 && s[4] == 0 && s[5] == 0
        && s[6] == 0;
    ||| zero_head && s[7] == 1
    ||| zero_head && s[7] == 0
    ||| 0xfc00 <= s[0] <= 0xfdff
    ||| 0xfe80 <= s[0] <= 0xfebf
}

/// Whether an address is private or reserved.
pub open spec fn private_address(ip: IpAddress) -> bool {
    match ip {
        IpAddress::V4(o) => private_v4(o),
        IpAddress::V6(s) => private_v6(s),
    }
}

/// Whether an address is private or reserved, and so closed to downloads.
pub fn is_private_ip(ip: &IpAddress) -> (r: bool)
    ensures
        r == private_address(*ip),
{
    match ip {
        IpAddress::V4(o) => {
            let (a, b, c, d) = (o[0], o[1], o[2], o[3]);
            a == 127 || a == 10 || (a == 172 && 16 <= b && b <= 31) || (a == 192 && b == 168) || (
            a == 169 && b == 254) || (a == 255 && b == 255 && c == 255 && d == 255) || (a == 0 && b
                == 0 && c == 0 && d == 0) || (a == 100 && 64 <= b && b <= 127)
        },
        IpAddress::V6(s) => {
            let zero_head = s[0] == 0 && s[1] == 0 && s[2] == 0 && s[3] == 0 && s[4] == 0 && s[5]
                == 0 && s[6] == 0;
            (zero_head && s[7] == 1) || (zero_head && s[7] == 0) || (0xfc00 <= s[0] && s[0]
                <= 0xfdff) || (0xfe80 <= s[0] && s[0] <= 0xfebf)
        },
    }
}

} // verus!
