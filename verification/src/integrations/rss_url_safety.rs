//! Which addresses a feed item's URL may point at: public ones only.
use vstd::prelude::*;

verus! {

/// An IP address: four octets, or eight 16-bit segments.
#[derive(Debug, Clone, Copy, PartialEq, Eq)]
pub enum IpAddress {
    V4([u8; 4]),
    V6([u16; 8]),
}

/// Whether an IPv4 address is private (10/8, 172.16/12, 192.168/16),
/// loopback (127/8), link-local (169.254/16), multicast (224/4), the
/// broadcast address, documentation (192.0.2/24, 198.51.100/24,
/// 203.0.113/24) or unspecified (0.0.0.0).
pub open spec fn v4_is_internal(o: Seq<u8>) -> bool {
    ||| o[0] == 10
    ||| o[0] == 172 && 16 <= o[1] <= 31
    ||| o[0] == 192 && o[1] == 168
    ||| o[0] == 127
    ||| o[0] == 169 && o[1] == 254
    ||| 224 <= o[0] <= 239
    ||| o[0] == 255 && o[1] == 255 && o[2] == 255 && o[3] == 255
    ||| o[0] == 192 && o[1] == 0 && o[2] == 2
    ||| o[0] == 198 && o[1] == 51 && o[2] == 100
    ||| o[0] == 203 && o[1] == 0 && o[2] == 113
    ||| o[0] == 0 && o[1] == 0 && o[2] == 0 && o[3] == 0
}

/// Whether an IPv6 address is loopback (::1), multicast (ff00::/8),
/// unspecified (::), unique local (fc00::/7) or unicast link-local
/// (fe80::/10).
pub open spec fn v6_is_internal(s: Seq<u16>) -> bool {
    let zero_head = s[0] == 0 && s[1] == 0 && s[2] == 0 && s[3] == 0 && s[4] == 0 && s[5] == 0 && s[6] == 0;
    ||| zero_head && s[7] == 1
    ||| 0xff00 <= s[0]
    ||| zero_head && s[7] == 0
    ||| 0xfc00 <= s[0] <= 0xfdff
    ||| 0xfe80 <= s[0] <= 0xfebf
}

/// Whether an address is public.
pub open spec fn spec_ip_is_safe(ip: IpAddress) -> bool {
    match ip {
        IpAddress::V4(o) => !v4_is_internal(o@),
        IpAddress::V6(s) => !v6_is_internal(s@),
    }
}

/// Whether an address is public (see `v4_is_internal`, `v6_is_internal`).
pub fn ip_is_safe(ip: IpAddress) -> (r: bool)
    ensures
        r == spec_ip_is_safe(ip),
{
    match ip {
        IpAddress::V4(o) => {
            let internal = o[0] == 10 || (o[0] == 172 && 16 <= o[1] && o[1] <= 31) || (o[0] == 192 && o[1]
                == 168) || o[0] == 127 || (o[0] == 169 && o[1] == 254) || (224 <= o[0] && o[0] <= 239) || (o[0]
                == 255 && o[1] == 255 && o[2] == 255 && o[3] == 255) || (o[0] == 192 && o[1] == 0 && o[2] == 2)
                || (o[0] == 198 && o[1] == 51 && o[2] == 100) || (o[0] == 203 && o[1] == 0 && o[2] == 113) || (
            o[0] == 0 && o[1] == 0 && o[2] == 0 && o[3] == 0);
            !internal
        },
        IpAddress::V6(s) => {
            let zero_head = s[0] == 0 && s[1] == 0 && s[2] == 0 && s[3] == 0 && s[4] == 0 && s[5] == 0 && s[6]
                == 0;
            let internal = (zero_head && s[7] == 1) || 0xff00 <= s[0] || (zero_head && s[7] == 0) || (0xfc00
                <= s[0] && s[0] <= 0xfdff) || (0xfe80 <= s[0] && s[0] <= 0xfebf);
            !internal
        },
    }
}

/// Whether a host's resolved addresses are all public, there being at least one.
pub fn resolved_ips_are_safe(ips: &Vec<IpAddress>) -> (r: bool)
    ensures
        r == (ips@.len() > 0 && forall|i: int| 0 <= i < ips@.len() ==> spec_ip_is_safe(#[trigger] ips@[i])),
{
    let mut i: usize = 0;
    while i < ips.len()
        invariant
            i <= ips@.len(),
            forall|j: int| 0 <= j < i ==> spec_ip_is_safe(#[trigger] ips@[j]),
        decreases ips@.len() - i,
    {
        if !ip_is_safe(ips[i]) {
            return false;
        }
        i = i + 1;
    }
    ips.len() > 0
}

} // verus!
