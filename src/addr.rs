//! The outbound address filter: the gateway must not be usable to reach
//! loopback, private or reserved addresses, nor itself.

use vstd::prelude::*;

verus! {

/// An IP address, as its octets (IPv4) or its eight 16-bit segments (IPv6).
#[derive(Clone, Copy, PartialEq, Eq, Structural, Debug)]
pub enum IpAddress {
    V4(u8, u8, u8, u8),
    V6(u16, u16, u16, u16, u16, u16, u16, u16),
}

/// The operator's choices on outbound security; both refuse by default.
#[derive(Clone, Copy, PartialEq, Eq, Structural, Debug)]
pub struct SecurityConfig {
    /// Allow connections to addresses that are not globally routable, and to
    /// the gateway's own address.
    pub allow_private_connections: bool,
    /// Accept invalid TLS certificates and host names.
    pub allow_invalid_tls: bool,
}

impl SecurityConfig {
    pub fn new() -> (r: SecurityConfig)
        ensures
            !r.allow_private_connections,
            !r.allow_invalid_tls,
    {
        SecurityConfig { allow_private_connections: false, allow_invalid_tls: false }
    }
}

/// An IPv4 address in none of the special-purpose blocks that are not
/// globally reachable: 0/8, 10/8, 100.64/10, 127/8, 169.254/16, 172.16/12,
/// 192.0.0/24 (but .9 and .10), 192.0.2/24, 192.168/16, 198.18/15,
/// 198.51.100/24, 203.0.113/24, 240/4 and the broadcast address.
pub open spec fn v4_global(a: u8, b: u8, c: u8, d: u8) -> bool {
    !(a == 0
        || a == 10
        || (a == 100 && 64 <= b && b <= 127)
        || a == 127
        || (a == 169 && b == 254)
        || (a == 172 && 16 <= b && b <= 31)
        || (a == 192 && b == 0 && c == 0 && d != 9 && d != 10)
        || (a == 192 && b == 0 && c == 2)
        || (a == 192 && b == 168)
        || (a == 198 && (b == 18 || b == 19))
        || (a == 198 && b == 51 && c == 100)
        || (a == 203 && b == 0 && c == 113)
        || a >= 240)
}

/// An IPv6 address in none of the special-purpose blocks that are not
/// globally reachable: `::`, `::1`, `::ffff:0:0/96`, `64:ff9b:1::/48`,
/// `100::/64`, `2001::/23` (but for `2001:1::1`, `2001:1::2`, `2001:3::/32`,
/// `2001:4:112::/48` and `2001:20::/27`), `2002::/16`, `2001:db8::/32`,
/// `3fff::/20`, `5f00::/16`, `fc00::/7` and `fe80::/10`.
pub open spec fn v6_global(s0: u16, s1: u16, s2: u16, s3: u16, s4: u16, s5: u16, s6: u16, s7: u16) -> bool {
    let low_zero = s0 == 0 && s1 == 0 && s2 == 0 && s3 == 0 && s4 == 0;
    let ietf = s0 == 0x2001 && s1 < 0x200;
    let ietf_global = (s0 == 0x2001 && s1 == 1 && s2 == 0 && s3 == 0 && s4 == 0 && s5 == 0 && s6 == 0
        && (s7 == 1 || s7 == 2))
        || (s0 == 0x2001 && s1 == 3)
        || (s0 == 0x2001 && s1 == 4 && s2 == 0x112)
        || (s0 == 0x2001 && 0x20 <= s1 && s1 <= 0x3F);
    !((low_zero && s5 == 0 && s6 == 0 && s7 == 0)
        || (low_zero && s5 == 0 && s6 == 0 && s7 == 1)
        || (low_zero && s5 == 0xffff)
        || (s0 == 0x64 && s1 == 0xff9b && s2 == 1)
        || (s0 == 0x100 && s1 == 0 && s2 == 0 && s3 == 0)
        || (ietf && !ietf_global)
        || s0 == 0x2002
        || (s0 == 0x2001 && s1 == 0xdb8)
        || (s0 == 0x3fff && s1 < 0x1000)
        || s0 == 0x5f00
        || (0xfc00 <= s0 && s0 <= 0xfdff)
        || (0xfe80 <= s0 && s0 <= 0xfebf))
}

/// The address is globally routable.
pub open spec fn is_global(ip: IpAddress) -> bool {
    match ip {
        IpAddress::V4(a, b, c, d) => v4_global(a, b, c, d),
        IpAddress::V6(s0, s1, s2, s3, s4, s5, s6, s7) => v6_global(s0, s1, s2, s3, s4, s5, s6, s7),
    }
}

impl IpAddress {
    /// Whether the address is globally routable.
    pub fn is_global(&self) -> (r: bool)
        ensures
            r == is_global(*self),
    {
        match *self {
            IpAddress::V4(a, b, c, d) => !(a == 0
                || a == 10
                || (a == 100 && 64 <= b && b <= 127)
                || a == 127
                || (a == 169 && b == 254)
                || (a == 172 && 16 <= b && b <= 31)
                || (a == 192 && b == 0 && c == 0 && d != 9 && d != 10)
                || (a == 192 && b == 0 && c == 2)
                || (a == 192 && b == 168)
                || (a == 198 && (b == 18 || b == 19))
                || (a == 198 && b == 51 && c == 100)
                || (a == 203 && b == 0 && c == 113)
                || a >= 240),
            IpAddress::V6(s0, s1, s2, s3, s4, s5, s6, s7) => {
                let low_zero = s0 == 0 && s1 == 0 && s2 == 0 && s3 == 0 && s4 == 0;
                let ietf = s0 == 0x2001 && s1 < 0x200;
                let ietf_global = (s0 == 0x2001 && s1 == 1 && s2 == 0 && s3 == 0 && s4 == 0 && s5 == 0
                    && s6 == 0 && (s7 == 1 || s7 == 2))
                    || (s0 == 0x2001 && s1 == 3)
                    || (s0 == 0x2001 && s1 == 4 && s2 == 0x112)
                    || (s0 == 0x2001 && 0x20 <= s1 && s1 <= 0x3F);
                !((low_zero && s5 == 0 && s6 == 0 && s7 == 0)
                    || (low_zero && s5 == 0 && s6 == 0 && s7 == 1)
                    || (low_zero && s5 == 0xffff)
                    || (s0 == 0x64 && s1 == 0xff9b && s2 == 1)
                    || (s0 == 0x100 && s1 == 0 && s2 == 0 && s3 == 0)
                    || (ietf && !ietf_global)
                    || s0 == 0x2002
                    || (s0 == 0x2001 && s1 == 0xdb8)
                    || (s0 == 0x3fff && s1 < 0x1000)
                    || s0 == 0x5f00
                    || (0xfc00 <= s0 && s0 <= 0xfdff)
                    || (0xfe80 <= s0 && s0 <= 0xfebf))
            },
        }
    }
}

/// Why an outbound target was not accepted.
#[derive(Clone, Copy, PartialEq, Eq, Structural, Debug)]
pub enum TargetError {
    /// The host name did not resolve to any address.
    Unresolved,
    /// The address is not globally routable, or is the gateway's own.
    NotGloballyRoutable,
}

impl TargetError {
    pub open spec fn message_text(self) -> Seq<char> {
        match self {
            TargetError::Unresolved => "Unable to resolve IP"@,
            TargetError::NotGloballyRoutable => "The provided host cannot be globally routed"@,
        }
    }

    /// The human-readable text of the error.
    pub fn message(&self) -> (r: &'static str)
        ensures
            r@ == self.message_text(),
    {
        match self {
            TargetError::Unresolved => "Unable to resolve IP",
            TargetError::NotGloballyRoutable => "The provided host cannot be globally routed",
        }
    }
}

/// Whether the filter refuses `ip`.
pub open spec fn refused(ip: IpAddress, local: Option<IpAddress>, config: SecurityConfig) -> bool {
    !config.allow_private_connections && (!is_global(ip) || local == Some(ip))
}

/// Checks the first address that the target host resolved to (`None` when
/// it resolved to none) against the filter; `local` is the gateway's own
/// address, when known.
pub fn get_ip_ensure_non_local(resolved: Option<IpAddress>, local: Option<IpAddress>, config: &SecurityConfig) -> (r: Result<IpAddress, TargetError>)
    ensures
        resolved is None ==> r == Err::<IpAddress, TargetError>(TargetError::Unresolved),
        resolved matches Some(ip) ==> (r == if refused(ip, local, *config) {
            Err::<IpAddress, TargetError>(TargetError::NotGloballyRoutable)
        } else {
            Ok::<IpAddress, TargetError>(ip)
        }),
{
    let ip = match resolved {
        None => return Err(TargetError::Unresolved),
        Some(ip) => ip,
    };
    if !config.allow_private_connections {
        let equal_local = match local {
            Some(l) => l == ip,
            None => false,
        };
        if !ip.is_global() || equal_local {
            return Err(TargetError::NotGloballyRoutable);
        }
    }
    Ok(ip)
}

/// Loopback and the gateway's own address are refused unless the operator
/// allows private connections; a public address passes the filter.
pub proof fn lemma_loopback_and_self_refused(own: IpAddress, config: SecurityConfig)
    ensures
        !config.allow_private_connections ==> refused(IpAddress::V4(127, 0, 0, 1), Some(own), config),
        !config.allow_private_connections ==> refused(own, Some(own), config),
        config.allow_private_connections ==> !refused(IpAddress::V4(127, 0, 0, 1), Some(own), config),
        own != IpAddress::V4(8, 8, 8, 8) ==> !refused(IpAddress::V4(8, 8, 8, 8), Some(own), config),
        !refused(IpAddress::V4(8, 8, 8, 8), None, config),
{
}

} // verus!
