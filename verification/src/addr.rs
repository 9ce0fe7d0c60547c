//! Network addresses as plain numbers.

use vstd::prelude::*;

verus! {

/// An IP address. The number is the address in network order, first octet highest.
#[derive(Clone, Copy, Debug, PartialEq, Eq, Structural)]
pub enum Ip {
    V4(u32),
    V6(u128),
}

/// A socket address.
#[derive(Clone, Copy, Debug, PartialEq, Eq, Structural)]
#[allow(inconsistent_fields)]
pub enum Endpoint {
    V4 { ip: u32, port: u16 },
    V6 { ip: u128, port: u16, flowinfo: u32, scope_id: u32 },
}

impl View for Ip {
    type V = Ip;

    open spec fn view(&self) -> Ip {
        *self
    }
}

impl View for Endpoint {
    type V = Endpoint;

    open spec fn view(&self) -> Endpoint {
        *self
    }
}

impl Endpoint {
    /// The address without the port.
    pub open spec fn spec_ip(self) -> Ip {
        match self {
            Endpoint::V4 { ip, .. } => Ip::V4(ip),
            Endpoint::V6 { ip, .. } => Ip::V6(ip),
        }
    }

    /// The address without the port.
    #[verifier::when_used_as_spec(spec_ip)]
    pub fn ip(self) -> (r: Ip)
        ensures
            r == self.spec_ip(),
    {
        match self {
            Endpoint::V4 { ip, .. } => Ip::V4(ip),
            Endpoint::V6 { ip, .. } => Ip::V6(ip),
        }
    }

    pub open spec fn spec_port(self) -> u16 {
        match self {
            Endpoint::V4 { port, .. } => port,
            Endpoint::V6 { port, .. } => port,
        }
    }

    /// The port.
    #[verifier::when_used_as_spec(spec_port)]
    pub fn port(self) -> (r: u16)
        ensures
            r == self.spec_port(),
    {
        match self {
            Endpoint::V4 { port, .. } => port,
            Endpoint::V6 { port, .. } => port,
        }
    }
}

/// Where the IPv4-mapped block `::ffff:0:0/96` begins.
pub const MAPPED: u128 = 0xffff_0000_0000;

/// How many IPv4 addresses there are.
pub const V4_COUNT: u128 = 0x1_0000_0000;

/// The IPv6 loopback address, `::1`.
pub const LOOPBACK_V6: u128 = 1;

/// The IPv4 address that the IPv6 address `ip` stands for, if any: `::ffff:a.b.c.d` and
/// `::a.b.c.d` stand for `a.b.c.d`, except that `::1` is the loopback address and stands for none.
pub open spec fn embedded_v4(ip: u128) -> Option<u32> {
    if ip == LOOPBACK_V6 {
        None
    } else if ip < V4_COUNT {
        Some(ip as u32)
    } else if MAPPED <= ip < MAPPED + V4_COUNT {
        Some((ip - MAPPED) as u32)
    } else {
        None
    }
}

/// The one form of an address: an IPv6 address that stands for an IPv4 one is written as that.
pub open spec fn canonical(a: Endpoint) -> Endpoint {
    match a {
        Endpoint::V6 { ip, port, .. } => match embedded_v4(ip) {
            Some(v4) => Endpoint::V4 { ip: v4, port },
            None => a,
        },
        _ => a,
    }
}

/// The one form of an IP address: see `canonical`.
pub open spec fn canonical_ip(ip: Ip) -> Ip {
    match ip {
        Ip::V6(v6) => match embedded_v4(v6) {
            Some(v4) => Ip::V4(v4),
            None => ip,
        },
        _ => ip,
    }
}

/// The one form of an address. A dual-stack listener sees the IPv4 client `a.b.c.d` as
/// `::ffff:a.b.c.d`; this gives `a.b.c.d` for both, with the same port.
pub fn try_into_v4(a: Endpoint) -> (r: Endpoint)
    ensures
        r == canonical(a),
{
    match a {
        Endpoint::V6 { ip, port, .. } => {
            if ip == LOOPBACK_V6 {
                a
            } else if ip < V4_COUNT {
                Endpoint::V4 { ip: ip as u32, port }
            } else if MAPPED <= ip && ip < MAPPED + V4_COUNT {
                Endpoint::V4 { ip: (ip - MAPPED) as u32, port }
            } else {
                a
            }
        },
        _ => a,
    }
}

/// The one form of an IP address: what `try_into_v4` makes of it under any port.
pub fn ip_into_v4(ip: Ip) -> (r: Ip)
    ensures
        r == canonical_ip(ip),
{
    let a = match ip {
        Ip::V4(ip) => Endpoint::V4 { ip, port: 0 },
        Ip::V6(ip) => Endpoint::V6 { ip, port: 0, flowinfo: 0, scope_id: 0 },
    };
    try_into_v4(a).ip()
}

/// The one form of an address is its own one form, and it keeps the port.
pub proof fn law_canonical_is_stable(a: Endpoint)
    ensures
        canonical(canonical(a)) == canonical(a),
        canonical(a).port() == a.port(),
        canonical(a).ip() == canonical_ip(a.ip()),
{
}

/// The IPv4-mapped form of an IPv4 address and the address itself have the same one form.
pub proof fn law_mapped_is_v4(ip: u32, port: u16, flowinfo: u32, scope_id: u32)
    ensures
        canonical(Endpoint::V6 { ip: (MAPPED + ip) as u128, port, flowinfo, scope_id }) == canonical(
            Endpoint::V4 { ip, port },
        ),
{
}

/// Two IPv4 addresses stay different, and no IPv6 address that stands for none becomes one.
pub proof fn law_canonical_keeps_v4_apart(a: Endpoint, b: Endpoint)
    requires
        a is V4,
        b is V4 || embedded_v4(b->V6_ip) is None,
        canonical(a) == canonical(b),
    ensures
        a == b,
{
}

/// Which address a form stands for: an IPv4 address for itself; `::ffff:a.b.c.d` and `::a.b.c.d`
/// for `a.b.c.d` under the same port, but `::1` for itself; and every other IPv6 address for
/// itself.
pub proof fn law_forms_and_what_they_stand_for(
    v4: u32,
    v6: u128,
    port: u16,
    flowinfo: u32,
    scope_id: u32,
)
    ensures
        canonical(Endpoint::V4 { ip: v4, port }) == (Endpoint::V4 { ip: v4, port }),
        canonical(
            Endpoint::V6 { ip: (0xffff_0000_0000 + v4) as u128, port, flowinfo, scope_id },
        ) == (Endpoint::V4 { ip: v4, port }),
        v4 != 1 ==> canonical(Endpoint::V6 { ip: v4 as u128, port, flowinfo, scope_id }) == (
        Endpoint::V4 { ip: v4, port }),
        v6 == 1 || 0xffff_ffff < v6 < 0xffff_0000_0000 || 0xffff_ffff_ffff < v6 ==> canonical(
            Endpoint::V6 { ip: v6, port, flowinfo, scope_id },
        ) == (Endpoint::V6 { ip: v6, port, flowinfo, scope_id }),
{
}

/// The same holds of an address without a port.
pub proof fn law_ip_forms_and_what_they_stand_for(v4: u32, v6: u128)
    ensures
        canonical_ip(Ip::V4(v4)) == Ip::V4(v4),
        canonical_ip(Ip::V6((0xffff_0000_0000 + v4) as u128)) == Ip::V4(v4),
        v4 != 1 ==> canonical_ip(Ip::V6(v4 as u128)) == Ip::V4(v4),
        v6 == 1 || 0xffff_ffff < v6 < 0xffff_0000_0000 || 0xffff_ffff_ffff < v6 ==> canonical_ip(
            Ip::V6(v6),
        ) == Ip::V6(v6),
{
}

/// The parts of an address are those that it is written with.
pub proof fn law_parts_of_an_address(
    v4: u32,
    v6: u128,
    port: u16,
    flowinfo: u32,
    scope_id: u32,
)
    ensures
        (Endpoint::V4 { ip: v4, port }).ip() == Ip::V4(v4),
        (Endpoint::V4 { ip: v4, port }).port() == port,
        (Endpoint::V6 { ip: v6, port, flowinfo, scope_id }).ip() == Ip::V6(v6),
        (Endpoint::V6 { ip: v6, port, flowinfo, scope_id }).port() == port,
{
}

} // verus!
