//! Addresses, sockets and traffic directions as plain values.

use vstd::prelude::*;

verus! {

/// An IP address as the number its octets spell in network order.
#[derive(Clone, Copy, Debug, PartialEq, Eq, PartialOrd, Ord, Hash, Structural)]
pub enum IpAddr {
    V4(u32),
    V6(u128),
}

/// The transport protocols a local socket can speak.
#[derive(Clone, Copy, Debug, PartialEq, Eq, PartialOrd, Ord, Hash, Structural)]
pub enum TransportProtocol {
    Tcp,
    Udp,
}

/// Which way a packet crosses the local host's boundary.
#[derive(Clone, Copy, Debug, PartialEq, Eq, PartialOrd, Ord, Hash, Structural)]
pub enum Direction {
    Inbound,
    Outbound,
}

/// An address together with a port.
#[derive(Clone, Copy, Debug, PartialEq, Eq, PartialOrd, Ord, Hash, Structural)]
pub struct SocketAddr {
    pub ip: IpAddr,
    pub port: u16,
}

/// A socket of the local host.
#[derive(Clone, Copy, Debug, PartialEq, Eq, PartialOrd, Ord, Hash, Structural)]
pub struct LocalSocket {
    pub ip: IpAddr,
    pub port: u16,
    pub protocol: TransportProtocol,
}

/// The number whose big-endian octets are `a.b.c.d`.
pub open spec fn octets_value(a: u8, b: u8, c: u8, d: u8) -> int {
    a * 0x100_0000 + b * 0x1_0000 + c * 0x100 + d
}

/// The upper 96 bits that mark an IPv4-mapped IPv6 address, `::ffff:0:0/96`.
pub open spec fn mapped_prefix() -> int {
    0xffff
}

/// Whether the 128-bit address lies in `::ffff:0:0/96`.
pub open spec fn is_mapped_value(v6: u128) -> bool {
    v6 as int / 0x1_0000_0000 == mapped_prefix()
}

/// The IPv4 address that a mapped IPv6 address carries in its low 32 bits.
pub open spec fn mapped_v4(v6: u128) -> int {
    v6 as int % 0x1_0000_0000
}

/// The address that stands for "any address" in the family of `ip`.
pub open spec fn wildcard_spec(ip: IpAddr) -> IpAddr {
    match ip {
        IpAddr::V4(_) => IpAddr::V4(0),
        IpAddr::V6(_) => IpAddr::V6(0),
    }
}

impl IpAddr {
    /// The IPv4 address `a.b.c.d`.
    pub fn v4(a: u8, b: u8, c: u8, d: u8) -> (ip: IpAddr)
        ensures
            ip == IpAddr::V4(octets_value(a, b, c, d) as u32),
            octets_value(a, b, c, d) <= u32::MAX,
    {
        let value: u32 = a as u32 * 0x100_0000 + b as u32 * 0x1_0000 + c as u32 * 0x100 + d as u32;
        IpAddr::V4(value)
    }
}

impl LocalSocket {
    /// The same port and protocol on another address.
    pub open spec fn at_spec(self, ip: IpAddr) -> LocalSocket {
        LocalSocket { ip, port: self.port, protocol: self.protocol }
    }

    /// The same port and protocol on another address.
    pub fn at(self, ip: IpAddr) -> (socket: LocalSocket)
        ensures
            socket == self.at_spec(ip),
    {
        LocalSocket { ip, port: self.port, protocol: self.protocol }
    }
}

/// The unspecified address of the same family.
pub fn wildcard_for(ip: IpAddr) -> (wildcard: IpAddr)
    ensures
        wildcard == wildcard_spec(ip),
{
    match ip {
        IpAddr::V4(_) => IpAddr::V4(0),
        IpAddr::V6(_) => IpAddr::V6(0),
    }
}

/// The IPv4 address inside an IPv4-mapped IPv6 address.
pub fn to_ipv4_mapped(v6: u128) -> (v4: Option<u32>)
    ensures
        v4 == (if is_mapped_value(v6) { Some(mapped_v4(v6) as u32) } else { None::<u32> }),
{
    if v6 / 0x1_0000_0000 == 0xffff {
        Some((v6 % 0x1_0000_0000) as u32)
    } else {
        None
    }
}

/// Whether the address is an IPv6 address that carries an IPv4 address.
pub open spec fn is_mapped(ip: IpAddr) -> bool {
    ip matches IpAddr::V6(v6) && is_mapped_value(v6)
}

/// Whether the address is an IPv6 address that carries an IPv4 address.
pub fn is_ipv4_mapped(ip: IpAddr) -> (mapped: bool)
    ensures
        mapped == is_mapped(ip),
{
    match ip {
        IpAddr::V6(v6) => to_ipv4_mapped(v6).is_some(),
        IpAddr::V4(_) => false,
    }
}

/// The sockets under which a listener on `socket` is found: its own, and for an
/// IPv4-mapped address also the IPv4 one, flagged as an alias.
pub open spec fn keys_of(socket: LocalSocket) -> Seq<(LocalSocket, bool)> {
    match socket.ip {
        IpAddr::V6(v6) if is_mapped_value(v6) => seq![
            (socket, false),
            (socket.at_spec(IpAddr::V4(mapped_v4(v6) as u32)), true),
        ],
        _ => seq![(socket, false)],
    }
}

/// The sockets under which a listener on `socket` is found, each with whether it
/// is the IPv4 alias of a mapped address.
pub fn socket_keys(socket: LocalSocket) -> (keys: Vec<(LocalSocket, bool)>)
    ensures
        keys@ == keys_of(socket),
{
    let mut keys: Vec<(LocalSocket, bool)> = Vec::new();
    keys.push((socket, false));
    if let IpAddr::V6(v6) = socket.ip {
        if let Some(v4) = to_ipv4_mapped(v6) {
            keys.push((socket.at(IpAddr::V4(v4)), true));
        }
    }
    assert(keys@ =~= keys_of(socket));
    keys
}

} // verus!
