use vstd::prelude::*;

verus! {

/// The address of a node: an IP address and a port.
///
/// An IPv4 address is held as its four octets in network order packed into a
/// `u32`; an IPv6 address as its sixteen octets packed into a `u128`, with the
/// flow information and scope id that take part in its equality.
#[derive(Clone, Copy, Debug, PartialEq, Eq, Hash, Structural)]
pub enum SocketAddr {
    V4 { ip: u32, port: u16 },
    V6 { ip6: u128, port: u16, flowinfo: u32, scope_id: u32 },
}

impl SocketAddr {
    /// The port of the address.
    pub open spec fn spec_port(self) -> u16 {
        match self {
            SocketAddr::V4 { port, .. } => port,
            SocketAddr::V6 { port, .. } => port,
        }
    }

    /// The address with its port replaced and everything else kept.
    pub open spec fn with_port(self, new_port: u16) -> SocketAddr {
        match self {
            SocketAddr::V4 { ip, .. } => SocketAddr::V4 { ip, port: new_port },
            SocketAddr::V6 { ip6, flowinfo, scope_id, .. } => SocketAddr::V6 {
                ip6,
                port: new_port,
                flowinfo,
                scope_id,
            },
        }
    }

    /// An IPv4 socket address from its four octets and a port.
    pub fn new_v4(a: u8, b: u8, c: u8, d: u8, port: u16) -> (r: SocketAddr)
        ensures
            r == (SocketAddr::V4 { ip: (a * 0x100_0000 + b * 0x1_0000 + c * 0x100 + d) as u32, port }),
    {
        let ip: u32 = (a as u32) * 0x100_0000 + (b as u32) * 0x1_0000 + (c as u32) * 0x100 + (d as u32);
        SocketAddr::V4 { ip, port }
    }

    /// The port of the address.
    pub fn port(&self) -> (r: u16)
        ensures
            r == self.spec_port(),
    {
        match self {
            SocketAddr::V4 { port, .. } => *port,
            SocketAddr::V6 { port, .. } => *port,
        }
    }

    /// Replaces the port and keeps the IP address.
    pub fn set_port(&mut self, new_port: u16)
        ensures
            *final(self) == old(self).with_port(new_port),
    {
        match self {
            SocketAddr::V4 { port, .. } => {
                *port = new_port;
            },
            SocketAddr::V6 { port, .. } => {
                *port = new_port;
            },
        }
    }

    /// Equality of two addresses, as a function.
    pub fn same(&self, other: &SocketAddr) -> (r: bool)
        ensures
            r == (*self == *other),
    {
        *self == *other
    }
}

/// The address `127.0.0.1:8000`.
pub open spec fn local_8000() -> SocketAddr {
    SocketAddr::V4 { ip: 0x7f00_0001, port: 8000 }
}

/// The address `127.0.0.1:8000` that unconfigured actors start with.
pub fn default_local_addr() -> (r: SocketAddr)
    ensures
        r == local_8000(),
{
    SocketAddr::new_v4(127, 0, 0, 1, 8000)
}

} // verus!
