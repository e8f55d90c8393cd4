//! Network addresses as plain values.
use vstd::prelude::*;

verus! {

/// The address of a peer: an IP address and a UDP port.
///
/// An IPv4 address is its four octets read as one big-endian number, an IPv6 address its sixteen.
/// Two addresses are equal when every part of them is.
#[derive(Clone, Copy, Debug, PartialEq, Eq, Structural)]
pub enum SocketAddr {
    V4 { ipv4: u32, port: u16 },
    V6 { ipv6: u128, port: u16, flowinfo: u32, scope_id: u32 },
}

} // verus!
