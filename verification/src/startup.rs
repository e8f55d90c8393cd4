//! What has to happen on the network before a session can be hosted.
//!
//! Each value here is one thing to be done; its outcome leads to the next. The errors of the
//! network are of a type `E` that the library only carries.
use crate::addr::SocketAddr;
use crate::payload::{Payloads, ReceiveMessage};
use crossbeam_channel::{Receiver, Sender};
use vstd::prelude::*;

verus! {

/// The value from which the configuration of the socket is made.
pub const SOCKET_CONFIG: u64 = 3;

/// How long the gateway is looked for, in seconds.
pub const GATEWAY_TIMEOUT_SECS: u64 = 3;

/// How long a port stays forwarded, in seconds: one day.
pub const LEASE_SECS: u32 = 86400;

/// Why a port could not be forwarded.
#[derive(Debug, PartialEq, Eq)]
pub enum PortForwardResult<E> {
    /// No gateway answered.
    GatewayNotFound(E),
    /// The machine's address in its network is not an IPv4 address, but this.
    LocalAddrNotIPv4(String),
    /// The gateway did not forward the port.
    AddPortError(E),
    /// The machine's address in its network is not known.
    LocalAddrNotFound,
}

/// Why hosting could not be started.
#[derive(Debug, PartialEq, Eq)]
pub enum StartClientError<E> {
    /// The socket could not be bound.
    SocketError(E),
    /// The port could not be forwarded.
    PortForwardError(PortForwardResult<E>),
    /// The address of the rendezvous server could not be found.
    RendezvousError(E),
}

/// What comes after the socket has been bound.
#[derive(Clone, Copy, Debug, PartialEq, Eq, Structural)]
pub enum AfterBind {
    /// Have the gateway forward this port.
    Forward { port: u16 },
    /// Host the session.
    Host,
    /// Find the address of the rendezvous server.
    FindRendezvous { is_ipv6: bool },
}

/// A socket is to be bound, at this port or at any.
#[derive(Clone, Copy, Debug, PartialEq, Eq)]
pub struct BindRequest {
    pub is_ipv6: bool,
    pub port: Option<u16>,
    pub socket_config: u64,
    pub next: AfterBind,
}

/// How far starting has come.
#[derive(Debug)]
pub enum StartStep {
    /// The gateway is to forward this port.
    Forward { port: u16 },
    /// The address of the rendezvous server is to be found.
    FindRendezvous { is_ipv6: bool },
    /// The session is hosted.
    Hosting(Hosting),
}

/// A session that is hosted.
#[derive(Debug)]
pub struct Hosting {
    /// Which of the server's transfers it is.
    pub transfer: usize,
    /// Where the application puts payloads for the clients in.
    pub client_tx: Sender<Payloads>,
    /// Where the application takes reports out.
    pub server_rx: Receiver<ReceiveMessage>,
}

/// What is known of the machine's address in its network.
#[derive(Debug)]
pub enum LocalAddress {
    /// Nothing.
    NotFound,
    /// It is this, which is not an IPv4 address.
    NotIpv4(String),
    /// It is this IPv4 address, its octets read as one big-endian number.
    Ipv4(u32),
}

/// The gateway is to be looked for.
#[derive(Clone, Copy, Debug, PartialEq, Eq)]
pub struct GatewaySearch {
    /// Where to look from.
    pub bind_addr: SocketAddr,
    /// How long to look, in seconds.
    pub timeout_secs: u64,
    /// The machine's own address.
    pub local_ip: u32,
    /// The port to be forwarded.
    pub port: u16,
}

/// The gateway is to forward a UDP port.
#[derive(Clone, Copy, Debug, PartialEq, Eq)]
pub struct PortMapping {
    /// The port at the gateway.
    pub external_port: u16,
    /// The address of the machine to which what comes in there goes.
    pub local_ip: u32,
    /// The port at that machine.
    pub local_port: u16,
    /// For how long, in seconds.
    pub lease_secs: u32,
    /// What the gateway is told that this is for.
    pub description: &'static str,
}

impl GatewaySearch {
    /// The gateway has been found, or not.
    pub fn found<E>(self, outcome: Result<(), E>) -> (next: Result<
        PortMapping,
        PortForwardResult<E>,
    >)
        ensures
            match outcome {
                Ok(()) => next matches Ok(mapping) && {
                    &&& mapping.external_port == self.port
                    &&& mapping.local_ip == self.local_ip
                    &&& mapping.local_port == self.port
                    &&& mapping.lease_secs == LEASE_SECS
                    &&& mapping.description@ == "YourControls"@
                },
                Err(error) => next == Err::<PortMapping, PortForwardResult<E>>(
                    PortForwardResult::GatewayNotFound(error),
                ),
            },
    {
        match outcome {
            Ok(()) => Ok(
                PortMapping {
                    external_port: self.port,
                    local_ip: self.local_ip,
                    local_port: self.port,
                    lease_secs: LEASE_SECS,
                    description: "YourControls",
                },
            ),
            Err(error) => Err(PortForwardResult::GatewayNotFound(error)),
        }
    }
}

impl PortMapping {
    /// The port has been forwarded, or not.
    pub fn added<E>(self, outcome: Result<(), E>) -> (result: Result<(), PortForwardResult<E>>)
        ensures
            result == match outcome {
                Ok(()) => Ok::<(), PortForwardResult<E>>(()),
                Err(error) => Err(PortForwardResult::AddPortError(error)),
            },
    {
        match outcome {
            Ok(()) => Ok(()),
            Err(error) => Err(PortForwardResult::AddPortError(error)),
        }
    }
}

} // verus!
