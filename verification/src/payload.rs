//! The messages that pass between the server, its clients and the application.
use crate::addr::SocketAddr;
use vstd::prelude::*;

verus! {

/// What peers send each other.
#[derive(Debug, PartialEq, Eq)]
pub enum Payloads {
    /// The name that a client asked for is taken.
    InvalidName {},
    /// The version that a client speaks is not the server's.
    InvalidVersion { server_version: String },
    /// Somebody is in the session.
    PlayerJoined { name: String, in_control: bool, is_server: bool, is_observer: bool },
    /// Somebody has left the session.
    PlayerLeft { name: String },
    /// `to` is made an observer, or is one no longer.
    SetObserver { from: String, to: String, is_observer: bool },
    /// A rendezvous server is told that a peer has been reached.
    PeerEstablished { peer: SocketAddr },
    /// Shared state, in its encoded form: the server passes it on unread.
    Update { data: Vec<u8> },
    /// A client asks to be let in.
    InitHandshake { name: String, version: String },
    /// `from` gives the controls to `to`.
    TransferControl { from: String, to: String },
    /// Sent back and forth until two peers reach each other.
    Handshake { session_id: String },
    /// A rendezvous server has opened a session.
    HostingReceived { session_id: String },
    /// A rendezvous server announces a peer that wants to connect.
    AttemptConnection { peer: SocketAddr },
}

/// The value of a [`Payloads`], its texts and bytes read as sequences.
pub enum PayloadView {
    InvalidName,
    InvalidVersion { server_version: Seq<char> },
    PlayerJoined { name: Seq<char>, in_control: bool, is_server: bool, is_observer: bool },
    PlayerLeft { name: Seq<char> },
    SetObserver { from: Seq<char>, to: Seq<char>, is_observer: bool },
    PeerEstablished { peer: SocketAddr },
    Update { data: Seq<u8> },
    InitHandshake { name: Seq<char>, version: Seq<char> },
    TransferControl { from: Seq<char>, to: Seq<char> },
    Handshake { session_id: Seq<char> },
    HostingReceived { session_id: Seq<char> },
    AttemptConnection { peer: SocketAddr },
}

impl View for Payloads {
    type V = PayloadView;

    open spec fn view(&self) -> PayloadView {
        match self {
            Payloads::InvalidName {  } => PayloadView::InvalidName,
            Payloads::InvalidVersion { server_version } => PayloadView::InvalidVersion {
                server_version: server_version@,
            },
            Payloads::PlayerJoined { name, in_control, is_server, is_observer } =>
                PayloadView::PlayerJoined {
                    name: name@,
                    in_control: *in_control,
                    is_server: *is_server,
                    is_observer: *is_observer,
                },
            Payloads::PlayerLeft { name } => PayloadView::PlayerLeft { name: name@ },
            Payloads::SetObserver { from, to, is_observer } => PayloadView::SetObserver {
                from: from@,
                to: to@,
                is_observer: *is_observer,
            },
            Payloads::PeerEstablished { peer } => PayloadView::PeerEstablished { peer: *peer },
            Payloads::Update { data } => PayloadView::Update { data: data@ },
            Payloads::InitHandshake { name, version } => PayloadView::InitHandshake {
                name: name@,
                version: version@,
            },
            Payloads::TransferControl { from, to } => PayloadView::TransferControl {
                from: from@,
                to: to@,
            },
            Payloads::Handshake { session_id } => PayloadView::Handshake {
                session_id: session_id@,
            },
            Payloads::HostingReceived { session_id } => PayloadView::HostingReceived {
                session_id: session_id@,
            },
            Payloads::AttemptConnection { peer } => PayloadView::AttemptConnection { peer: *peer },
        }
    }
}

impl Clone for Payloads {
    fn clone(&self) -> (copy: Self)
        ensures
            copy@ == self@,
    {
        match self {
            Payloads::InvalidName {  } => Payloads::InvalidName {  },
            Payloads::InvalidVersion { server_version } => Payloads::InvalidVersion {
                server_version: server_version.clone(),
            },
            Payloads::PlayerJoined { name, in_control, is_server, is_observer } =>
                Payloads::PlayerJoined {
                    name: name.clone(),
                    in_control: *in_control,
                    is_server: *is_server,
                    is_observer: *is_observer,
                },
            Payloads::PlayerLeft { name } => Payloads::PlayerLeft { name: name.clone() },
            Payloads::SetObserver { from, to, is_observer } => Payloads::SetObserver {
                from: from.clone(),
                to: to.clone(),
                is_observer: *is_observer,
            },
            Payloads::PeerEstablished { peer } => Payloads::PeerEstablished { peer: *peer },
            Payloads::Update { data } => Payloads::Update { data: data.clone() },
            Payloads::InitHandshake { name, version } => Payloads::InitHandshake {
                name: name.clone(),
                version: version.clone(),
            },
            Payloads::TransferControl { from, to } => Payloads::TransferControl {
                from: from.clone(),
                to: to.clone(),
            },
            Payloads::Handshake { session_id } => Payloads::Handshake {
                session_id: session_id.clone(),
            },
            Payloads::HostingReceived { session_id } => Payloads::HostingReceived {
                session_id: session_id.clone(),
            },
            Payloads::AttemptConnection { peer } => Payloads::AttemptConnection { peer: *peer },
        }
    }
}

/// What happens to a session as a whole.
#[derive(Debug, PartialEq, Eq)]
pub enum Event {
    /// The session can be joined.
    ConnectionEstablished,
    /// The session has ended, for this reason.
    ConnectionLost(String),
    /// The rendezvous server could not be reached.
    SessionIdFetchFailed,
}

/// The value of an [`Event`].
pub enum EventView {
    ConnectionEstablished,
    ConnectionLost(Seq<char>),
    SessionIdFetchFailed,
}

impl View for Event {
    type V = EventView;

    open spec fn view(&self) -> EventView {
        match self {
            Event::ConnectionEstablished => EventView::ConnectionEstablished,
            Event::ConnectionLost(reason) => EventView::ConnectionLost(reason@),
            Event::SessionIdFetchFailed => EventView::SessionIdFetchFailed,
        }
    }
}

/// What the server tells the application.
#[derive(Debug, PartialEq, Eq)]
pub enum ReceiveMessage {
    /// A payload that concerns the application.
    Payload(Payloads),
    /// A turn in the session.
    Event(Event),
}

/// The value of a [`ReceiveMessage`].
pub enum ReportView {
    Payload(PayloadView),
    Event(EventView),
}

impl View for ReceiveMessage {
    type V = ReportView;

    open spec fn view(&self) -> ReportView {
        match self {
            ReceiveMessage::Payload(payload) => ReportView::Payload(payload@),
            ReceiveMessage::Event(event) => ReportView::Event(event@),
        }
    }
}

/// A payload on its way to a peer.
#[derive(Debug, PartialEq, Eq)]
pub struct Outgoing {
    pub payload: Payloads,
    pub target: SocketAddr,
}

/// The value of an [`Outgoing`].
pub struct OutgoingView {
    pub payload: PayloadView,
    pub target: SocketAddr,
}

impl View for Outgoing {
    type V = OutgoingView;

    open spec fn view(&self) -> OutgoingView {
        OutgoingView { payload: self.payload@, target: self.target }
    }
}

/// Why the network had no message to hand over.
#[derive(Debug, PartialEq, Eq)]
pub enum Error {
    /// The connection to this peer is gone.
    ConnectionClosed(SocketAddr),
    /// A message came that cannot be read, for this reason.
    SerdeError(String),
    /// Nothing more is waiting to be read.
    ReadTimeout,
    /// Anything else.
    Other(String),
}

} // verus!
