//! What each step of a hosted session does, stated over plain sequences.
//!
//! A step is a function from the state of a transfer, and of what all transfers share, to the state
//! after it. Messages to peers are appended to the outbox, reports to the application to the
//! reports.
use crate::addr::SocketAddr;
use crate::payload::{Error, EventView, OutgoingView, PayloadView, Payloads, ReportView};
use crate::punch::{HolePunchSession, PUNCH_INTERVAL};
use vstd::prelude::*;

verus! {

/// A client that has joined.
pub struct ClientView {
    pub name: Seq<char>,
    pub addr: SocketAddr,
    pub is_observer: bool,
}

/// A hosted session.
#[verifier::ext_equal]
pub struct TransferView {
    /// The name under which a rendezvous server knows the session; empty until it has given one.
    pub session_id: Seq<char>,
    /// The clients, in the order in which they joined.
    pub clients: Seq<ClientView>,
    /// What is to be sent, oldest first.
    pub outbox: Seq<OutgoingView>,
    /// The rendezvous server, where hole punching is used.
    pub rendezvous_server: Option<SocketAddr>,
    /// The peers that are to be reached.
    pub clients_to_holepunch: Seq<HolePunchSession>,
    /// After how many handshakes a peer is given up.
    pub max_punch_retries: u8,
    /// Who has the controls.
    pub in_control: Seq<char>,
    /// The server's own name.
    pub username: Seq<char>,
    /// The version that clients must speak.
    pub version: Seq<char>,
}

/// What all transfers of a server share.
#[verifier::ext_equal]
pub struct SharedView {
    /// How many clients are connected, counted modulo [`connection_counts`].
    pub number_connections: int,
    /// Whether hosting is to end.
    pub should_stop: bool,
    /// The reports handed to the application, oldest first.
    pub reports: Seq<ReportView>,
    /// The payloads that the server itself has handed to the channel to the clients, oldest first.
    pub relayed: Seq<PayloadView>,
    /// What the channel to the clients has answered when asked for a payload, oldest first.
    pub answers: Seq<Option<PayloadView>>,
}

/// How many values the count of connections can have.
pub open spec fn connection_counts() -> int {
    0x1_0000
}

impl TransferView {
    /// Names tell the clients apart and differ from the server's own; no peer has been sent as
    /// many handshakes as it takes to give it up.
    pub open spec fn wf(self) -> bool {
        &&& forall|i: int, j: int|
            0 <= i < j < self.clients.len() ==> #[trigger] self.clients[i].name
                != #[trigger] self.clients[j].name
        &&& forall|i: int|
            0 <= i < self.clients.len() ==> #[trigger] self.clients[i].name != self.username
        &&& forall|i: int|
            0 <= i < self.clients_to_holepunch.len()
                ==> #[trigger] self.clients_to_holepunch[i].retries < self.max_punch_retries
        &&& 0 < self.max_punch_retries
    }

    /// A payload is to be sent to `target`.
    pub open spec fn send(self, payload: PayloadView, target: SocketAddr) -> TransferView {
        TransferView { outbox: self.outbox.push(OutgoingView { payload, target }), ..self }
    }

    /// A payload is to be sent to every client but those at `except`.
    pub open spec fn send_to_all(
        self,
        except: Option<SocketAddr>,
        payload: PayloadView,
    ) -> TransferView {
        TransferView { outbox: self.outbox + broadcast(self.clients, except, payload), ..self }
    }
}

impl SharedView {
    /// The application is told something.
    pub open spec fn report(self, report: ReportView) -> SharedView {
        SharedView { reports: self.reports.push(report), ..self }
    }
}

/// The state of a new session: nobody has joined, and the server has the controls.
pub open spec fn opened(
    username: Seq<char>,
    version: Seq<char>,
    max_punch_retries: u8,
    rendezvous_server: Option<SocketAddr>,
) -> TransferView {
    TransferView {
        session_id: Seq::empty(),
        clients: Seq::empty(),
        outbox: Seq::empty(),
        rendezvous_server,
        clients_to_holepunch: Seq::empty(),
        max_punch_retries,
        in_control: username,
        username,
        version,
    }
}

// Sending to the clients.

/// One copy of `payload` for each client but those at `except`.
pub open spec fn broadcast(
    clients: Seq<ClientView>,
    except: Option<SocketAddr>,
    payload: PayloadView,
) -> Seq<OutgoingView> {
    clients.filter(|client: ClientView| except != Some(client.addr)).map_values(
        |client: ClientView| OutgoingView { payload, target: client.addr },
    )
}

/// Whether a client has this name.
pub open spec fn named(clients: Seq<ClientView>, name: Seq<char>) -> bool {
    exists|i: int| 0 <= i < clients.len() && #[trigger] clients[i].name == name
}

/// Whether a client has this name and this address.
pub open spec fn registered(clients: Seq<ClientView>, name: Seq<char>, addr: SocketAddr) -> bool {
    exists|i: int|
        0 <= i < clients.len() && #[trigger] clients[i].name == name && clients[i].addr == addr
}

/// The clients, those of this name made observers or no longer so.
pub open spec fn with_observer(
    clients: Seq<ClientView>,
    name: Seq<char>,
    is_observer: bool,
) -> Seq<ClientView> {
    clients.map_values(
        |client: ClientView|
            if client.name == name {
                ClientView { is_observer, ..client }
            } else {
                client
            },
    )
}

// Hole punching.

/// Whether a handshake is to be sent: none has been, or the last is at least a second old.
pub open spec fn due(session: HolePunchSession, now: u128) -> bool {
    match session.timer {
        Some(timer) => now - timer >= PUNCH_INTERVAL,
        None => true,
    }
}

/// A peer after a look at the clock: where a handshake is due it has been sent and counted.
pub open spec fn ticked(session: HolePunchSession, now: u128) -> HolePunchSession {
    if due(session, now) {
        HolePunchSession {
            addr: session.addr,
            timer: Some(now),
            retries: (session.retries + 1) as u8,
        }
    } else {
        session
    }
}

/// The peers that are still to be reached after a look at the clock.
pub open spec fn punches_after_tick(
    sessions: Seq<HolePunchSession>,
    now: u128,
    max_punch_retries: u8,
) -> Seq<HolePunchSession> {
    sessions.map_values(|session: HolePunchSession| ticked(session, now)).filter(
        |session: HolePunchSession| session.retries != max_punch_retries,
    )
}

/// The handshakes that a look at the clock sends.
pub open spec fn punch_handshakes(
    sessions: Seq<HolePunchSession>,
    now: u128,
    session_id: Seq<char>,
) -> Seq<OutgoingView> {
    sessions.filter(|session: HolePunchSession| due(session, now)).map_values(
        |session: HolePunchSession|
            OutgoingView {
                payload: PayloadView::Handshake { session_id },
                target: session.addr,
            },
    )
}

/// The peers that are still to be reached once `addr` has been.
pub open spec fn punches_without(
    sessions: Seq<HolePunchSession>,
    addr: SocketAddr,
) -> Seq<HolePunchSession> {
    sessions.filter(|session: HolePunchSession| session.addr != addr)
}

/// A look at the clock: each peer that is due is sent a handshake, and given up if that was the
/// last that it gets.
pub open spec fn punched(s: TransferView, now: u128) -> TransferView {
    TransferView {
        outbox: s.outbox + punch_handshakes(s.clients_to_holepunch, now, s.session_id),
        clients_to_holepunch: punches_after_tick(
            s.clients_to_holepunch,
            now,
            s.max_punch_retries,
        ),
        ..s
    }
}

/// Several looks at the clock, one after the other.
pub open spec fn punched_all(s: TransferView, times: Seq<u128>) -> TransferView
    decreases times.len(),
{
    if times.len() == 0 {
        s
    } else {
        punched(punched_all(s, times.drop_last()), times.last())
    }
}

/// The peers that are still to be reached after several looks at the clock, one after the other.
pub open spec fn punches_after_ticks(
    sessions: Seq<HolePunchSession>,
    times: Seq<u128>,
    max_punch_retries: u8,
) -> Seq<HolePunchSession>
    decreases times.len(),
{
    if times.len() == 0 {
        sessions
    } else {
        punches_after_tick(
            punches_after_ticks(sessions, times.drop_last(), max_punch_retries),
            times.last(),
            max_punch_retries,
        )
    }
}

/// The sessions that concern the peer at an address.
pub open spec fn punches_at(
    sessions: Seq<HolePunchSession>,
    addr: SocketAddr,
) -> Seq<HolePunchSession> {
    sessions.filter(|session: HolePunchSession| session.addr == addr)
}

/// The messages that go to an address.
pub open spec fn messages_to(
    messages: Seq<OutgoingView>,
    addr: SocketAddr,
) -> Seq<OutgoingView> {
    messages.filter(|message: OutgoingView| message.target == addr)
}

/// How many handshakes can still be sent.
pub open spec fn punches_left(sessions: Seq<HolePunchSession>, max_punch_retries: u8) -> int
    decreases sessions.len(),
{
    if sessions.len() == 0 {
        0
    } else {
        punches_left(sessions.drop_last(), max_punch_retries) + max_punch_retries
            - sessions.last().retries
    }
}

// Joining.

/// What a newcomer at `target` is told of those who are in the session: one message for each client,
/// and one for the server.
pub open spec fn roster(s: TransferView, target: SocketAddr) -> Seq<OutgoingView> {
    s.clients.map_values(
        |client: ClientView|
            OutgoingView {
                payload: PayloadView::PlayerJoined {
                    name: client.name,
                    in_control: s.in_control == client.name,
                    is_server: false,
                    is_observer: client.is_observer,
                },
                target,
            },
    ).push(
        OutgoingView {
            payload: PayloadView::PlayerJoined {
                name: s.username,
                in_control: s.in_control == s.username,
                is_server: true,
                is_observer: false,
            },
            target,
        },
    )
}

/// What the others are told of a newcomer.
pub open spec fn announcement(name: Seq<char>) -> PayloadView {
    PayloadView::PlayerJoined { name, in_control: false, is_server: false, is_observer: true }
}

/// Whether somebody who asks for this name and speaks this version is let in.
pub open spec fn admissible(s: TransferView, name: Seq<char>, version: Seq<char>) -> bool {
    version == s.version && name != s.username && !named(s.clients, name)
}

/// Somebody is let in: they are told of those who are there, and the others and the application of
/// them.
pub open spec fn admitted(
    s: TransferView,
    a: SharedView,
    from: SocketAddr,
    name: Seq<char>,
) -> (TransferView, SharedView) {
    (
        TransferView {
            clients: s.clients.push(ClientView { name, addr: from, is_observer: false }),
            outbox: s.outbox + roster(s, from) + broadcast(
                s.clients,
                Some(from),
                announcement(name),
            ),
            ..s
        },
        SharedView {
            number_connections: (a.number_connections + 1) % connection_counts(),
            ..a.report(ReportView::Payload(announcement(name)))
        },
    )
}

/// Somebody asks to be let in.
pub open spec fn asked(
    s: TransferView,
    a: SharedView,
    from: SocketAddr,
    name: Seq<char>,
    version: Seq<char>,
) -> (TransferView, SharedView) {
    if version != s.version {
        (s.send(PayloadView::InvalidVersion { server_version: s.version }, from), a)
    } else if registered(s.clients, name, from) {
        (s, a)
    } else if name == s.username || named(s.clients, name) {
        (s.send(PayloadView::InvalidName, from), a)
    } else {
        admitted(s, a, from, name)
    }
}

// Other messages.

/// A peer sends a handshake. One that knows the session is answered, and need not be reached for any
/// longer, of which the rendezvous server is told.
pub open spec fn shaken(s: TransferView, from: SocketAddr, session_id: Seq<char>) -> TransferView {
    if session_id != s.session_id {
        s
    } else {
        let answered = s.send(PayloadView::Handshake { session_id }, from);
        match s.rendezvous_server {
            Some(rendezvous) => TransferView {
                clients_to_holepunch: punches_without(s.clients_to_holepunch, from),
                ..answered.send(PayloadView::PeerEstablished { peer: from }, rendezvous)
            },
            None => answered,
        }
    }
}

/// Whether a payload is one that no client should be able to send.
pub open spec fn server_only(payload: PayloadView) -> bool {
    match payload {
        PayloadView::InvalidName
        | PayloadView::InvalidVersion { .. }
        | PayloadView::PlayerJoined { .. }
        | PayloadView::PlayerLeft { .. }
        | PayloadView::SetObserver { .. }
        | PayloadView::PeerEstablished { .. } => true,
        _ => false,
    }
}

/// A payload comes in from the peer at `from`.
pub open spec fn received(
    s: TransferView,
    a: SharedView,
    from: SocketAddr,
    payload: PayloadView,
) -> (TransferView, SharedView) {
    match payload {
        PayloadView::InitHandshake { name, version } => asked(s, a, from, name, version),
        PayloadView::Update { .. } => (
            s.send_to_all(Some(from), payload),
            a.report(ReportView::Payload(payload)),
        ),
        PayloadView::TransferControl { to, .. } => (
            TransferView { in_control: to, ..s.send_to_all(Some(from), payload) },
            a.report(ReportView::Payload(payload)),
        ),
        PayloadView::Handshake { session_id } => (
            shaken(s, from, session_id),
            a.report(ReportView::Payload(payload)),
        ),
        PayloadView::HostingReceived { session_id } => (
            TransferView { session_id, ..s },
            a.report(ReportView::Event(EventView::ConnectionEstablished)).report(
                ReportView::Payload(payload),
            ),
        ),
        PayloadView::AttemptConnection { peer } => (
            TransferView {
                clients_to_holepunch: s.clients_to_holepunch.push(
                    HolePunchSession { addr: peer, timer: None, retries: 0 },
                ),
                ..s
            },
            a.report(ReportView::Payload(payload)),
        ),
        _ => (s, a),
    }
}

/// The application wants a payload sent to the clients.
pub open spec fn app_sent(s: TransferView, payload: PayloadView) -> TransferView {
    let sent = s.send_to_all(None, payload);
    match payload {
        PayloadView::TransferControl { to, .. } => TransferView { in_control: to, ..sent },
        _ => sent,
    }
}

/// The application wants several payloads sent, one after the other.
pub open spec fn app_sent_all(s: TransferView, payloads: Seq<PayloadView>) -> TransferView
    decreases payloads.len(),
{
    if payloads.len() == 0 {
        s
    } else {
        app_sent(app_sent_all(s, payloads.drop_last()), payloads.last())
    }
}

/// What the channel answers while payloads are taken from it, one after the other, and, if that
/// drains it, that there are no more.
pub open spec fn poll(payloads: Seq<PayloadView>, drained: bool) -> Seq<Option<PayloadView>> {
    let found = payloads.map_values(|payload: PayloadView| Some(payload));
    if drained {
        found.push(None)
    } else {
        found
    }
}

/// The channel is asked for payloads until it has none, or has given `usize::MAX`.
pub open spec fn polled(a: SharedView, payloads: Seq<PayloadView>, drained: bool) -> SharedView {
    SharedView { answers: a.answers + poll(payloads, drained), ..a }
}

// Leaving.

/// The clients at an address.
pub open spec fn clients_at(clients: Seq<ClientView>, addr: SocketAddr) -> Seq<ClientView> {
    clients.filter(|client: ClientView| client.addr == addr)
}

/// The clients at any other address.
pub open spec fn clients_not_at(clients: Seq<ClientView>, addr: SocketAddr) -> Seq<ClientView> {
    clients.filter(|client: ClientView| client.addr != addr)
}

/// Whoever was at `addr` is gone: the others and the application are told, by the name that joined
/// last from there.
pub open spec fn removed(s: TransferView, a: SharedView, addr: SocketAddr) -> (
    TransferView,
    SharedView,
) {
    let gone = clients_at(s.clients, addr);
    let left = clients_not_at(s.clients, addr);
    if gone.len() == 0 {
        (s, a)
    } else {
        let notice = PayloadView::PlayerLeft { name: gone.last().name };
        (
            TransferView {
                clients: left,
                outbox: s.outbox + broadcast(left, None, notice),
                ..s
            },
            SharedView {
                number_connections: (a.number_connections - 1) % connection_counts(),
                ..a.report(ReportView::Payload(notice))
            },
        )
    }
}

/// Whether losing the connection to `addr` means that no session can be opened: it is the rendezvous
/// server, which has not given the session a name.
pub open spec fn rendezvous_lost(s: TransferView, addr: SocketAddr) -> bool {
    s.session_id.len() == 0 && s.rendezvous_server == Some(addr)
}

/// The connection to `addr` is gone.
pub open spec fn closed_by(s: TransferView, a: SharedView, addr: SocketAddr) -> (
    TransferView,
    SharedView,
) {
    if rendezvous_lost(s, addr) {
        (
            s,
            SharedView {
                should_stop: true,
                ..a.report(ReportView::Event(EventView::SessionIdFetchFailed))
            },
        )
    } else {
        removed(s, a, addr)
    }
}

// Reading.

/// What reading from the network gives.
pub enum ReadView {
    /// A payload from the peer at `from`.
    Message { from: SocketAddr, payload: PayloadView },
    /// The connection to `addr` is gone.
    Closed { addr: SocketAddr },
    /// Nothing more is waiting to be read.
    Timeout,
    /// Anything else that goes wrong.
    Other,
}

/// The value of what reading gave.
pub open spec fn read_view(message: Result<(SocketAddr, Payloads), Error>) -> ReadView {
    match message {
        Ok((from, payload)) => ReadView::Message { from, payload: payload@ },
        Err(Error::ConnectionClosed(addr)) => ReadView::Closed { addr },
        Err(Error::ReadTimeout) => ReadView::Timeout,
        Err(_) => ReadView::Other,
    }
}

/// What reading gave is handled.
pub open spec fn read_one(s: TransferView, a: SharedView, read: ReadView) -> (
    TransferView,
    SharedView,
) {
    match read {
        ReadView::Message { from, payload } => received(s, a, from, payload),
        ReadView::Closed { addr } => closed_by(s, a, addr),
        ReadView::Timeout | ReadView::Other => (s, a),
    }
}

/// What reading gave several times is handled, one after the other.
pub open spec fn read_all(s: TransferView, a: SharedView, reads: Seq<ReadView>) -> (
    TransferView,
    SharedView,
)
    decreases reads.len(),
{
    if reads.len() == 0 {
        (s, a)
    } else {
        let (t, b) = read_all(s, a, reads.drop_last());
        read_one(t, b, reads.last())
    }
}

/// The values of what reading gave several times.
pub open spec fn read_views(reads: Seq<Result<(SocketAddr, Payloads), Error>>) -> Seq<ReadView> {
    reads.map_values(|message: Result<(SocketAddr, Payloads), Error>| read_view(message))
}

/// What was read before the first time that nothing was waiting.
pub open spec fn until_timeout(reads: Seq<ReadView>) -> Seq<ReadView>
    decreases reads.len(),
{
    if reads.len() == 0 || reads.first() is Timeout {
        Seq::empty()
    } else {
        seq![reads.first()] + until_timeout(reads.drop_first())
    }
}

} // verus!
