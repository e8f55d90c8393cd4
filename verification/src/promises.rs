//! What each step of a session does, told by what goes in and what comes out.
//!
//! Messages are told by whom they go to and what they say, one by one. Where a step goes over a list
//! of peers, what it does to one peer is told, and that it does to a longer list what it does to
//! its parts.
use crate::addr::SocketAddr;
use crate::model::{
    announcement, app_sent, app_sent_all, broadcast, clients_at, closed_by, due, opened, polled,
    punch_handshakes, punched, punches_after_tick, punches_without, read_all, read_one, read_view,
    received, removed, roster, ticked, with_observer, ClientView, ReadView, SharedView,
    TransferView,
};
use crate::payload::{Error, EventView, OutgoingView, PayloadView, Payloads, ReportView};
use crate::punch::HolePunchSession;
use crate::seqs::{lemma_filter_of_push, lemma_filter_places, lemma_map_of_push};
use vstd::prelude::*;

verus! {

/// In a session that is in order no two clients have the same name, none has the server's, and
/// nobody has been sent as many handshakes as it takes to be given up.
pub proof fn session_in_order_tells_clients_apart(s: TransferView, i: int, j: int)
    requires
        s.wf(),
    ensures
        0 <= i < s.clients.len() && 0 <= j < s.clients.len() && i != j ==> s.clients[i].name
            != s.clients[j].name,
        0 <= i < s.clients.len() ==> s.clients[i].name != s.username,
        0 <= i < s.clients_to_holepunch.len() ==> s.clients_to_holepunch[i].retries
            < s.max_punch_retries,
{
    if 0 <= i < s.clients.len() && 0 <= j < s.clients.len() {
        if i < j {
            assert(s.clients[i].name != s.clients[j].name);
        } else if j < i {
            assert(s.clients[j].name != s.clients[i].name);
        }
    }
}

// Who is sent what.

/// Whom messages go to, in their order.
pub open spec fn targets(messages: Seq<OutgoingView>) -> Seq<SocketAddr> {
    messages.map_values(|message: OutgoingView| message.target)
}

/// The addresses of clients, in the order in which they joined.
pub open spec fn addresses(clients: Seq<ClientView>) -> Seq<SocketAddr> {
    clients.map_values(|client: ClientView| client.addr)
}

/// Being another address than `addr`.
pub open spec fn elsewhere(addr: SocketAddr) -> spec_fn(SocketAddr) -> bool {
    |other: SocketAddr| other != addr
}

/// The addresses of the clients elsewhere than at `addr`, in the order in which they joined.
pub open spec fn addresses_but(clients: Seq<ClientView>, addr: SocketAddr) -> Seq<SocketAddr> {
    addresses(clients).filter(elsewhere(addr))
}

/// Whether these messages are one copy of `payload` for each of these addresses, in their order.
pub open spec fn copies(
    messages: Seq<OutgoingView>,
    payload: PayloadView,
    to: Seq<SocketAddr>,
) -> bool {
    &&& targets(messages) == to
    &&& forall|j: int| 0 <= j < messages.len() ==> (#[trigger] messages[j]).payload == payload
}

/// What has been added to what is to be sent.
pub open spec fn added(s: TransferView, t: TransferView) -> Seq<OutgoingView> {
    t.outbox.skip(s.outbox.len() as int)
}

/// A payload for all but those at an address is for the clients elsewhere; one for all is for all.
proof fn lemma_broadcast_is_copies(
    clients: Seq<ClientView>,
    except: SocketAddr,
    payload: PayloadView,
)
    ensures
        copies(
            broadcast(clients, Some(except), payload),
            payload,
            addresses_but(clients, except),
        ),
        copies(broadcast(clients, None, payload), payload, addresses(clients)),
    decreases clients.len(),
{
    let nobody: Option<SocketAddr> = None;
    let but = Some(except);
    let keep = |client: ClientView| but != Some(client.addr);
    let keep_all = |client: ClientView| nobody != Some(client.addr);
    let addr = |client: ClientView| client.addr;
    let wrap = |client: ClientView| OutgoingView { payload, target: client.addr };
    let target = |message: OutgoingView| message.target;
    reveal(Seq::filter);
    if clients.len() == 0 {
        assert(addresses(clients) =~= Seq::empty());
        assert(addresses_but(clients, except) =~= Seq::empty());
        assert(clients.filter(keep) =~= Seq::empty());
        assert(clients.filter(keep_all) =~= Seq::empty());
        assert(targets(broadcast(clients, but, payload)) =~= Seq::empty());
        assert(targets(broadcast(clients, nobody, payload)) =~= Seq::empty());
    } else {
        let rest = clients.drop_last();
        let last = clients.last();
        lemma_broadcast_is_copies(rest, except, payload);
        assert(rest.push(last) =~= clients);
        lemma_map_of_push(rest, last, addr);
        lemma_filter_of_push(addresses(rest), last.addr, elsewhere(except));
        lemma_filter_of_push(rest, last, keep);
        lemma_filter_of_push(rest, last, keep_all);
        lemma_map_of_push(rest.filter(keep), last, wrap);
        lemma_map_of_push(rest.filter(keep_all), last, wrap);
        lemma_map_of_push(broadcast(rest, but, payload), wrap(last), target);
        lemma_map_of_push(broadcast(rest, nobody, payload), wrap(last), target);
    }
}

/// Sending to one peer adds one message, to that peer; sending to all adds one copy for each client,
/// or for each but those at an address. Nothing else changes.
pub proof fn sending_reaches_whom_it_is_for(
    s: TransferView,
    payload: PayloadView,
    target: SocketAddr,
)
    ensures
        s.send(payload, target) == (TransferView {
            outbox: s.outbox.push(OutgoingView { payload, target }),
            ..s
        }),
        ({
            let t = s.send_to_all(Some(target), payload);
            &&& t == (TransferView { outbox: t.outbox, ..s })
            &&& s.outbox.is_prefix_of(t.outbox)
            &&& copies(added(s, t), payload, addresses_but(s.clients, target))
        }),
        ({
            let t = s.send_to_all(None, payload);
            &&& t == (TransferView { outbox: t.outbox, ..s })
            &&& s.outbox.is_prefix_of(t.outbox)
            &&& copies(added(s, t), payload, addresses(s.clients))
        }),
{
    let but = s.send_to_all(Some(target), payload);
    let all = s.send_to_all(None, payload);
    lemma_broadcast_is_copies(s.clients, target, payload);
    assert(added(s, but) =~= broadcast(s.clients, Some(target), payload));
    assert(added(s, all) =~= broadcast(s.clients, None, payload));
}

// Joining.

/// Somebody who speaks the server's version and asks for a name that nobody has is let in. They are
/// told first of each client, as it is, then of the server, then each client elsewhere is told of
/// them, and so is the application; they are the last of the clients, and counted. Of all whom they
/// are told of the server alone is marked as the server. This is so in every session.
pub proof fn newcomer_is_told_of_everybody(
    s: TransferView,
    a: SharedView,
    from: SocketAddr,
    name: Seq<char>,
    version: Seq<char>,
)
    requires
        version == s.version,
        name != s.username,
        forall|i: int| 0 <= i < s.clients.len() ==> (#[trigger] s.clients[i]).name != name,
        0 <= a.number_connections <= 0xffff,
    ensures
        ({
            let (t, b) = received(s, a, from, PayloadView::InitHandshake { name, version });
            let new = added(s, t);
            let n = s.clients.len() as int;
            let notice = PayloadView::PlayerJoined {
                name,
                in_control: false,
                is_server: false,
                is_observer: true,
            };
            &&& s.outbox.is_prefix_of(t.outbox)
            &&& new.len() > n
            &&& forall|i: int|
                0 <= i < n ==> #[trigger] new[i] == (OutgoingView {
                    payload: PayloadView::PlayerJoined {
                        name: s.clients[i].name,
                        in_control: s.clients[i].name == s.in_control,
                        is_server: false,
                        is_observer: s.clients[i].is_observer,
                    },
                    target: from,
                })
            &&& new[n] == (OutgoingView {
                payload: PayloadView::PlayerJoined {
                    name: s.username,
                    in_control: s.username == s.in_control,
                    is_server: true,
                    is_observer: false,
                },
                target: from,
            })
            &&& copies(new.skip(n + 1), notice, addresses_but(s.clients, from))
            &&& t == (TransferView {
                outbox: t.outbox,
                clients: s.clients.push(ClientView { name, addr: from, is_observer: false }),
                ..s
            })
            &&& b == (SharedView {
                number_connections: if a.number_connections == 0xffff {
                    0
                } else {
                    a.number_connections + 1
                },
                reports: a.reports.push(ReportView::Payload(notice)),
                ..a
            })
        }),
{
    let (t, b) = received(s, a, from, PayloadView::InitHandshake { name, version });
    let told = roster(s, from);
    let others = broadcast(s.clients, Some(from), announcement(name));
    lemma_broadcast_is_copies(s.clients, from, announcement(name));
    assert(added(s, t) =~= told + others);
    assert(added(s, t).skip(s.clients.len() as int + 1) =~= others);
}

/// Somebody who speaks another version is told the server's, whatever name they ask for and whoever
/// has joined, and nothing else happens.
pub proof fn other_version_is_told_the_servers(
    s: TransferView,
    a: SharedView,
    from: SocketAddr,
    name: Seq<char>,
    version: Seq<char>,
)
    requires
        version != s.version,
    ensures
        received(s, a, from, PayloadView::InitHandshake { name, version }) == (
            TransferView {
                outbox: s.outbox.push(
                    OutgoingView {
                        payload: PayloadView::InvalidVersion { server_version: s.version },
                        target: from,
                    },
                ),
                ..s
            },
            a,
        ),
{
}

/// Somebody who asks for the server's name, or for that of a client elsewhere, is told that the name
/// will not do, and nothing else happens.
pub proof fn taken_name_will_not_do(
    s: TransferView,
    a: SharedView,
    from: SocketAddr,
    name: Seq<char>,
    version: Seq<char>,
)
    requires
        version == s.version,
        name == s.username || exists|i: int|
            0 <= i < s.clients.len() && (#[trigger] s.clients[i]).name == name,
        forall|i: int|
            0 <= i < s.clients.len() && (#[trigger] s.clients[i]).name == name ==> s.clients[i].addr
                != from,
    ensures
        received(s, a, from, PayloadView::InitHandshake { name, version }) == (
            TransferView {
                outbox: s.outbox.push(
                    OutgoingView { payload: PayloadView::InvalidName, target: from },
                ),
                ..s
            },
            a,
        ),
{
}

/// Somebody who has joined and asks again, for the same name and from the same address, changes
/// nothing.
pub proof fn client_may_ask_again(
    s: TransferView,
    a: SharedView,
    i: int,
)
    requires
        0 <= i < s.clients.len(),
    ensures
        received(
            s,
            a,
            s.clients[i].addr,
            PayloadView::InitHandshake { name: s.clients[i].name, version: s.version },
        ) == (s, a),
{
}

// What clients and peers say.

/// An update goes to each client elsewhere than where it came from, as it came, and so to the
/// application; nothing else changes.
pub proof fn update_is_passed_on(
    s: TransferView,
    a: SharedView,
    from: SocketAddr,
    data: Seq<u8>,
)
    ensures
        ({
            let payload = PayloadView::Update { data };
            let (t, b) = received(s, a, from, payload);
            &&& t == (TransferView { outbox: t.outbox, ..s })
            &&& s.outbox.is_prefix_of(t.outbox)
            &&& copies(added(s, t), payload, addresses_but(s.clients, from))
            &&& b == (SharedView { reports: a.reports.push(ReportView::Payload(payload)), ..a })
        }),
{
    sending_reaches_whom_it_is_for(s, PayloadView::Update { data }, from);
}

/// Word that somebody gives the controls away goes to each client elsewhere than where it came from,
/// as it came, and so to the application; whom they are given to has them, and nothing else changes.
pub proof fn given_controls_are_passed_on(
    s: TransferView,
    a: SharedView,
    source: SocketAddr,
    from: Seq<char>,
    to: Seq<char>,
)
    ensures
        ({
            let payload = PayloadView::TransferControl { from, to };
            let (t, b) = received(s, a, source, payload);
            &&& t == (TransferView { outbox: t.outbox, in_control: to, ..s })
            &&& s.outbox.is_prefix_of(t.outbox)
            &&& copies(added(s, t), payload, addresses_but(s.clients, source))
            &&& b == (SharedView { reports: a.reports.push(ReportView::Payload(payload)), ..a })
        }),
{
    sending_reaches_whom_it_is_for(s, PayloadView::TransferControl { from, to }, source);
}

/// A peer whose handshake names the session is sent a handshake that names it; after that the
/// rendezvous server, where there is one, is told that the peer is established, and the peer's
/// sessions are over, and no other's. Nothing else is sent or changes, whoever has joined, but that
/// the application is told of the handshake.
pub proof fn peer_that_knows_the_session_is_answered(
    s: TransferView,
    a: SharedView,
    from: SocketAddr,
)
    ensures
        ({
            let payload = PayloadView::Handshake { session_id: s.session_id };
            let answer = OutgoingView { payload, target: from };
            let (t, b) = received(s, a, from, payload);
            &&& t == match s.rendezvous_server {
                Some(rendezvous) => TransferView {
                    outbox: s.outbox + seq![
                        answer,
                        OutgoingView {
                            payload: PayloadView::PeerEstablished { peer: from },
                            target: rendezvous,
                        },
                    ],
                    clients_to_holepunch: s.clients_to_holepunch.filter(
                        |session: HolePunchSession| session.addr != from,
                    ),
                    ..s
                },
                None => TransferView { outbox: s.outbox + seq![answer], ..s },
            }
            &&& b == (SharedView { reports: a.reports.push(ReportView::Payload(payload)), ..a })
        }),
{
    let payload = PayloadView::Handshake { session_id: s.session_id };
    let t = received(s, a, from, payload).0;
    let answer = OutgoingView { payload, target: from };
    match s.rendezvous_server {
        Some(rendezvous) => {
            let told = OutgoingView {
                payload: PayloadView::PeerEstablished { peer: from },
                target: rendezvous,
            };
            assert(t.outbox =~= s.outbox + seq![answer, told]);
        },
        None => {
            assert(t.outbox =~= s.outbox + seq![answer]);
        },
    }
}

/// A peer whose handshake names another session, or none, changes nothing, but that the application
/// is told of the handshake.
pub proof fn peer_that_knows_another_session_is_not_answered(
    s: TransferView,
    a: SharedView,
    from: SocketAddr,
    session_id: Seq<char>,
)
    requires
        session_id != s.session_id,
    ensures
        received(s, a, from, PayloadView::Handshake { session_id }) == (
            s,
            SharedView {
                reports: a.reports.push(
                    ReportView::Payload(PayloadView::Handshake { session_id }),
                ),
                ..a
            },
        ),
{
}

/// Word that a session is hosted gives it its name, whatever it was called before; the application is
/// told that it can be joined, and then of the word. Nothing is sent, and nothing else changes.
pub proof fn hosted_session_has_the_name_it_is_given(
    s: TransferView,
    a: SharedView,
    from: SocketAddr,
    session_id: Seq<char>,
)
    ensures
        received(s, a, from, PayloadView::HostingReceived { session_id }) == (
            TransferView { session_id, ..s },
            SharedView {
                reports: a.reports.push(
                    ReportView::Event(EventView::ConnectionEstablished),
                ).push(ReportView::Payload(PayloadView::HostingReceived { session_id })),
                ..a
            },
        ),
{
}

/// A peer that is announced is the last of those to be reached, and has been sent nothing, whoever
/// has joined and whoever else is to be reached; the application is told, and nothing else changes.
/// With the next look at the clock it is sent a handshake that names the session, after those that
/// go to the others; it is then given up if it should get only one.
pub proof fn announced_peer_is_sent_a_handshake(
    s: TransferView,
    a: SharedView,
    from: SocketAddr,
    peer: SocketAddr,
    now: u128,
)
    ensures
        ({
            let payload = PayloadView::AttemptConnection { peer };
            let (t, b) = received(s, a, from, payload);
            let u = punched(t, now);
            &&& t == (TransferView {
                clients_to_holepunch: s.clients_to_holepunch.push(
                    HolePunchSession { addr: peer, timer: None, retries: 0 },
                ),
                ..s
            })
            &&& b == (SharedView { reports: a.reports.push(ReportView::Payload(payload)), ..a })
            &&& u.outbox == punched(s, now).outbox.push(
                OutgoingView {
                    payload: PayloadView::Handshake { session_id: s.session_id },
                    target: peer,
                },
            )
            &&& u.clients_to_holepunch == if s.max_punch_retries == 1 {
                punched(s, now).clients_to_holepunch
            } else {
                punched(s, now).clients_to_holepunch.push(
                    HolePunchSession { addr: peer, timer: Some(now), retries: 1 },
                )
            }
        }),
{
    let tick = |session: HolePunchSession| ticked(session, now);
    let keep = |session: HolePunchSession| session.retries != s.max_punch_retries;
    let is_due = |session: HolePunchSession| due(session, now);
    let wrap = |session: HolePunchSession|
        OutgoingView {
            payload: PayloadView::Handshake { session_id: s.session_id },
            target: session.addr,
        };
    let fresh = HolePunchSession { addr: peer, timer: None, retries: 0 };
    let sessions = s.clients_to_holepunch;
    lemma_map_of_push(sessions, fresh, tick);
    lemma_filter_of_push(sessions.map_values(tick), tick(fresh), keep);
    lemma_filter_of_push(sessions, fresh, is_due);
    lemma_map_of_push(sessions.filter(is_due), fresh, wrap);
    let t = received(s, a, from, PayloadView::AttemptConnection { peer }).0;
    assert(punched(t, now).outbox =~= punched(s, now).outbox.push(wrap(fresh)));
}

/// What only a server says is not heard when it comes in, from whomever: nothing is sent, nobody is
/// told, and nothing changes.
pub proof fn what_only_a_server_says_is_not_heard(
    s: TransferView,
    a: SharedView,
    from: SocketAddr,
    name: Seq<char>,
    other: Seq<char>,
    peer: SocketAddr,
    in_control: bool,
    is_server: bool,
    is_observer: bool,
)
    ensures
        received(s, a, from, PayloadView::InvalidName) == (s, a),
        received(s, a, from, PayloadView::InvalidVersion { server_version: name }) == (s, a),
        received(
            s,
            a,
            from,
            PayloadView::PlayerJoined { name, in_control, is_server, is_observer },
        ) == (s, a),
        received(s, a, from, PayloadView::PlayerLeft { name }) == (s, a),
        received(s, a, from, PayloadView::SetObserver { from: name, to: other, is_observer }) == (
            s,
            a,
        ),
        received(s, a, from, PayloadView::PeerEstablished { peer }) == (s, a),
{
}

// Leaving.

/// When the connection to an address is lost at which there are clients, and that is not a rendezvous
/// server that still owes the session its name, each client elsewhere and the application are told
/// that somebody has left, by the name that joined last from there. Everybody at that address is
/// gone, everybody else stays in place, one connection less is counted, and nothing else changes.
/// Where the client stands in the order of joining makes no difference.
pub proof fn lost_client_is_named(s: TransferView, a: SharedView, i: int)
    requires
        0 <= i < s.clients.len(),
        forall|j: int| i < j < s.clients.len() ==> (#[trigger] s.clients[j]).addr
            != s.clients[i].addr,
        s.session_id.len() > 0 || s.rendezvous_server != Some(s.clients[i].addr),
        0 <= a.number_connections <= 0xffff,
    ensures
        ({
            let addr = s.clients[i].addr;
            let (t, b) = closed_by(s, a, addr);
            let notice = PayloadView::PlayerLeft { name: s.clients[i].name };
            &&& s.outbox.is_prefix_of(t.outbox)
            &&& copies(added(s, t), notice, addresses_but(s.clients, addr))
            &&& t == (TransferView {
                outbox: t.outbox,
                clients: s.clients.filter(|client: ClientView| client.addr != addr),
                ..s
            })
            &&& b == (SharedView {
                number_connections: if a.number_connections == 0 {
                    0xffff
                } else {
                    a.number_connections - 1
                },
                reports: a.reports.push(ReportView::Payload(notice)),
                ..a
            })
            &&& removed(s, a, addr) == (t, b)
        }),
{
    let addr = s.clients[i].addr;
    let goes = |client: ClientView| client.addr == addr;
    let t = closed_by(s, a, addr).0;
    let notice = PayloadView::PlayerLeft { name: s.clients[i].name };
    lemma_last_at(s.clients, i);
    lemma_addresses_of_those_left(s.clients, addr);
    lemma_broadcast_is_copies(t.clients, addr, notice);
    assert(added(s, t) =~= broadcast(t.clients, None, notice));
}

/// The client that joined last from an address is the last of those at it.
proof fn lemma_last_at(clients: Seq<ClientView>, i: int)
    requires
        0 <= i < clients.len(),
        forall|j: int| i < j < clients.len() ==> (#[trigger] clients[j]).addr != clients[i].addr,
    ensures
        clients_at(clients, clients[i].addr).len() > 0,
        clients_at(clients, clients[i].addr).last() == clients[i],
    decreases clients.len(),
{
    let addr = clients[i].addr;
    let goes = |client: ClientView| client.addr == addr;
    let rest = clients.drop_last();
    assert(rest.push(clients.last()) =~= clients);
    lemma_filter_of_push(rest, clients.last(), goes);
    if i < clients.len() - 1 {
        assert(clients[clients.len() - 1].addr != addr);
        assert forall|j: int| i < j < rest.len() implies (#[trigger] rest[j]).addr
            != rest[i].addr by {
            assert(clients[j].addr != clients[i].addr);
        }
        lemma_last_at(rest, i);
    }
}

/// Those who are left are at the addresses that are left.
proof fn lemma_addresses_of_those_left(clients: Seq<ClientView>, addr: SocketAddr)
    ensures
        addresses(clients.filter(|client: ClientView| client.addr != addr)) == addresses_but(
            clients,
            addr,
        ),
    decreases clients.len(),
{
    let stays = |client: ClientView| client.addr != addr;
    let at = |client: ClientView| client.addr;
    reveal(Seq::filter);
    if clients.len() == 0 {
        assert(addresses(clients) =~= Seq::empty());
        assert(addresses_but(clients, addr) =~= Seq::empty());
        assert(addresses(clients.filter(stays)) =~= Seq::empty());
    } else {
        let rest = clients.drop_last();
        lemma_addresses_of_those_left(rest, addr);
        assert(rest.push(clients.last()) =~= clients);
        lemma_filter_of_push(rest, clients.last(), stays);
        lemma_map_of_push(rest, clients.last(), at);
        lemma_filter_of_push(addresses(rest), clients.last().addr, elsewhere(addr));
        lemma_map_of_push(rest.filter(stays), clients.last(), at);
    }
}

/// When the connection to an address is lost at which there is no client, and that is not a
/// rendezvous server that still owes the session its name, nothing changes.
pub proof fn loss_of_nobody_changes_nothing(s: TransferView, a: SharedView, addr: SocketAddr)
    requires
        forall|i: int| 0 <= i < s.clients.len() ==> (#[trigger] s.clients[i]).addr != addr,
    ensures
        removed(s, a, addr) == (s, a),
        s.session_id.len() > 0 || s.rendezvous_server != Some(addr) ==> closed_by(s, a, addr) == (
            s,
            a,
        ),
{
    let goes = |client: ClientView| client.addr == addr;
    lemma_filter_places(s.clients, goes);
    if clients_at(s.clients, addr).len() > 0 {
        assert(goes(clients_at(s.clients, addr)[0]));
    }
}

/// When the connection to the rendezvous server is lost before it has given the session a name, the
/// application is told so, and hosting is to end; the session itself stays as it is, whoever has
/// joined.
pub proof fn lost_rendezvous_ends_hosting(s: TransferView, a: SharedView, addr: SocketAddr)
    requires
        s.session_id.len() == 0,
        s.rendezvous_server == Some(addr),
    ensures
        closed_by(s, a, addr) == (
            s,
            SharedView {
                should_stop: true,
                reports: a.reports.push(ReportView::Event(EventView::SessionIdFetchFailed)),
                ..a
            },
        ),
{
}

// Hole punching.

/// A peer that has been sent nothing is due for a handshake; one that has been sent one is due again
/// when a second of a thousand million nanoseconds has passed, and not before.
pub proof fn handshake_is_due_after_a_second(session: HolePunchSession, now: u128)
    ensures
        session.timer is None ==> due(session, now),
        session.timer matches Some(sent) ==> due(session, now) == (now >= sent + 1_000_000_000),
{
}

/// What a look at the clock does to a single peer. One that is due is sent a handshake that names
/// the session, which is counted, and is given up when it has got as many as it should get; one that
/// is not is left as it is. Nothing else changes.
pub proof fn look_at_one_peer(s: TransferView, session: HolePunchSession, now: u128)
    requires
        s.clients_to_holepunch == seq![session],
        session.retries < s.max_punch_retries,
    ensures
        punched(s, now) == if session.timer is None || now >= session.timer->0 + 1_000_000_000 {
            TransferView {
                outbox: s.outbox.push(
                    OutgoingView {
                        payload: PayloadView::Handshake { session_id: s.session_id },
                        target: session.addr,
                    },
                ),
                clients_to_holepunch: if session.retries + 1 == s.max_punch_retries {
                    Seq::empty()
                } else {
                    seq![
                        HolePunchSession {
                            addr: session.addr,
                            timer: Some(now),
                            retries: (session.retries + 1) as u8,
                        },
                    ]
                },
                ..s
            }
        } else {
            s
        },
{
    let none = Seq::<HolePunchSession>::empty();
    let tick = |session: HolePunchSession| ticked(session, now);
    let keep = |session: HolePunchSession| session.retries != s.max_punch_retries;
    let is_due = |session: HolePunchSession| due(session, now);
    let wrap = |session: HolePunchSession|
        OutgoingView {
            payload: PayloadView::Handshake { session_id: s.session_id },
            target: session.addr,
        };
    reveal(Seq::filter);
    assert(s.clients_to_holepunch =~= none.push(session));
    lemma_map_of_push(none, session, tick);
    assert(none.map_values(tick) =~= none);
    lemma_filter_of_push(none, tick(session), keep);
    lemma_filter_of_push(none, session, is_due);
    lemma_map_of_push(none, session, wrap);
    let sent = punch_handshakes(s.clients_to_holepunch, now, s.session_id);
    if due(session, now) {
        assert(sent =~= seq![wrap(session)]);
        assert(s.outbox + sent =~= s.outbox.push(wrap(session)));
        assert(none.push(tick(session)) =~= seq![tick(session)]);
    } else {
        assert(sent =~= Seq::empty());
        assert(s.outbox + sent =~= s.outbox);
        assert(none.push(tick(session)) =~= seq![session]);
    }
}

/// A look at the clock does to a list of peers what it does to its parts, one after the other: what
/// is sent for the whole, and who is left of it, is what is sent for the first part and who is left
/// of it, and then the same of the second. Where nobody is to be reached it does nothing.
pub proof fn look_goes_peer_by_peer(
    s: TransferView,
    first: Seq<HolePunchSession>,
    second: Seq<HolePunchSession>,
    now: u128,
)
    requires
        s.clients_to_holepunch == first + second,
    ensures
        ({
            let t = punched(TransferView { clients_to_holepunch: first, ..s }, now);
            let u = punched(
                TransferView { clients_to_holepunch: second, outbox: t.outbox, ..s },
                now,
            );
            punched(s, now) == (TransferView {
                outbox: u.outbox,
                clients_to_holepunch: t.clients_to_holepunch + u.clients_to_holepunch,
                ..s
            })
        }),
        s.clients_to_holepunch.len() == 0 ==> punched(s, now) == s,
{
    let tick = |session: HolePunchSession| ticked(session, now);
    let keep = |session: HolePunchSession| session.retries != s.max_punch_retries;
    let is_due = |session: HolePunchSession| due(session, now);
    let wrap = |session: HolePunchSession|
        OutgoingView {
            payload: PayloadView::Handshake { session_id: s.session_id },
            target: session.addr,
        };
    assert((first + second).map_values(tick) =~= first.map_values(tick) + second.map_values(tick));
    Seq::filter_distributes_over_add(first.map_values(tick), second.map_values(tick), keep);
    Seq::filter_distributes_over_add(first, second, is_due);
    assert((first.filter(is_due) + second.filter(is_due)).map_values(wrap) =~= first.filter(
        is_due,
    ).map_values(wrap) + second.filter(is_due).map_values(wrap));
    let a = punch_handshakes(first, now, s.session_id);
    let b = punch_handshakes(second, now, s.session_id);
    assert(s.outbox + (a + b) =~= (s.outbox + a) + b);
    if s.clients_to_holepunch.len() == 0 {
        reveal(Seq::filter);
        assert(s.clients_to_holepunch.map_values(tick) =~= Seq::empty());
        assert(punched(s, now).clients_to_holepunch =~= s.clients_to_holepunch);
        assert(punched(s, now).outbox =~= s.outbox);
    }
}

/// The sessions that a look at the clock leaves, and the handshakes that it sends, are those of the
/// transfer; those that remain once a peer has been reached are the sessions of all others.
pub proof fn look_is_that_of_its_sessions(s: TransferView, addr: SocketAddr, now: u128)
    ensures
        punched(s, now).clients_to_holepunch == punches_after_tick(
            s.clients_to_holepunch,
            now,
            s.max_punch_retries,
        ),
        punched(s, now).outbox == s.outbox + punch_handshakes(
            s.clients_to_holepunch,
            now,
            s.session_id,
        ),
        punches_without(s.clients_to_holepunch, addr) == s.clients_to_holepunch.filter(
            |session: HolePunchSession| session.addr != addr,
        ),
{
}

// What the application and the server say.

/// A payload from the application goes to every client, as it is, whoever it may concern. Where it
/// gives the controls away, whom it gives them to has them. Nothing else changes.
pub proof fn application_speaks_to_everybody(s: TransferView, payload: PayloadView)
    ensures
        ({
            let t = app_sent(s, payload);
            &&& s.outbox.is_prefix_of(t.outbox)
            &&& copies(added(s, t), payload, addresses(s.clients))
            &&& t == (TransferView {
                outbox: t.outbox,
                in_control: match payload {
                    PayloadView::TransferControl { to, .. } => to,
                    _ => s.in_control,
                },
                ..s
            })
        }),
{
    sending_reaches_whom_it_is_for(s, payload, SocketAddr::V4 { ipv4: 0, port: 0 });
    assert(added(s, app_sent(s, payload)) =~= added(s, s.send_to_all(None, payload)));
}

/// Several payloads are sent one after the other.
pub proof fn application_is_heard_in_order(
    s: TransferView,
    payloads: Seq<PayloadView>,
    payload: PayloadView,
)
    ensures
        app_sent_all(s, Seq::empty()) == s,
        app_sent_all(s, payloads.push(payload)) == app_sent(app_sent_all(s, payloads), payload),
{
    assert(payloads.push(payload).drop_last() =~= payloads);
}

/// What the channel has answered grows by each payload that it gave, in order, and, if it was
/// drained, by the word that there are no more. Nothing else that is shared changes.
pub proof fn answers_are_those_of_the_channel(
    a: SharedView,
    payloads: Seq<PayloadView>,
    drained: bool,
)
    ensures
        ({
            let b = polled(a, payloads, drained);
            let n = a.answers.len() as int;
            &&& b == (SharedView { answers: b.answers, ..a })
            &&& a.answers.is_prefix_of(b.answers)
            &&& b.answers.len() == n + payloads.len() + if drained {
                1int
            } else {
                0
            }
            &&& forall|i: int|
                0 <= i < payloads.len() ==> #[trigger] b.answers[n + i] == Some(payloads[i])
            &&& drained ==> b.answers.last() is None
        }),
{
}

/// Making a client of a name an observer, or no longer so, changes that of those who have the name,
/// and nothing else of anybody.
pub proof fn observers_are_those_who_were_named(
    clients: Seq<ClientView>,
    name: Seq<char>,
    is_observer: bool,
)
    ensures
        with_observer(clients, name, is_observer).len() == clients.len(),
        forall|i: int|
            0 <= i < clients.len() ==> #[trigger] with_observer(clients, name, is_observer)[i] == (
            ClientView {
                name: clients[i].name,
                addr: clients[i].addr,
                is_observer: if clients[i].name == name {
                    is_observer
                } else {
                    clients[i].is_observer
                },
            }),
{
}

/// A new session has no name and no clients, owes nobody a message and has nobody to reach; the
/// server has the controls.
pub proof fn new_session_is_empty(
    username: Seq<char>,
    version: Seq<char>,
    max_punch_retries: u8,
    rendezvous_server: Option<SocketAddr>,
)
    ensures
        ({
            let s = opened(username, version, max_punch_retries, rendezvous_server);
            &&& s.session_id.len() == 0
            &&& s.clients.len() == 0
            &&& s.outbox.len() == 0
            &&& s.clients_to_holepunch.len() == 0
            &&& s.rendezvous_server == rendezvous_server
            &&& s.max_punch_retries == max_punch_retries
            &&& s.in_control == username
            &&& s.username == username
            &&& s.version == version
        }),
{
}

/// A report is the last of the reports, and nothing else that is shared changes.
pub proof fn report_is_added(a: SharedView, report: ReportView)
    ensures
        a.report(report) == (SharedView { reports: a.reports.push(report), ..a }),
{
}

// Reading.

/// What reading gives is told apart by what it is: a message with where it came from, a lost
/// connection with its address, the word that nothing is waiting, and anything else.
pub proof fn reads_are_told_apart(from: SocketAddr, payload: Payloads, text: String)
    ensures
        read_view(Ok((from, payload))) == (ReadView::Message { from, payload: payload@ }),
        read_view(Err(Error::ConnectionClosed(from))) == (ReadView::Closed { addr: from }),
        read_view(Err(Error::ReadTimeout)) == ReadView::Timeout,
        read_view(Err(Error::SerdeError(text))) == ReadView::Other,
        read_view(Err(Error::Other(text))) == ReadView::Other,
{
}

/// A message that is read is received, a lost connection is noticed, and nothing else that reading
/// gives changes anything. Several are handled one after the other.
pub proof fn reads_are_handled_one_by_one(
    s: TransferView,
    a: SharedView,
    from: SocketAddr,
    payload: PayloadView,
    reads: Seq<ReadView>,
    read: ReadView,
)
    ensures
        read_one(s, a, ReadView::Message { from, payload }) == received(s, a, from, payload),
        read_one(s, a, ReadView::Closed { addr: from }) == closed_by(s, a, from),
        read_one(s, a, ReadView::Timeout) == (s, a),
        read_one(s, a, ReadView::Other) == (s, a),
        read_all(s, a, Seq::empty()) == (s, a),
        ({
            let (t, b) = read_all(s, a, reads);
            read_all(s, a, reads.push(read)) == read_one(t, b, read)
        }),
{
    assert(reads.push(read).drop_last() =~= reads);
}

} // verus!
