//! What holds of what a hosted session does.
use crate::addr::SocketAddr;
use crate::model::{
    admissible, app_sent, app_sent_all, asked, broadcast, clients_at, clients_not_at, closed_by,
    connection_counts, due, messages_to, named, opened, punch_handshakes, punched, punched_all,
    punches_after_tick, punches_after_ticks, punches_at, punches_left, received, registered,
    removed, rendezvous_lost, roster, server_only, shaken, ticked, until_timeout, with_observer,
    ClientView, ReadView, SharedView, TransferView,
};
use crate::payload::{EventView, OutgoingView, PayloadView, ReportView};
use crate::punch::{HolePunchSession, PUNCH_INTERVAL};
use crate::seqs::{lemma_filter_of_push, lemma_filter_places, lemma_map_of_push};
use crate::server::{total_clients, ServerView};
use vstd::arithmetic::div_mod::{lemma_fundamental_div_mod, lemma_fundamental_div_mod_converse};
use vstd::prelude::*;

verus! {

// What every step keeps.

/// A new session is in order.
pub proof fn opened_is_wf(
    username: Seq<char>,
    version: Seq<char>,
    max_punch_retries: u8,
    rendezvous_server: Option<SocketAddr>,
)
    requires
        0 < max_punch_retries,
    ensures
        opened(username, version, max_punch_retries, rendezvous_server).wf(),
{
}

/// Whatever comes in from whomever, names go on telling the clients apart, nobody has the server's
/// name, and no peer is sent more handshakes than it should get.
pub proof fn received_keeps_wf(
    s: TransferView,
    a: SharedView,
    from: SocketAddr,
    payload: PayloadView,
)
    requires
        s.wf(),
    ensures
        received(s, a, from, payload).0.wf(),
{
    if let PayloadView::Handshake { session_id } = payload {
        let keep = |session: HolePunchSession| session.addr != from;
        lemma_filter_places(s.clients_to_holepunch, keep);
    }
}

/// The same holds when a connection is lost.
pub proof fn closed_by_keeps_wf(s: TransferView, a: SharedView, addr: SocketAddr)
    requires
        s.wf(),
    ensures
        closed_by(s, a, addr).0.wf(),
        removed(s, a, addr).0.wf(),
{
    let keep = |client: ClientView| client.addr != addr;
    lemma_filter_places(s.clients, keep);
}

/// The same holds when the clock is looked at.
pub proof fn punched_keeps_wf(s: TransferView, now: u128)
    requires
        s.wf(),
    ensures
        punched(s, now).wf(),
{
    let tick = |session: HolePunchSession| ticked(session, now);
    let keep = |session: HolePunchSession| session.retries != s.max_punch_retries;
    lemma_filter_places(s.clients_to_holepunch.map_values(tick), keep);
}

/// The same holds when the application sends something.
pub proof fn app_sent_keeps_wf(s: TransferView, payload: PayloadView)
    requires
        s.wf(),
    ensures
        app_sent(s, payload).wf(),
{
}

/// The same holds when somebody is made an observer.
pub proof fn with_observer_keeps_wf(s: TransferView, name: Seq<char>, is_observer: bool)
    requires
        s.wf(),
    ensures
        (TransferView { clients: with_observer(s.clients, name, is_observer), ..s }).wf(),
{
}

/// What is to be sent or reported is never taken back, and who the server is, which version it
/// speaks and where its rendezvous server is never change, whatever comes in.
pub proof fn received_only_appends(
    s: TransferView,
    a: SharedView,
    from: SocketAddr,
    payload: PayloadView,
)
    ensures
        ({
            let (t, b) = received(s, a, from, payload);
            &&& s.outbox.is_prefix_of(t.outbox)
            &&& a.reports.is_prefix_of(b.reports)
            &&& b.relayed == a.relayed
            &&& b.answers == a.answers
            &&& t.username == s.username
            &&& t.version == s.version
            &&& t.rendezvous_server == s.rendezvous_server
            &&& t.max_punch_retries == s.max_punch_retries
        }),
{
}

/// The same holds when a connection is lost.
pub proof fn closed_by_only_appends(s: TransferView, a: SharedView, addr: SocketAddr)
    ensures
        ({
            let (t, b) = closed_by(s, a, addr);
            &&& s.outbox.is_prefix_of(t.outbox)
            &&& a.reports.is_prefix_of(b.reports)
            &&& b.relayed == a.relayed
            &&& b.answers == a.answers
            &&& t.username == s.username
            &&& t.version == s.version
            &&& t.rendezvous_server == s.rendezvous_server
            &&& t.max_punch_retries == s.max_punch_retries
        }),
{
}

/// What was read before the first timeout is a prefix of what was read, up to the first timeout or to
/// the end.
pub proof fn until_timeout_is_prefix(reads: Seq<ReadView>, end: int)
    requires
        0 <= end <= reads.len(),
        forall|i: int| 0 <= i < end ==> !(#[trigger] reads[i] is Timeout),
        end == reads.len() || reads[end] is Timeout,
    ensures
        until_timeout(reads) == reads.take(end),
    decreases reads.len(),
{
    if end == 0 {
        assert(reads.take(0) =~= Seq::empty());
    } else {
        let rest = reads.drop_first();
        assert forall|i: int| 0 <= i < end - 1 implies !(#[trigger] rest[i] is Timeout) by {
            assert(!(reads[i + 1] is Timeout));
        }
        until_timeout_is_prefix(rest, end - 1);
        assert(!(reads[0] is Timeout));
        assert(seq![reads.first()] + rest.take(end - 1) =~= reads.take(end));
    }
}

// Who may say what.

/// What only a server may send has no effect when a client sends it.
pub proof fn server_only_is_ignored(
    s: TransferView,
    a: SharedView,
    from: SocketAddr,
    payload: PayloadView,
)
    requires
        server_only(payload),
    ensures
        received(s, a, from, payload) == (s, a),
{
}

/// A payload for all goes to each client but those at `except`, once for each, and to nobody else.
pub proof fn broadcast_reaches_the_others(
    clients: Seq<ClientView>,
    except: Option<SocketAddr>,
    payload: PayloadView,
)
    ensures
        forall|j: int|
            0 <= j < broadcast(clients, except, payload).len() ==> {
                let message = #[trigger] broadcast(clients, except, payload)[j];
                &&& message.payload == payload
                &&& Some(message.target) != except
                &&& exists|i: int|
                    0 <= i < clients.len() && #[trigger] clients[i].addr == message.target
            },
        forall|i: int|
            0 <= i < clients.len() && except != Some((#[trigger] clients[i]).addr) ==> broadcast(
                clients,
                except,
                payload,
            ).contains(OutgoingView { payload, target: clients[i].addr }),
        forall|addr: SocketAddr|
            #![trigger clients_at(clients, addr)]
            except != Some(addr) ==> broadcast(clients, except, payload).filter(
                |message: OutgoingView| message.target == addr,
            ).len() == clients_at(clients, addr).len(),
{
    let keep = |client: ClientView| except != Some(client.addr);
    let wrap = |client: ClientView| OutgoingView { payload, target: client.addr };
    let places = lemma_filter_places(clients, keep);
    assert forall|j: int| 0 <= j < broadcast(clients, except, payload).len() implies {
        let message = #[trigger] broadcast(clients, except, payload)[j];
        &&& message.payload == payload
        &&& Some(message.target) != except
        &&& exists|i: int| 0 <= i < clients.len() && #[trigger] clients[i].addr == message.target
    } by {
        assert(clients[places[j]].addr == broadcast(clients, except, payload)[j].target);
    }
    assert forall|i: int|
        0 <= i < clients.len() && except != Some((#[trigger] clients[i]).addr) implies broadcast(
        clients,
        except,
        payload,
    ).contains(OutgoingView { payload, target: clients[i].addr }) by {
        clients.lemma_filter_contains(keep, i);
        let j = choose|j: int|
            0 <= j < clients.filter(keep).len() && clients.filter(keep)[j] == clients[i];
        assert(broadcast(clients, except, payload)[j] == wrap(clients[i]));
    }
    assert forall|addr: SocketAddr|
        #![trigger clients_at(clients, addr)]
        except != Some(addr) implies broadcast(clients, except, payload).filter(
        |message: OutgoingView| message.target == addr,
    ).len() == clients_at(clients, addr).len() by {
        lemma_copies_to(clients, except, payload, addr);
    }
}

/// As many copies go to an address as there are clients at it.
proof fn lemma_copies_to(
    clients: Seq<ClientView>,
    except: Option<SocketAddr>,
    payload: PayloadView,
    addr: SocketAddr,
)
    requires
        except != Some(addr),
    ensures
        broadcast(clients, except, payload).filter(
            |message: OutgoingView| message.target == addr,
        ).len() == clients_at(clients, addr).len(),
    decreases clients.len(),
{
    let keep = |client: ClientView| except != Some(client.addr);
    let wrap = |client: ClientView| OutgoingView { payload, target: client.addr };
    let to_addr = |message: OutgoingView| message.target == addr;
    let at_addr = |client: ClientView| client.addr == addr;
    if clients.len() == 0 {
        reveal(Seq::filter);
        assert(broadcast(clients, except, payload) =~= Seq::empty());
    } else {
        let rest = clients.drop_last();
        let last = clients.last();
        lemma_copies_to(rest, except, payload, addr);
        assert(rest.push(last) =~= clients);
        lemma_filter_of_push(rest, last, keep);
        lemma_filter_of_push(rest, last, at_addr);
        lemma_map_of_push(rest.filter(keep), last, wrap);
        lemma_filter_of_push(rest.filter(keep).map_values(wrap), wrap(last), to_addr);
    }
}

/// An update, or word of who has the controls, goes on to each of the other clients, never back to
/// where it came from, and to the application.
pub proof fn relayed_to_the_others(
    s: TransferView,
    a: SharedView,
    from: SocketAddr,
    payload: PayloadView,
)
    requires
        payload is Update || payload is TransferControl,
    ensures
        ({
            let (t, b) = received(s, a, from, payload);
            &&& t.outbox == s.outbox + broadcast(s.clients, Some(from), payload)
            &&& t.clients == s.clients
            &&& b == a.report(ReportView::Payload(payload))
            &&& forall|j: int|
                s.outbox.len() <= j < t.outbox.len() ==> (#[trigger] t.outbox[j]).target != from
                    && t.outbox[j].payload == payload
        }),
{
    broadcast_reaches_the_others(s.clients, Some(from), payload);
    let t = received(s, a, from, payload).0;
    assert forall|j: int| s.outbox.len() <= j < t.outbox.len() implies (
    #[trigger] t.outbox[j]).target != from && t.outbox[j].payload == payload by {
        assert(t.outbox[j] == broadcast(s.clients, Some(from), payload)[j - s.outbox.len()]);
    }
}

/// What the application puts in goes to every client, in the order in which it was put in; the
/// clients stay as they are.
pub proof fn app_messages_go_to_everybody(s: TransferView, payloads: Seq<PayloadView>)
    ensures
        ({
            let t = app_sent_all(s, payloads);
            let n = s.clients.len();
            &&& t.clients == s.clients
            &&& s.outbox.is_prefix_of(t.outbox)
            &&& t.outbox.len() == s.outbox.len() + payloads.len() * n
            &&& forall|k: int, i: int|
                #![trigger payloads[k], s.clients[i]]
                0 <= k < payloads.len() && 0 <= i < n ==> t.outbox[s.outbox.len() + k * n + i] == (
                OutgoingView { payload: payloads[k], target: s.clients[i].addr })
        }),
    decreases payloads.len(),
{
    let n = s.clients.len();
    if payloads.len() > 0 {
        let earlier = payloads.drop_last();
        let last = payloads.last();
        let t = app_sent_all(s, earlier);
        let copies = broadcast(s.clients, None, last);
        app_messages_go_to_everybody(s, earlier);
        lemma_broadcast_to_all(s.clients, last);
        assert(payloads.len() * n == earlier.len() * n + n) by (nonlinear_arith)
            requires
                payloads.len() == earlier.len() + 1,
        ;
        let u = app_sent_all(s, payloads);
        assert(u.outbox == t.outbox + copies);
        assert forall|k: int, i: int|
            #![trigger payloads[k], s.clients[i]]
            0 <= k < payloads.len() && 0 <= i < n implies u.outbox[s.outbox.len() + k * n + i] == (
        OutgoingView { payload: payloads[k], target: s.clients[i].addr }) by {
            if k < earlier.len() {
                assert(earlier[k] == payloads[k]);
                assert(0 <= k * n + i < earlier.len() * n) by (nonlinear_arith)
                    requires
                        0 <= k < earlier.len(),
                        0 <= i < n,
                ;
            } else {
                assert(copies[i].target == s.clients[i].addr);
            }
        }
    }
}

/// With nobody left out, the copies are for the clients in their order.
proof fn lemma_broadcast_to_all(clients: Seq<ClientView>, payload: PayloadView)
    ensures
        broadcast(clients, None, payload) == clients.map_values(
            |client: ClientView| OutgoingView { payload, target: client.addr },
        ),
    decreases clients.len(),
{
    let nobody: Option<SocketAddr> = None;
    let keep = |client: ClientView| nobody != Some(client.addr);
    reveal(Seq::filter);
    if clients.len() > 0 {
        let rest = clients.drop_last();
        lemma_broadcast_to_all(rest, payload);
        assert(rest.push(clients.last()) =~= clients);
        lemma_filter_of_push(rest, clients.last(), keep);
        lemma_map_of_push(
            rest,
            clients.last(),
            |client: ClientView| OutgoingView { payload, target: client.addr },
        );
        lemma_map_of_push(
            rest.filter(keep),
            clients.last(),
            |client: ClientView| OutgoingView { payload, target: client.addr },
        );
    }
}

// Joining and leaving.

/// Whoever is not let in is told why, unless they are in already; nobody else is told anything, and
/// nothing else changes.
pub proof fn refused_is_answered(
    s: TransferView,
    a: SharedView,
    from: SocketAddr,
    name: Seq<char>,
    version: Seq<char>,
)
    requires
        !admissible(s, name, version),
    ensures
        ({
            let (t, b) = asked(s, a, from, name, version);
            &&& b == a
            &&& t == if version != s.version {
                s.send(PayloadView::InvalidVersion { server_version: s.version }, from)
            } else if registered(s.clients, name, from) {
                s
            } else {
                s.send(PayloadView::InvalidName, from)
            }
        }),
{
}

/// Whoever is let in is told of the server and of each client that was there, as they are; each
/// client elsewhere, and the application, is told of them.
pub proof fn admitted_is_introduced(
    s: TransferView,
    a: SharedView,
    from: SocketAddr,
    name: Seq<char>,
    version: Seq<char>,
)
    requires
        admissible(s, name, version),
    ensures
        ({
            let (t, b) = asked(s, a, from, name, version);
            &&& registered(t.clients, name, from)
            &&& t.outbox == s.outbox + roster(s, from) + broadcast(
                s.clients,
                Some(from),
                PayloadView::PlayerJoined {
                    name,
                    in_control: false,
                    is_server: false,
                    is_observer: true,
                },
            )
            &&& roster(s, from).len() == s.clients.len() + 1
            &&& forall|i: int|
                0 <= i < roster(s, from).len() ==> (#[trigger] roster(s, from)[i]).target == from
            &&& b.reports == a.reports.push(
                ReportView::Payload(
                    PayloadView::PlayerJoined {
                        name,
                        in_control: false,
                        is_server: false,
                        is_observer: true,
                    },
                ),
            )
        }),
{
    let t = asked(s, a, from, name, version).0;
    if registered(s.clients, name, from) {
        let i = choose|i: int|
            0 <= i < s.clients.len() && #[trigger] s.clients[i].name == name && s.clients[i].addr
                == from;
        assert(named(s.clients, name));
    }
    assert(t.clients[s.clients.len() as int].name == name);
}

/// Whoever is in, and asks again with the same name from the same address, is left alone: a packet
/// that comes twice does no harm.
pub proof fn asking_twice_is_harmless(
    s: TransferView,
    a: SharedView,
    from: SocketAddr,
    name: Seq<char>,
    version: Seq<char>,
)
    requires
        admissible(s, name, version),
    ensures
        ({
            let (t, b) = asked(s, a, from, name, version);
            asked(t, b, from, name, version) == (t, b)
        }),
{
    admitted_is_introduced(s, a, from, name, version);
}

/// A name that a client has is given to nobody else.
pub proof fn taken_name_is_refused(
    s: TransferView,
    a: SharedView,
    from: SocketAddr,
    other: SocketAddr,
    name: Seq<char>,
    version: Seq<char>,
)
    requires
        s.wf(),
        admissible(s, name, version),
        other != from,
    ensures
        ({
            let (t, b) = asked(s, a, from, name, version);
            asked(t, b, other, name, version) == (t.send(PayloadView::InvalidName, other), b)
        }),
{
    admitted_is_introduced(s, a, from, name, version);
    let (t, b) = asked(s, a, from, name, version);
    received_keeps_wf(s, a, from, PayloadView::InitHandshake { name, version });
    assert(t.clients[s.clients.len() as int].name == name);
    assert(named(t.clients, name));
    if registered(t.clients, name, other) {
        let i = choose|i: int|
            0 <= i < t.clients.len() && #[trigger] t.clients[i].name == name && t.clients[i].addr
                == other;
        assert(i == s.clients.len());
    }
}

/// The count of connections goes up with the list of clients, whatever comes in.
pub proof fn count_follows_received(
    s: TransferView,
    a: SharedView,
    from: SocketAddr,
    payload: PayloadView,
)
    requires
        0 <= a.number_connections < connection_counts(),
    ensures
        ({
            let (t, b) = received(s, a, from, payload);
            &&& 0 <= b.number_connections < connection_counts()
            &&& (b.number_connections - t.clients.len()) % connection_counts() == (
            a.number_connections - s.clients.len()) % connection_counts()
        }),
{
}

/// The count of connections goes down with the list of clients, as long as no two clients share the
/// address whose connection is lost.
pub proof fn count_follows_closed(s: TransferView, a: SharedView, addr: SocketAddr)
    requires
        0 <= a.number_connections < connection_counts(),
        clients_at(s.clients, addr).len() <= 1,
    ensures
        ({
            let (t, b) = closed_by(s, a, addr);
            &&& 0 <= b.number_connections < connection_counts()
            &&& (b.number_connections - t.clients.len()) % connection_counts() == (
            a.number_connections - s.clients.len()) % connection_counts()
        }),
{
    lemma_parts_add_up(s.clients, addr);
}

/// Each client is at an address or is not.
proof fn lemma_parts_add_up(clients: Seq<ClientView>, addr: SocketAddr)
    ensures
        clients_at(clients, addr).len() + clients_not_at(clients, addr).len() == clients.len(),
        clients_at(clients, addr).len() == 0 ==> clients_not_at(clients, addr) == clients,
    decreases clients.len(),
{
    let goes = |client: ClientView| client.addr == addr;
    let stays = |client: ClientView| client.addr != addr;
    reveal(Seq::filter);
    if clients.len() > 0 {
        let rest = clients.drop_last();
        lemma_parts_add_up(rest, addr);
        assert(rest.push(clients.last()) =~= clients);
        lemma_filter_of_push(rest, clients.last(), goes);
        lemma_filter_of_push(rest, clients.last(), stays);
    }
}

/// Another value of one transfer changes the number of all clients by what it changes the number of
/// its own.
pub(crate) proof fn lemma_total_of_update(transfers: Seq<TransferView>, k: int, t: TransferView)
    requires
        0 <= k < transfers.len(),
    ensures
        total_clients(transfers.update(k, t)) == total_clients(transfers) - transfers[k].clients.len()
            + t.clients.len(),
    decreases transfers.len(),
{
    let rest = transfers.drop_last();
    let last = transfers.len() - 1;
    if k == last {
        assert(transfers.update(k, t).drop_last() =~= rest);
    } else {
        lemma_total_of_update(rest, k, t);
        assert(transfers.update(k, t).drop_last() =~= rest.update(k, t));
    }
}

/// A count that follows one list follows the sum of all lists.
proof fn lemma_count_of_total(
    count: int,
    next_count: int,
    own: int,
    next_own: int,
    total: int,
    next_total: int,
)
    requires
        count == total % connection_counts(),
        0 <= next_count < connection_counts(),
        (next_count - next_own) % connection_counts() == (count - own) % connection_counts(),
        next_total == total - own + next_own,
    ensures
        next_count == next_total % connection_counts(),
{
    let m = connection_counts();
    lemma_fundamental_div_mod(total, m);
    lemma_fundamental_div_mod(count - own, m);
    lemma_fundamental_div_mod(next_count - next_own, m);
    let q = total / m + (count - own) / m - (next_count - next_own) / m;
    assert(next_total == q * m + next_count) by (nonlinear_arith)
        requires
            next_total == total - own + next_own,
            total == m * (total / m) + count,
            count - own == m * ((count - own) / m) + (count - own) % m,
            next_count - next_own == m * ((next_count - next_own) / m) + (count - own) % m,
            q == total / m + (count - own) / m - (next_count - next_own) / m,
    ;
    lemma_fundamental_div_mod_converse(next_total, m, q, next_count);
}

/// Whether a server's count of connections is the number of clients in all of its transfers.
pub open spec fn counts_its_clients(v: ServerView) -> bool {
    v.shared.number_connections == total_clients(v.transfers) % connection_counts()
}

/// A server that counts its clients goes on doing so whatever comes in.
pub proof fn received_keeps_the_count(
    v: ServerView,
    transfer: int,
    from: SocketAddr,
    payload: PayloadView,
)
    requires
        0 <= transfer < v.transfers.len(),
        counts_its_clients(v),
    ensures
        counts_its_clients(
            v.with_transfer(transfer, received(v.transfers[transfer], v.shared, from, payload)),
        ),
{
    let s = v.transfers[transfer];
    let (t, a) = received(s, v.shared, from, payload);
    count_follows_received(s, v.shared, from, payload);
    lemma_total_of_update(v.transfers, transfer, t);
    lemma_count_of_total(
        v.shared.number_connections,
        a.number_connections,
        s.clients.len() as int,
        t.clients.len() as int,
        total_clients(v.transfers),
        total_clients(v.transfers.update(transfer, t)),
    );
}

/// A server that counts its clients goes on doing so when a connection is lost, as long as no two
/// clients of the transfer share its address.
pub proof fn closed_by_keeps_the_count(v: ServerView, transfer: int, addr: SocketAddr)
    requires
        0 <= transfer < v.transfers.len(),
        counts_its_clients(v),
        clients_at(v.transfers[transfer].clients, addr).len() <= 1,
    ensures
        counts_its_clients(
            v.with_transfer(transfer, closed_by(v.transfers[transfer], v.shared, addr)),
        ),
{
    let s = v.transfers[transfer];
    let (t, a) = closed_by(s, v.shared, addr);
    count_follows_closed(s, v.shared, addr);
    lemma_total_of_update(v.transfers, transfer, t);
    lemma_count_of_total(
        v.shared.number_connections,
        a.number_connections,
        s.clients.len() as int,
        t.clients.len() as int,
        total_clients(v.transfers),
        total_clients(v.transfers.update(transfer, t)),
    );
}

/// A server that counts its clients goes on doing so when it hosts one more session.
pub proof fn hosting_keeps_the_count(v: ServerView, rendezvous: Option<SocketAddr>)
    requires
        counts_its_clients(v),
    ensures
        counts_its_clients(v.hosting(rendezvous)),
{
    assert(v.hosting(rendezvous).transfers.drop_last() =~= v.transfers);
}

/// A server that hosts nothing counts nobody.
pub proof fn new_server_counts_nobody(
    username: Seq<char>,
    version: Seq<char>,
    max_punch_retries: u8,
)
    ensures
        counts_its_clients(ServerView::created(username, version, max_punch_retries)),
{
}

/// Once a connection is lost nobody is left at its address, and everybody else is still there.
pub proof fn removed_leaves_the_others(s: TransferView, a: SharedView, addr: SocketAddr)
    ensures
        removed(s, a, addr).0.clients == clients_not_at(s.clients, addr),
        clients_at(removed(s, a, addr).0.clients, addr).len() == 0,
        forall|i: int|
            0 <= i < s.clients.len() && (#[trigger] s.clients[i]).addr != addr ==> removed(
                s,
                a,
                addr,
            ).0.clients.contains(s.clients[i]),
{
    let stays = |client: ClientView| client.addr != addr;
    let goes = |client: ClientView| client.addr == addr;
    lemma_parts_add_up(s.clients, addr);
    let left = clients_not_at(s.clients, addr);
    lemma_filter_places(s.clients, stays);
    lemma_filter_places(left, goes);
    if clients_at(left, addr).len() > 0 {
        assert(goes(clients_at(left, addr)[0]));
    }
    assert forall|i: int|
        0 <= i < s.clients.len() && (#[trigger] s.clients[i]).addr != addr implies left.contains(
        s.clients[i],
    ) by {
        s.clients.lemma_filter_contains(stays, i);
    }
}

/// Joining from an address of one's own and losing the connection leaves the clients and their count
/// as they were; the others and the application hear of both.
pub proof fn leaving_undoes_joining(
    s: TransferView,
    a: SharedView,
    from: SocketAddr,
    name: Seq<char>,
    version: Seq<char>,
)
    requires
        admissible(s, name, version),
        clients_at(s.clients, from).len() == 0,
        0 <= a.number_connections < connection_counts(),
    ensures
        ({
            let (t, b) = asked(s, a, from, name, version);
            let (u, c) = removed(t, b, from);
            &&& u.clients == s.clients
            &&& c.number_connections == a.number_connections
            &&& u.outbox == t.outbox + broadcast(
                s.clients,
                None,
                PayloadView::PlayerLeft { name },
            )
            &&& c.reports == b.reports.push(ReportView::Payload(PayloadView::PlayerLeft { name }))
        }),
{
    let goes = |client: ClientView| client.addr == from;
    let stays = |client: ClientView| client.addr != from;
    let newcomer = ClientView { name, addr: from, is_observer: false };
    admitted_is_introduced(s, a, from, name, version);
    if registered(s.clients, name, from) {
        assert(named(s.clients, name));
    }
    lemma_parts_add_up(s.clients, from);
    lemma_filter_of_push(s.clients, newcomer, goes);
    lemma_filter_of_push(s.clients, newcomer, stays);
}

// Who is told what of observers and controls.

/// A newcomer is told of everybody who is in the session that they have the controls if, and only
/// if, they have, and so of at most one.
pub proof fn roster_tells_who_is_in_control(s: TransferView, target: SocketAddr)
    requires
        s.wf(),
    ensures
        forall|i: int|
            0 <= i < roster(s, target).len() ==> {
                let payload = (#[trigger] roster(s, target)[i]).payload;
                &&& payload is PlayerJoined
                &&& payload->PlayerJoined_in_control == (payload->PlayerJoined_name
                    == s.in_control)
            },
        forall|i: int, j: int|
            0 <= i < j < roster(s, target).len() ==> !((#[trigger] roster(
                s,
                target,
            )[i]).payload->PlayerJoined_in_control && (#[trigger] roster(
                s,
                target,
            )[j]).payload->PlayerJoined_in_control),
{
    let n = s.clients.len() as int;
    assert forall|i: int, j: int| 0 <= i < j < roster(s, target).len() implies !((
    #[trigger] roster(s, target)[i]).payload->PlayerJoined_in_control && (#[trigger] roster(
        s,
        target,
    )[j]).payload->PlayerJoined_in_control) by {
        assert(s.clients[i].name != s.username);
        if j < n {
            assert(s.clients[i].name != s.clients[j].name);
        }
    }
}

/// Once the controls are given to somebody, by a client or by the application, they have them.
pub proof fn controls_go_where_they_are_given(
    s: TransferView,
    a: SharedView,
    source: SocketAddr,
    from: Seq<char>,
    to: Seq<char>,
)
    ensures
        received(s, a, source, PayloadView::TransferControl { from, to }).0.in_control == to,
        app_sent(s, PayloadView::TransferControl { from, to }).in_control == to,
{
}

/// The controls move in no other way.
pub proof fn controls_stay_where_they_are(
    s: TransferView,
    a: SharedView,
    source: SocketAddr,
    payload: PayloadView,
    now: u128,
)
    requires
        !(payload is TransferControl),
    ensures
        received(s, a, source, payload).0.in_control == s.in_control,
        app_sent(s, payload).in_control == s.in_control,
        closed_by(s, a, source).0.in_control == s.in_control,
        punched(s, now).in_control == s.in_control,
{
}

/// A newcomer is told of each client whether it is an observer, as was last said of it.
pub proof fn roster_tells_who_observes(
    s: TransferView,
    name: Seq<char>,
    is_observer: bool,
    target: SocketAddr,
)
    ensures
        ({
            let t = TransferView { clients: with_observer(s.clients, name, is_observer), ..s };
            forall|i: int|
                0 <= i < s.clients.len() ==> (#[trigger] roster(t, target)[i]).payload == (
                PayloadView::PlayerJoined {
                    name: s.clients[i].name,
                    in_control: s.in_control == s.clients[i].name,
                    is_server: false,
                    is_observer: if s.clients[i].name == name {
                        is_observer
                    } else {
                        s.clients[i].is_observer
                    },
                })
        }),
{
}

// Hole punching.

/// A peer that has just been sent a handshake is sent none for a second.
pub proof fn handshakes_keep_their_distance(session: HolePunchSession, now: u128, later: u128)
    requires
        due(session, now),
        later < now + PUNCH_INTERVAL,
    ensures
        !due(ticked(session, now), later),
        ticked(ticked(session, now), later) == ticked(session, now),
{
}

/// Each look at the clock uses up as many of the handshakes that are left as it sends. No peer is
/// ever sent more than it should get.
pub proof fn handshakes_are_used_up(s: TransferView, now: u128)
    requires
        s.wf(),
    ensures
        punched(s, now).outbox.len() - s.outbox.len() == punches_left(
            s.clients_to_holepunch,
            s.max_punch_retries,
        ) - punches_left(punched(s, now).clients_to_holepunch, s.max_punch_retries),
        punches_left(punched(s, now).clients_to_holepunch, s.max_punch_retries) >= 0,
{
    lemma_handshakes_used(s.clients_to_holepunch, now, s.max_punch_retries, s.session_id);
    punched_keeps_wf(s, now);
    lemma_punches_left_nonnegative(
        punched(s, now).clients_to_holepunch,
        s.max_punch_retries,
    );
}

proof fn lemma_punches_left_nonnegative(sessions: Seq<HolePunchSession>, max: u8)
    requires
        forall|i: int| 0 <= i < sessions.len() ==> #[trigger] sessions[i].retries < max,
    ensures
        punches_left(sessions, max) >= sessions.len(),
    decreases sessions.len(),
{
    if sessions.len() > 0 {
        lemma_punches_left_nonnegative(sessions.drop_last(), max);
    }
}

proof fn lemma_handshakes_used(
    sessions: Seq<HolePunchSession>,
    now: u128,
    max: u8,
    session_id: Seq<char>,
)
    requires
        forall|i: int| 0 <= i < sessions.len() ==> #[trigger] sessions[i].retries < max,
    ensures
        punch_handshakes(sessions, now, session_id).len() == punches_left(sessions, max)
            - punches_left(punches_after_tick(sessions, now, max), max),
    decreases sessions.len(),
{
    let tick = |session: HolePunchSession| ticked(session, now);
    let keep = |session: HolePunchSession| session.retries != max;
    let is_due = |session: HolePunchSession| due(session, now);
    if sessions.len() == 0 {
        reveal(Seq::filter);
        assert(sessions.map_values(tick) =~= Seq::empty());
    } else {
        let rest = sessions.drop_last();
        let last = sessions.last();
        lemma_handshakes_used(rest, now, max, session_id);
        assert(rest.push(last) =~= sessions);
        lemma_map_of_push(rest, last, tick);
        lemma_filter_of_push(rest.map_values(tick), tick(last), keep);
        lemma_filter_of_push(rest, last, is_due);
        let kept = rest.map_values(tick).filter(keep);
        assert(kept.push(tick(last)).drop_last() =~= kept);
    }
}

/// Looking at the clock for all peers is looking at it for each.
proof fn lemma_tick_by_address(
    sessions: Seq<HolePunchSession>,
    now: u128,
    max: u8,
    session_id: Seq<char>,
    addr: SocketAddr,
)
    ensures
        punches_at(punches_after_tick(sessions, now, max), addr) == punches_after_tick(
            punches_at(sessions, addr),
            now,
            max,
        ),
        messages_to(punch_handshakes(sessions, now, session_id), addr) == punch_handshakes(
            punches_at(sessions, addr),
            now,
            session_id,
        ),
    decreases sessions.len(),
{
    let tick = |session: HolePunchSession| ticked(session, now);
    let keep = |session: HolePunchSession| session.retries != max;
    let is_due = |session: HolePunchSession| due(session, now);
    let at_addr = |session: HolePunchSession| session.addr == addr;
    let to_addr = |message: OutgoingView| message.target == addr;
    let wrap = |session: HolePunchSession|
        OutgoingView { payload: PayloadView::Handshake { session_id }, target: session.addr };
    if sessions.len() == 0 {
        reveal(Seq::filter);
        assert(sessions.map_values(tick) =~= sessions);
        assert(sessions.map_values(wrap) =~= Seq::empty());
    } else {
        let rest = sessions.drop_last();
        let last = sessions.last();
        lemma_tick_by_address(rest, now, max, session_id, addr);
        assert(rest.push(last) =~= sessions);
        lemma_map_of_push(rest, last, tick);
        lemma_filter_of_push(rest.map_values(tick), tick(last), keep);
        lemma_filter_of_push(punches_after_tick(rest, now, max), tick(last), at_addr);
        lemma_filter_of_push(rest, last, is_due);
        lemma_map_of_push(rest.filter(is_due), last, wrap);
        lemma_filter_of_push(punch_handshakes(rest, now, session_id), wrap(last), to_addr);
        let found = rest.filter(at_addr);
        lemma_filter_of_push(rest, last, at_addr);
        lemma_map_of_push(found, last, tick);
        lemma_filter_of_push(found.map_values(tick), tick(last), keep);
        lemma_filter_of_push(found, last, is_due);
        lemma_map_of_push(found.filter(is_due), last, wrap);
    }
}

/// What is left of the session of a peer that never answers after several looks at the clock.
pub open spec fn silent_session(addr: SocketAddr, times: Seq<u128>, max: u8) -> Seq<
    HolePunchSession,
> {
    if times.len() < max {
        seq![
            HolePunchSession {
                addr,
                timer: if times.len() == 0 {
                    None
                } else {
                    Some(times.last())
                },
                retries: times.len() as u8,
            },
        ]
    } else {
        Seq::empty()
    }
}

/// A peer that never answers, looked at no sooner than every second, is sent a handshake each time
/// until it has got all that it should get; with the last it is given up, and nothing more is sent
/// to it however often the clock is looked at. Whoever else is to be reached makes no difference.
pub proof fn silent_peer_is_given_up(s: TransferView, addr: SocketAddr, times: Seq<u128>)
    requires
        punches_at(s.clients_to_holepunch, addr) == seq![
            HolePunchSession { addr, timer: None, retries: 0 },
        ],
        0 < s.max_punch_retries,
        forall|i: int, j: int|
            0 <= i < j < times.len() ==> #[trigger] times[i] + PUNCH_INTERVAL
                <= #[trigger] times[j],
    ensures
        s.outbox.is_prefix_of(punched_all(s, times).outbox),
        messages_to(punched_all(s, times).outbox.skip(s.outbox.len() as int), addr) == Seq::new(
            if times.len() < s.max_punch_retries {
                times.len()
            } else {
                s.max_punch_retries as nat
            },
            |i: int|
                OutgoingView {
                    payload: PayloadView::Handshake { session_id: s.session_id },
                    target: addr,
                },
        ),
        punches_at(punched_all(s, times).clients_to_holepunch, addr) == silent_session(
            addr,
            times,
            s.max_punch_retries,
        ),
        punched_all(s, times).session_id == s.session_id,
        punched_all(s, times).max_punch_retries == s.max_punch_retries,
    decreases times.len(),
{
    let handshake = OutgoingView {
        payload: PayloadView::Handshake { session_id: s.session_id },
        target: addr,
    };
    let to_addr = |message: OutgoingView| message.target == addr;
    let max = s.max_punch_retries;
    if times.len() == 0 {
        reveal(Seq::filter);
        assert(s.outbox.skip(s.outbox.len() as int) =~= Seq::empty());
        assert(messages_to(Seq::empty(), addr) =~= Seq::empty());
    } else {
        let now = times.last();
        let earlier = times.drop_last();
        let t = punched_all(s, earlier);
        silent_peer_is_given_up(s, addr, earlier);
        if earlier.len() > 0 {
            assert(times[earlier.len() - 1] + PUNCH_INTERVAL <= times[earlier.len() as int]);
        }
        let sent = t.outbox.skip(s.outbox.len() as int);
        let step = punch_handshakes(t.clients_to_holepunch, now, s.session_id);
        let found = punches_at(t.clients_to_holepunch, addr);
        lemma_tick_by_address(t.clients_to_holepunch, now, max, s.session_id, addr);
        if earlier.len() < max {
            lemma_tick_of_one(found[0], now, max, s.session_id);
            assert(found =~= seq![found[0]]);
        } else {
            lemma_tick_of_none(now, max, s.session_id);
            assert(found =~= Seq::empty());
        }
        // What the look at the clock adds to what came before.
        let u = punched_all(s, times);
        assert(u == punched(t, now));
        assert(u.outbox.skip(s.outbox.len() as int) =~= sent + step);
        Seq::filter_distributes_over_add(sent, step, to_addr);
        assert(messages_to(sent + step, addr) =~= messages_to(sent, addr) + messages_to(step, addr));
    }
}

/// A peer that is to be reached beside any others, and never answers, takes nothing from them:
/// looked at no sooner than every second, it is sent a handshake each time until it has got all that
/// it should get, and is given up with the last; the other sessions, and what is sent for them, are
/// as they would be without it.
pub proof fn another_session_leaves_the_others_alone(
    s: TransferView,
    before: Seq<HolePunchSession>,
    addr: SocketAddr,
    after: Seq<HolePunchSession>,
    times: Seq<u128>,
)
    requires
        s.clients_to_holepunch == before + seq![
            HolePunchSession { addr, timer: None, retries: 0 },
        ] + after,
        0 < s.max_punch_retries,
        forall|i: int, j: int|
            0 <= i < j < times.len() ==> #[trigger] times[i] + PUNCH_INTERVAL
                <= #[trigger] times[j],
    ensures
        ({
            let max = s.max_punch_retries;
            let with = punched_all(s, times);
            let without = punched_all(
                TransferView { clients_to_holepunch: before + after, ..s },
                times,
            );
            let early = punches_after_ticks(before, times, max);
            let late = punches_after_ticks(after, times, max);
            let handshake = PayloadView::Handshake { session_id: s.session_id };
            &&& without.clients_to_holepunch == early + late
            &&& with.clients_to_holepunch == early + silent_session(addr, times, max) + late
            &&& with == (TransferView {
                clients_to_holepunch: with.clients_to_holepunch,
                outbox: with.outbox,
                ..without
            })
            &&& without.session_id == s.session_id
            &&& without.max_punch_retries == max
            &&& s.outbox.is_prefix_of(with.outbox)
            &&& forall|j: int|
                s.outbox.len() <= j < with.outbox.len() ==> (#[trigger] with.outbox[j]).payload
                    == handshake
            &&& forall|other: SocketAddr|
                other != addr ==> #[trigger] messages_to(with.outbox, other) == messages_to(
                    without.outbox,
                    other,
                )
            &&& messages_to(with.outbox, addr).len() == messages_to(without.outbox, addr).len()
                + if times.len() < max {
                times.len()
            } else {
                max as nat
            }
        }),
    decreases times.len(),
{
    let max = s.max_punch_retries;
    let id = s.session_id;
    let t = TransferView { clients_to_holepunch: before + after, ..s };
    if times.len() > 0 {
        let now = times.last();
        let times_before = times.drop_last();
        another_session_leaves_the_others_alone(s, before, addr, after, times_before);
        if times_before.len() > 0 {
            assert(times[times.len() - 2] + PUNCH_INTERVAL <= times[times.len() - 1]);
        }
        let with = punched_all(s, times_before);
        let without = punched_all(t, times_before);
        let early = punches_after_ticks(before, times_before, max);
        let late = punches_after_ticks(after, times_before, max);
        let own = silent_session(addr, times_before, max);
        // The sessions and the handshakes of each part.
        lemma_tick_of_sum(early, late, now, max, id);
        lemma_tick_of_sum(early + own, late, now, max, id);
        lemma_tick_of_sum(early, own, now, max, id);
        if times_before.len() < max {
            lemma_tick_of_one(own[0], now, max, id);
            assert(own =~= seq![own[0]]);
        } else {
            lemma_tick_of_none(now, max, id);
        }
        let a = punch_handshakes(early, now, id);
        let x = punch_handshakes(own, now, id);
        let b = punch_handshakes(late, now, id);
        assert(punched(with, now).outbox == with.outbox + (a + x + b));
        assert(punched(without, now).outbox == without.outbox + (a + b));
        assert(a + b =~= a + Seq::empty() + b);
        lemma_handshakes_are_handshakes(early + own + late, now, id);
        assert forall|other: SocketAddr| other != addr implies #[trigger] messages_to(
            punched(with, now).outbox,
            other,
        ) == messages_to(punched(without, now).outbox, other) by {
            lemma_messages_of_sum(with.outbox, a, x, b, other);
            lemma_messages_of_sum(without.outbox, a, Seq::empty(), b, other);
            lemma_messages_of_one(x, other);
        }
        lemma_messages_of_sum(with.outbox, a, x, b, addr);
        lemma_messages_of_sum(without.outbox, a, Seq::empty(), b, addr);
        lemma_messages_of_one(x, addr);
    }
}

/// Looking at the clock for two lists of peers is looking at it for each.
proof fn lemma_tick_of_sum(
    a: Seq<HolePunchSession>,
    b: Seq<HolePunchSession>,
    now: u128,
    max: u8,
    session_id: Seq<char>,
)
    ensures
        punches_after_tick(a + b, now, max) == punches_after_tick(a, now, max)
            + punches_after_tick(b, now, max),
        punch_handshakes(a + b, now, session_id) == punch_handshakes(a, now, session_id)
            + punch_handshakes(b, now, session_id),
{
    let tick = |session: HolePunchSession| ticked(session, now);
    let keep = |session: HolePunchSession| session.retries != max;
    let is_due = |session: HolePunchSession| due(session, now);
    let wrap = |session: HolePunchSession|
        OutgoingView { payload: PayloadView::Handshake { session_id }, target: session.addr };
    assert((a + b).map_values(tick) =~= a.map_values(tick) + b.map_values(tick));
    Seq::filter_distributes_over_add(a.map_values(tick), b.map_values(tick), keep);
    Seq::filter_distributes_over_add(a, b, is_due);
    assert((a.filter(is_due) + b.filter(is_due)).map_values(wrap) =~= a.filter(is_due).map_values(
        wrap,
    ) + b.filter(is_due).map_values(wrap));
}

/// What a look at the clock sends is handshakes.
proof fn lemma_handshakes_are_handshakes(
    sessions: Seq<HolePunchSession>,
    now: u128,
    session_id: Seq<char>,
)
    ensures
        forall|j: int|
            0 <= j < punch_handshakes(sessions, now, session_id).len() ==> (
            #[trigger] punch_handshakes(sessions, now, session_id)[j]).payload == (
            PayloadView::Handshake { session_id }),
{
}

/// The messages to an address, part by part.
proof fn lemma_messages_of_sum(
    sent: Seq<OutgoingView>,
    a: Seq<OutgoingView>,
    x: Seq<OutgoingView>,
    b: Seq<OutgoingView>,
    addr: SocketAddr,
)
    ensures
        messages_to(sent + (a + x + b), addr) == messages_to(sent, addr) + (messages_to(a, addr)
            + messages_to(x, addr) + messages_to(b, addr)),
{
    let to_addr = |message: OutgoingView| message.target == addr;
    Seq::filter_distributes_over_add(sent, a + x + b, to_addr);
    Seq::filter_distributes_over_add(a + x, b, to_addr);
    Seq::filter_distributes_over_add(a, x, to_addr);
}

/// Of at most one message, what goes to an address.
proof fn lemma_messages_of_one(x: Seq<OutgoingView>, addr: SocketAddr)
    requires
        x.len() <= 1,
    ensures
        messages_to(x, addr) == if x.len() == 1 && x[0].target == addr {
            x
        } else {
            Seq::empty()
        },
        messages_to(Seq::empty(), addr) == Seq::<OutgoingView>::empty(),
{
    let to_addr = |message: OutgoingView| message.target == addr;
    let none = Seq::<OutgoingView>::empty();
    reveal(Seq::filter);
    if x.len() == 1 {
        assert(x =~= none.push(x[0]));
        lemma_filter_of_push(none, x[0], to_addr);
    } else {
        assert(x =~= none);
    }
}

/// What a look at the clock does where nobody is to be reached.
proof fn lemma_tick_of_none(now: u128, max: u8, session_id: Seq<char>)
    ensures
        punches_after_tick(Seq::empty(), now, max) == Seq::<HolePunchSession>::empty(),
        punch_handshakes(Seq::empty(), now, session_id) == Seq::<OutgoingView>::empty(),
{
    let none = Seq::<HolePunchSession>::empty();
    reveal(Seq::filter);
    assert(none.map_values(|session: HolePunchSession| ticked(session, now)) =~= none);
}

/// What a look at the clock does where one peer is to be reached.
proof fn lemma_tick_of_one(session: HolePunchSession, now: u128, max: u8, session_id: Seq<char>)
    ensures
        punches_after_tick(seq![session], now, max) == if ticked(session, now).retries != max {
            seq![ticked(session, now)]
        } else {
            Seq::empty()
        },
        punch_handshakes(seq![session], now, session_id) == if due(session, now) {
            seq![
                OutgoingView {
                    payload: PayloadView::Handshake { session_id },
                    target: session.addr,
                },
            ]
        } else {
            Seq::empty()
        },
{
    let none = Seq::<HolePunchSession>::empty();
    let tick = |session: HolePunchSession| ticked(session, now);
    let keep = |session: HolePunchSession| session.retries != max;
    let is_due = |session: HolePunchSession| due(session, now);
    let wrap = |session: HolePunchSession|
        OutgoingView { payload: PayloadView::Handshake { session_id }, target: session.addr };
    lemma_tick_of_none(now, max, session_id);
    assert(none.push(session) =~= seq![session]);
    lemma_map_of_push(none, session, tick);
    assert(none.map_values(tick) =~= none);
    lemma_filter_of_push(none, tick(session), keep);
    lemma_filter_of_push(none, session, is_due);
    lemma_map_of_push(none, session, wrap);
}

/// A peer that has answered with the name of the session is sent no more handshakes, however often
/// the clock is looked at.
pub proof fn reached_peer_is_left_alone(
    s: TransferView,
    from: SocketAddr,
    session_id: Seq<char>,
    times: Seq<u128>,
)
    requires
        s.rendezvous_server is Some,
        session_id == s.session_id,
    ensures
        ({
            let t = shaken(s, from, session_id);
            let u = punched_all(t, times);
            &&& punches_at(u.clients_to_holepunch, from).len() == 0
            &&& t.outbox.is_prefix_of(u.outbox)
            &&& messages_to(u.outbox.skip(t.outbox.len() as int), from).len() == 0
        }),
{
    let t = shaken(s, from, session_id);
    let keep = |session: HolePunchSession| session.addr != from;
    let at_from = |session: HolePunchSession| session.addr == from;
    lemma_filter_places(s.clients_to_holepunch, keep);
    lemma_filter_places(t.clients_to_holepunch, at_from);
    if punches_at(t.clients_to_holepunch, from).len() > 0 {
        assert(at_from(punches_at(t.clients_to_holepunch, from)[0]));
    }
    unsought_peer_is_left_alone(t, from, times);
}

/// A peer that is not to be reached is sent no handshakes, however often the clock is looked at.
pub proof fn unsought_peer_is_left_alone(s: TransferView, addr: SocketAddr, times: Seq<u128>)
    requires
        punches_at(s.clients_to_holepunch, addr).len() == 0,
    ensures
        ({
            let t = punched_all(s, times);
            &&& punches_at(t.clients_to_holepunch, addr).len() == 0
            &&& s.outbox.is_prefix_of(t.outbox)
            &&& messages_to(t.outbox.skip(s.outbox.len() as int), addr).len() == 0
            &&& t.session_id == s.session_id
        }),
    decreases times.len(),
{
    let to_addr = |message: OutgoingView| message.target == addr;
    if times.len() == 0 {
        reveal(Seq::filter);
        assert(s.outbox.skip(s.outbox.len() as int) =~= Seq::empty());
    } else {
        let now = times.last();
        let t = punched_all(s, times.drop_last());
        unsought_peer_is_left_alone(s, addr, times.drop_last());
        let sent = t.outbox.skip(s.outbox.len() as int);
        let step = punch_handshakes(t.clients_to_holepunch, now, t.session_id);
        lemma_tick_by_address(
            t.clients_to_holepunch,
            now,
            t.max_punch_retries,
            t.session_id,
            addr,
        );
        lemma_tick_of_none(now, t.max_punch_retries, t.session_id);
        assert(punches_at(t.clients_to_holepunch, addr) =~= Seq::empty());
        assert(punched(t, now).outbox.skip(s.outbox.len() as int) =~= sent + step);
        Seq::filter_distributes_over_add(sent, step, to_addr);
    }
}

/// A handshake that does not name the session is not answered.
pub proof fn stranger_is_not_answered(s: TransferView, from: SocketAddr, session_id: Seq<char>)
    requires
        session_id != s.session_id,
    ensures
        shaken(s, from, session_id) == s,
{
}

// The session as a whole.

/// What comes in makes the session open for joining if, and only if, it is word from a rendezvous
/// server; the session then has the name that came with it.
pub proof fn session_opens_with_its_name(
    s: TransferView,
    a: SharedView,
    from: SocketAddr,
    payload: PayloadView,
)
    ensures
        ({
            let (t, b) = received(s, a, from, payload);
            let new = b.reports.skip(a.reports.len() as int);
            &&& new.contains(ReportView::Event(EventView::ConnectionEstablished)) == (payload
                is HostingReceived)
            &&& t.session_id == if payload is HostingReceived {
                payload->HostingReceived_session_id
            } else {
                s.session_id
            }
        }),
{
    let b = received(s, a, from, payload).1;
    let new = b.reports.skip(a.reports.len() as int);
    if payload is HostingReceived {
        assert(new[0] == ReportView::Event(EventView::ConnectionEstablished));
    }
}

/// Without a rendezvous server a session can be joined as soon as it is hosted; with one, not before
/// the rendezvous server has spoken.
pub proof fn hosting_opens_the_session(v: ServerView, rendezvous: Option<SocketAddr>)
    ensures
        v.hosting(rendezvous).shared.reports == if rendezvous is None {
            v.shared.reports.push(ReportView::Event(EventView::ConnectionEstablished))
        } else {
            v.shared.reports
        },
        v.hosting(rendezvous).transfers.len() == v.transfers.len() + 1,
        v.hosting(rendezvous).transfers.last().session_id.len() == 0,
        v.hosting(rendezvous).transfers.last().in_control == v.username,
{
}

/// When the rendezvous server is lost before it has named the session, the application is told, and
/// no client is taken to have left; later it is no more than any other peer.
pub proof fn lost_rendezvous_is_reported(s: TransferView, a: SharedView, addr: SocketAddr)
    ensures
        rendezvous_lost(s, addr) ==> closed_by(s, a, addr).0 == s && closed_by(
            s,
            a,
            addr,
        ).1.reports == a.reports.push(ReportView::Event(EventView::SessionIdFetchFailed)),
        s.session_id.len() > 0 ==> closed_by(s, a, addr) == removed(s, a, addr),
{
}

/// What the server says of the controls reaches the clients as it stands: taken from the channel, it
/// goes to each of them and changes nothing else.
pub proof fn own_control_transfer_reaches_clients(v: ServerView, target: Seq<char>)
    requires
        v.transfers.len() > 0,
    ensures
        ({
            let w = v.control_transferred(target);
            let message = PayloadView::TransferControl { from: v.username, to: target };
            &&& w.shared.relayed == v.shared.relayed.push(message)
            &&& w.transfers.last().in_control == target
            &&& app_sent(w.transfers.last(), message) == w.transfers.last().send_to_all(
                None,
                message,
            )
        }),
{
}

} // verus!
