//! What each call brings about, told by its arguments, its result and the state before and after.
use crate::addr::SocketAddr;
use crate::channel::{payload_copy, payload_ends, report_ends};
use crate::laws::until_timeout_is_prefix;
use crate::model::{
    app_sent, app_sent_all, closed_by, due, polled, punched, read_all, read_view, read_views,
    received, removed, ticked, ClientView, SharedView, TransferView,
};
use crate::payload::{
    Error, Event, EventView, Outgoing, OutgoingView, PayloadView, Payloads, ReceiveMessage,
    ReportView,
};
use crate::promises::{
    added, addresses, addresses_but, application_speaks_to_everybody, copies,
    newcomer_is_told_of_everybody, sending_reaches_whom_it_is_for,
};
use crate::punch::{drop_reached, tick_all, HolePunchSession};
use crate::server::{Server, ServerView};
use crate::shared::Shared;
use crate::startup::{
    AfterBind, BindRequest, GatewaySearch, Hosting, LocalAddress, PortForwardResult, PortMapping,
    StartClientError, StartStep,
};
use crate::steps::{next_action, HostingAction, HostingEvent, Step};
use crate::transfer::TransferStruct;
use crossbeam_channel::{Receiver, Sender};
use vstd::prelude::*;

verus! {

// Starting.

/// Whether one more session has begun, for which these messages are to be sent: it is the last, has
/// no name, no clients and nobody to reach, the server has the controls, and the earlier sessions are
/// as they were.
pub open spec fn one_more_session(
    v: ServerView,
    w: ServerView,
    rendezvous: Option<SocketAddr>,
    outbox: Seq<OutgoingView>,
) -> bool {
    &&& w.transfers.len() == v.transfers.len() + 1
    &&& forall|i: int| 0 <= i < v.transfers.len() ==> #[trigger] w.transfers[i] == v.transfers[i]
    &&& w.transfers.last() == (TransferView {
        session_id: Seq::empty(),
        clients: Seq::empty(),
        outbox,
        rendezvous_server: rendezvous,
        clients_to_holepunch: Seq::empty(),
        max_punch_retries: v.max_punch_retries,
        in_control: v.username,
        username: v.username,
        version: v.version,
    })
    &&& w == (ServerView { transfers: w.transfers, shared: w.shared, ..v })
}

/// Whether what all sessions share has changed only in that the application has been told that a
/// session can be joined.
pub open spec fn told_of_opening(a: SharedView, b: SharedView) -> bool {
    b == (SharedView {
        reports: a.reports.push(ReportView::Event(EventView::ConnectionEstablished)),
        ..a
    })
}

/// A new server hosts nothing, counts nobody, has told nobody anything and is not to stop; it has
/// the name and the version that it was made with.
pub proof fn new_server_is_empty(
    username: String,
    version: String,
    max_punch_retries: u8,
    server: Server,
)
    requires
        call_ensures(Server::new, (username, version, max_punch_retries), server),
    ensures
        server@.transfers.len() == 0,
        server@.shared.number_connections == 0,
        !server@.shared.should_stop,
        server@.shared.reports.len() == 0,
        server@.shared.relayed.len() == 0,
        server@.shared.answers.len() == 0,
        server@.username == username@,
        server@.version == version@,
        server@.max_punch_retries == max_punch_retries,
        payload_ends(server.shared().client_tx(), server.shared().client_rx()),
        report_ends(server.shared().server_tx(), server.shared().server_rx()),
{
}

/// To host, a socket is bound at the port that was asked for; the gateway is to forward that port if
/// and only if that was asked for.
pub proof fn starting_binds_the_port(
    server: Server,
    is_ipv6: bool,
    port: u16,
    upnp: bool,
    request: BindRequest,
)
    requires
        call_ensures(Server::start, (&server, is_ipv6, port, upnp), request),
    ensures
        request.is_ipv6 == is_ipv6,
        request.port == Some(port),
        request.socket_config == 3,
        upnp ==> request.next == (AfterBind::Forward { port }),
        !upnp ==> request.next == AfterBind::Host,
{
}

/// To host with hole punching, a socket is bound at any port, and the rendezvous server of the same
/// kind of address is to be found.
pub proof fn hole_punching_binds_any_port(server: Server, is_ipv6: bool, request: BindRequest)
    requires
        call_ensures(Server::start_with_hole_punching, (&server, is_ipv6), request),
    ensures
        request.is_ipv6 == is_ipv6,
        request.port is None,
        request.socket_config == 3,
        request.next == (AfterBind::FindRendezvous { is_ipv6 }),
{
}

/// A socket that cannot be bound is an error and changes nothing. Once it is bound, what is still to
/// be done is done next, and changes nothing yet; where nothing is, one more session has begun,
/// without a rendezvous server, and the application is told that it can be joined.
pub proof fn bound_socket_leads_on<E>(
    server: &mut Server,
    request: BindRequest,
    outcome: Result<(), E>,
    step: Result<StartStep, StartClientError<E>>,
)
    requires
        call_ensures(Server::bound::<E>, (server, request, outcome), step),
    ensures
        outcome matches Err(error) ==> step == Err::<StartStep, StartClientError<E>>(
            StartClientError::SocketError(error),
        ) && final(server)@ == old(server)@,
        outcome is Ok ==> (request.next matches AfterBind::Forward { port } ==> step == Ok::<
            StartStep,
            StartClientError<E>,
        >(StartStep::Forward { port }) && final(server)@ == old(server)@),
        outcome is Ok ==> (request.next matches AfterBind::FindRendezvous { is_ipv6 } ==> step
            == Ok::<StartStep, StartClientError<E>>(StartStep::FindRendezvous { is_ipv6 })
            && final(server)@ == old(server)@),
        outcome is Ok && request.next == AfterBind::Host ==> {
            &&& step matches Ok(StartStep::Hosting(hosting))
            &&& hosting.transfer == old(server)@.transfers.len()
            &&& payload_ends(hosting.client_tx, final(server).shared().client_rx())
            &&& report_ends(final(server).shared().server_tx(), hosting.server_rx)
            &&& one_more_session(old(server)@, final(server)@, None, Seq::empty())
            &&& told_of_opening(old(server)@.shared, final(server)@.shared)
        },
{
}

/// A port that cannot be forwarded is an error and changes nothing. Once it is forwarded, one more
/// session has begun, without a rendezvous server, and the application is told that it can be joined.
pub proof fn forwarded_port_leads_to_hosting<E>(
    server: &mut Server,
    outcome: Result<(), PortForwardResult<E>>,
    step: Result<Hosting, StartClientError<E>>,
)
    requires
        call_ensures(Server::forwarded::<E>, (server, outcome), step),
    ensures
        outcome matches Err(error) ==> step == Err::<Hosting, StartClientError<E>>(
            StartClientError::PortForwardError(error),
        ) && final(server)@ == old(server)@,
        outcome is Ok ==> {
            &&& step matches Ok(hosting)
            &&& hosting.transfer == old(server)@.transfers.len()
            &&& payload_ends(hosting.client_tx, final(server).shared().client_rx())
            &&& report_ends(final(server).shared().server_tx(), hosting.server_rx)
            &&& one_more_session(old(server)@, final(server)@, None, Seq::empty())
            &&& told_of_opening(old(server)@.shared, final(server)@.shared)
        },
{
}

/// A rendezvous server that cannot be found is an error and changes nothing. Once it is found, one
/// more session has begun that goes through it; it is sent a handshake that names no session, and
/// the application is told nothing yet.
pub proof fn found_rendezvous_is_asked_for_a_session<E>(
    server: &mut Server,
    outcome: Result<SocketAddr, E>,
    step: Result<Hosting, StartClientError<E>>,
)
    requires
        call_ensures(Server::rendezvous_found::<E>, (server, outcome), step),
    ensures
        outcome matches Err(error) ==> step == Err::<Hosting, StartClientError<E>>(
            StartClientError::RendezvousError(error),
        ) && final(server)@ == old(server)@,
        outcome matches Ok(addr) ==> {
            &&& step matches Ok(hosting)
            &&& hosting.transfer == old(server)@.transfers.len()
            &&& payload_ends(hosting.client_tx, final(server).shared().client_rx())
            &&& report_ends(final(server).shared().server_tx(), hosting.server_rx)
            &&& one_more_session(
                old(server)@,
                final(server)@,
                Some(addr),
                seq![
                    OutgoingView {
                        payload: PayloadView::Handshake { session_id: Seq::empty() },
                        target: addr,
                    },
                ],
            )
            &&& final(server)@.shared == old(server)@.shared
        },
{
    if let Ok(addr) = outcome {
        let asked = OutgoingView {
            payload: PayloadView::Handshake { session_id: Seq::empty() },
            target: addr,
        };
        assert(Seq::<OutgoingView>::empty().push(asked) =~= seq![asked]);
    }
}

/// The gateway is looked for from the machine's own IPv4 address, at any port, for three seconds;
/// without such an address it is not, and which of the two is wrong is told.
pub proof fn gateway_is_looked_for_from_here<E>(
    server: Server,
    port: u16,
    local: LocalAddress,
    search: Result<GatewaySearch, PortForwardResult<E>>,
)
    requires
        call_ensures(Server::port_forward::<E>, (&server, port, local), search),
    ensures
        local is NotFound ==> search == Err::<GatewaySearch, PortForwardResult<E>>(
            PortForwardResult::LocalAddrNotFound,
        ),
        local matches LocalAddress::NotIpv4(addr) ==> search == Err::<
            GatewaySearch,
            PortForwardResult<E>,
        >(PortForwardResult::LocalAddrNotIPv4(addr)),
        local matches LocalAddress::Ipv4(ip) ==> {
            &&& search matches Ok(search)
            &&& search.bind_addr == (SocketAddr::V4 { ipv4: ip, port: 0 })
            &&& search.timeout_secs == 3
            &&& search.local_ip == ip
            &&& search.port == port
        },
{
}

/// A gateway that is found is to forward the port to the same port of this machine, for a day; one
/// that is not found is an error, and so is a port that is not forwarded.
pub proof fn gateway_forwards_the_port<E>(
    search: GatewaySearch,
    outcome: Result<(), E>,
    next: Result<PortMapping, PortForwardResult<E>>,
    mapping: PortMapping,
    added: Result<(), PortForwardResult<E>>,
)
    requires
        call_ensures(GatewaySearch::found::<E>, (search, outcome), next),
        call_ensures(PortMapping::added::<E>, (mapping, outcome), added),
    ensures
        outcome is Ok ==> {
            &&& next matches Ok(mapping)
            &&& mapping.external_port == search.port
            &&& mapping.local_port == search.port
            &&& mapping.local_ip == search.local_ip
            &&& mapping.lease_secs == 24 * 60 * 60
            &&& mapping.description@ == "YourControls"@
            &&& added is Ok
        },
        outcome matches Err(error) ==> {
            &&& next == Err::<PortMapping, PortForwardResult<E>>(
                PortForwardResult::GatewayNotFound(error),
            )
            &&& added == Err::<(), PortForwardResult<E>>(PortForwardResult::AddPortError(error))
        },
{
}

// Hosting.

/// Whether nothing but one transfer, and what all share, has changed.
pub open spec fn changed_only(v: ServerView, w: ServerView, transfer: int) -> bool {
    &&& w.transfers.len() == v.transfers.len()
    &&& forall|i: int|
        0 <= i < v.transfers.len() && i != transfer ==> #[trigger] w.transfers[i]
            == v.transfers[i]
    &&& w == (ServerView { transfers: w.transfers, shared: w.shared, ..v })
}

/// A message that is read for a transfer is received by it; a lost connection is noticed by it; the
/// word that nothing is waiting, and any other error, change nothing. Other transfers stay as they
/// are. There may be more to read unless nothing was waiting.
pub proof fn what_is_read_concerns_its_transfer(
    server: &mut Server,
    transfer: usize,
    message: Result<(SocketAddr, Payloads), Error>,
    more: bool,
)
    requires
        transfer < old(server)@.transfers.len(),
        call_ensures(Server::handle_read, (server, transfer, message), more),
    ensures
        ({
            let v = old(server)@;
            let w = final(server)@;
            let k = transfer as int;
            &&& changed_only(v, w, k)
            &&& (w.transfers[k], w.shared) == match message {
                Ok((from, payload)) => received(v.transfers[k], v.shared, from, payload@),
                Err(Error::ConnectionClosed(addr)) => closed_by(v.transfers[k], v.shared, addr),
                Err(Error::ReadTimeout) => (v.transfers[k], v.shared),
                Err(Error::SerdeError(_)) => (v.transfers[k], v.shared),
                Err(Error::Other(_)) => (v.transfers[k], v.shared),
            }
            &&& more == !(message matches Err(Error::ReadTimeout))
        }),
{
}

/// The end of a round looks at the clock for its transfer, then sends its clients what the channel
/// gives; other transfers stay as they are. Hosting ends if and only if the server is to stop, which
/// the round does not change.
pub proof fn round_ends_with_the_clock_and_the_application(
    server: &mut Server,
    transfer: usize,
    now: u128,
    stop: bool,
)
    requires
        transfer < old(server)@.transfers.len(),
        call_ensures(Server::finish_round, (server, transfer, now), stop),
    ensures
        ({
            let v = old(server)@;
            let w = final(server)@;
            let k = transfer as int;
            &&& changed_only(v, w, k)
            &&& exists|payloads: Seq<PayloadView>, drained: bool|
                {
                    &&& w.transfers[k] == #[trigger] app_sent_all(
                        punched(v.transfers[k], now),
                        payloads,
                    )
                    &&& w.shared == #[trigger] polled(v.shared, payloads, drained)
                    &&& drained || payloads.len() == usize::MAX
                }
            &&& w.shared.should_stop == v.shared.should_stop
            &&& stop == v.shared.should_stop
        }),
{
    let v = old(server)@;
    let w = final(server)@;
    let k = transfer as int;
    let (payloads, drained) = choose|payloads: Seq<PayloadView>, drained: bool|
        {
            &&& w == #[trigger] v.finished(k, now, payloads, drained)
            &&& drained || payloads.len() == usize::MAX
        };
    assert(w.transfers[k] == app_sent_all(punched(v.transfers[k], now), payloads));
    assert(w.shared == polled(v.shared, payloads, drained));
}

/// The loop that hosts a transfer reads on after whatever it has read, looks at the clock when
/// nothing was waiting, and after that reads again, or ends if the server is to stop. What it has
/// read is received or noticed by its transfer; when it has looked at the clock, the clock is looked
/// at for the transfer, and its clients are sent what the channel gives.
pub proof fn loop_goes_round(
    server: &mut Server,
    transfer: usize,
    event: HostingEvent,
    action: HostingAction,
)
    requires
        transfer < old(server)@.transfers.len(),
        call_ensures(Server::advance, (server, transfer, event), action),
    ensures
        changed_only(old(server)@, final(server)@, transfer as int),
        action == match event {
            HostingEvent::Read(Err(Error::ReadTimeout)) => HostingAction::LookAtClock,
            HostingEvent::Read(_) => HostingAction::Read,
            HostingEvent::Clock(_) => if old(server)@.shared.should_stop {
                HostingAction::End
            } else {
                HostingAction::Read
            },
        },
        ({
            let v = old(server)@;
            let w = final(server)@;
            let k = transfer as int;
            match event {
                HostingEvent::Read(Ok((from, payload))) => (w.transfers[k], w.shared) == received(
                    v.transfers[k],
                    v.shared,
                    from,
                    payload@,
                ),
                HostingEvent::Read(Err(Error::ConnectionClosed(addr))) => (
                    w.transfers[k],
                    w.shared,
                ) == closed_by(v.transfers[k], v.shared, addr),
                HostingEvent::Read(Err(_)) => w.transfers[k] == v.transfers[k] && w.shared
                    == v.shared,
                HostingEvent::Clock(now) => exists|payloads: Seq<PayloadView>, drained: bool|
                    {
                        &&& w.transfers[k] == #[trigger] app_sent_all(
                            punched(v.transfers[k], now),
                            payloads,
                        )
                        &&& w.shared == #[trigger] polled(v.shared, payloads, drained)
                        &&& drained || payloads.len() == usize::MAX
                    },
            }
        }),
{
    let v = old(server)@;
    let w = final(server)@;
    let k = transfer as int;
    if let HostingEvent::Clock(now) = event {
        let (payloads, drained) = choose|payloads: Seq<PayloadView>, drained: bool|
            {
                let step = #[trigger] Step::finish(k, now, payloads, drained);
                &&& w == v.after(step)
                &&& action == next_action(step, w)
                &&& drained || payloads.len() == usize::MAX
            };
        assert(w.transfers[k] == app_sent_all(punched(v.transfers[k], now), payloads));
        assert(w.shared == polled(v.shared, payloads, drained));
    }
}

/// In one round what was read up to the first time that nothing was waiting, here at `end`, or up to
/// the end, is handled one after the other, and nothing after it; then the clock is looked at, and
/// the clients are sent what the channel gives. Other transfers stay as they are. The loop ends if
/// and only if the server is then to stop.
pub proof fn round_goes_up_to_the_timeout(
    server: &mut Server,
    transfer: usize,
    reads: Vec<Result<(SocketAddr, Payloads), Error>>,
    now: u128,
    stop: bool,
    end: int,
)
    requires
        transfer < old(server)@.transfers.len(),
        call_ensures(Server::run_round, (server, transfer, reads, now), stop),
        0 <= end <= reads@.len(),
        forall|i: int|
            0 <= i < end ==> !(#[trigger] reads@[i] matches Err(Error::ReadTimeout)),
        end < reads@.len() ==> (reads@[end] matches Err(Error::ReadTimeout)),
    ensures
        ({
            let v = old(server)@;
            let w = final(server)@;
            let k = transfer as int;
            let (s, a) = read_all(
                v.transfers[k],
                v.shared,
                Seq::new(end as nat, |i: int| read_view(reads@[i])),
            );
            &&& changed_only(v, w, k)
            &&& exists|payloads: Seq<PayloadView>, drained: bool|
                {
                    &&& w.transfers[k] == #[trigger] app_sent_all(punched(s, now), payloads)
                    &&& w.shared == #[trigger] polled(a, payloads, drained)
                    &&& drained || payloads.len() == usize::MAX
                }
            &&& stop == w.shared.should_stop
            &&& stop == a.should_stop
        }),
{
    let v = old(server)@;
    let w = final(server)@;
    let k = transfer as int;
    let all = read_views(reads@);
    let handled = Seq::new(end as nat, |i: int| read_view(reads@[i]));
    assert forall|i: int| 0 <= i < end implies !(#[trigger] all[i] is Timeout) by {
        assert(!(reads@[i] matches Err(Error::ReadTimeout)));
    }
    until_timeout_is_prefix(all, end);
    assert(all.take(end) =~= handled);
    let (s, a) = read_all(v.transfers[k], v.shared, handled);
    let (payloads, drained) = choose|payloads: Seq<PayloadView>, drained: bool|
        {
            &&& w == #[trigger] v.round(k, all, now, payloads, drained)
            &&& drained || payloads.len() == usize::MAX
        };
    assert(w.transfers[k] == app_sent_all(punched(s, now), payloads));
    assert(w.shared == polled(a, payloads, drained));
}

/// What is handed over for a transfer is what was to be sent for it, in order, and nothing of it is
/// left; nothing else changes.
pub proof fn outbox_is_handed_over(
    server: &mut Server,
    transfer: usize,
    messages: Vec<Outgoing>,
    i: int,
)
    requires
        transfer < old(server)@.transfers.len(),
        call_ensures(Server::take_outbox, (server, transfer), messages),
        0 <= i < messages@.len(),
    ensures
        ({
            let v = old(server)@;
            let w = final(server)@;
            let k = transfer as int;
            &&& changed_only(v, w, k)
            &&& w.transfers[k] == (TransferView { outbox: Seq::empty(), ..v.transfers[k] })
            &&& w.shared == v.shared
            &&& messages@.len() == v.transfers[k].outbox.len()
            &&& messages@[i].payload@ == v.transfers[k].outbox[i].payload
            &&& messages@[i].target == v.transfers[k].outbox[i].target
        }),
{
    let handed = messages@.map_values(|message: Outgoing| message@);
    assert(handed[i] == messages@[i]@);
}

// What the application asks for.

/// What a server is asked of itself is what it is: whether it is to stop, how many are connected,
/// that it is the server, its name, and the name of the session that was hosted last.
pub proof fn server_tells_what_it_is(
    server: Server,
    stop: bool,
    count: u16,
    is_server: bool,
    name: &str,
    session_id: Option<String>,
)
    requires
        call_ensures(Server::should_stop, (&server,), stop),
        call_ensures(Server::get_connected_count, (&server,), count),
        call_ensures(Server::is_server, (&server,), is_server),
        call_ensures(Server::get_server_name, (&server,), name),
        call_ensures(Server::get_session_id, (&server,), session_id),
    ensures
        stop == server@.shared.should_stop,
        count == server@.shared.number_connections,
        is_server,
        name@ == server@.username,
        session_id is None <==> server@.transfers.len() == 0,
        session_id matches Some(id) ==> id@ == server@.transfers.last().session_id,
{
}

/// The ends that a server hands out are those of its channels: what goes in at one can come out at
/// the other.
pub proof fn server_hands_out_its_ends(
    server: Server,
    client_tx: &Sender<Payloads>,
    server_tx: &Sender<ReceiveMessage>,
    server_rx: &Receiver<ReceiveMessage>,
)
    requires
        server.wf(),
        call_ensures(Server::get_transmitter, (&server,), client_tx),
        call_ensures(Server::get_server_transmitter, (&server,), server_tx),
        call_ensures(Server::get_receiver, (&server,), server_rx),
    ensures
        payload_ends(*client_tx, server.shared().client_rx()),
        report_ends(*server_tx, *server_rx),
        report_ends(server.shared().server_tx(), *server_rx),
{
}

/// Giving the controls away is told to the clients and to the application alike: by the server, to
/// whom they are given. In the session that was hosted last, whom they are given to has them; in
/// the others, and in all else, nothing changes.
pub proof fn given_controls_are_told_to_all(server: &mut Server, target: String)
    requires
        call_ensures(Server::transfer_control, (server, target), ()),
    ensures
        ({
            let v = old(server)@;
            let w = final(server)@;
            let word = PayloadView::TransferControl { from: v.username, to: target@ };
            let last = v.transfers.len() - 1;
            &&& changed_only(v, w, last)
            &&& w.shared == (SharedView {
                relayed: v.shared.relayed.push(word),
                reports: v.shared.reports.push(ReportView::Payload(word)),
                ..v.shared
            })
            &&& last >= 0 ==> w.transfers[last] == (TransferView {
                in_control: target@,
                ..v.transfers[last]
            })
        }),
{
}

/// Making somebody an observer, or no longer so, is told to the clients: by the server, of whom, and
/// which of the two. In the session that was hosted last the clients of that name are now what the
/// others are told that they are; of other clients, in other sessions, and in all else, nothing
/// changes.
pub proof fn observers_are_told_to_all(
    server: &mut Server,
    target: String,
    is_observer: bool,
)
    requires
        call_ensures(Server::set_observer, (server, target, is_observer), ()),
    ensures
        ({
            let v = old(server)@;
            let w = final(server)@;
            let last = v.transfers.len() - 1;
            &&& changed_only(v, w, last)
            &&& w.shared == (SharedView {
                relayed: v.shared.relayed.push(
                    PayloadView::SetObserver { from: v.username, to: target@, is_observer },
                ),
                ..v.shared
            })
            &&& last >= 0 ==> {
                let before = v.transfers[last].clients;
                let after = w.transfers[last].clients;
                &&& w.transfers[last] == (TransferView { clients: after, ..v.transfers[last] })
                &&& after.len() == before.len()
                &&& forall|i: int|
                    0 <= i < before.len() ==> #[trigger] after[i] == (ClientView {
                        name: before[i].name,
                        addr: before[i].addr,
                        is_observer: if before[i].name == target@ {
                            is_observer
                        } else {
                            before[i].is_observer
                        },
                    })
            }
        }),
{
}

/// What the clients are told of an observer is what newcomers are told afterwards: whoever is let in
/// next hears of the client that was named what the clients hear of it.
pub proof fn newcomers_hear_of_observers_what_clients_hear(
    v: ServerView,
    target: Seq<char>,
    is_observer: bool,
    i: int,
    from: SocketAddr,
    name: Seq<char>,
)
    requires
        v.transfers.len() > 0,
        0 <= i < v.transfers.last().clients.len(),
        v.transfers.last().clients[i].name == target,
        name != v.transfers.last().username,
        forall|j: int|
            0 <= j < v.transfers.last().clients.len() ==> (
            #[trigger] v.transfers.last().clients[j]).name != name,
        0 <= v.shared.number_connections <= 0xffff,
    ensures
        ({
            let w = v.observer_set(target, is_observer);
            let s = w.transfers.last();
            let t = received(
                s,
                w.shared,
                from,
                PayloadView::InitHandshake { name, version: s.version },
            ).0;
            let told = added(s, t)[i];
            &&& told.target == from
            &&& told.payload matches PayloadView::PlayerJoined { name: of, is_observer: now, .. }
                && of == target && now == is_observer
            &&& w.shared.relayed.last() matches PayloadView::SetObserver {
                from: by,
                to,
                is_observer: said,
            } && by == v.username && to == target && said == is_observer
        }),
{
    let w = v.observer_set(target, is_observer);
    let s = w.transfers.last();
    let before = v.transfers.last();
    assert forall|j: int| 0 <= j < s.clients.len() implies (#[trigger] s.clients[j]).name
        != name by {
        assert(before.clients[j].name != name);
    }
    newcomer_is_told_of_everybody(s, w.shared, from, name, s.version);
    assert(added(
        s,
        received(
            s,
            w.shared,
            from,
            PayloadView::InitHandshake { name, version: s.version },
        ).0,
    )[i].target == from);
}

/// What the clients are told of the controls is what newcomers are told afterwards: whoever is let
/// in next hears of each client, and of the server, that it has them if and only if it is the one
/// that the clients hear they were given to.
pub proof fn newcomers_hear_of_the_controls_what_clients_hear(
    v: ServerView,
    target: Seq<char>,
    from: SocketAddr,
    name: Seq<char>,
)
    requires
        v.transfers.len() > 0,
        name != v.transfers.last().username,
        forall|j: int|
            0 <= j < v.transfers.last().clients.len() ==> (
            #[trigger] v.transfers.last().clients[j]).name != name,
        0 <= v.shared.number_connections <= 0xffff,
    ensures
        ({
            let w = v.control_transferred(target);
            let s = w.transfers.last();
            let t = received(
                s,
                w.shared,
                from,
                PayloadView::InitHandshake { name, version: s.version },
            ).0;
            let word = PayloadView::TransferControl { from: v.username, to: target };
            &&& w.shared.relayed.last() == word
            &&& w.shared.reports.last() == ReportView::Payload(word)
            &&& forall|i: int|
                0 <= i <= s.clients.len() ==> ((#[trigger] added(s, t)[i]).payload matches
                PayloadView::PlayerJoined { name: of, in_control, .. } && in_control == (of
                    == target))
        }),
{
    let w = v.control_transferred(target);
    let s = w.transfers.last();
    let before = v.transfers.last();
    assert forall|j: int| 0 <= j < s.clients.len() implies (#[trigger] s.clients[j]).name
        != name by {
        assert(before.clients[j].name != name);
    }
    newcomer_is_told_of_everybody(s, w.shared, from, name, s.version);
}

/// To ask for hosting to end raises the wish to stop and tells the application why; no session
/// changes.
pub proof fn stopping_is_told(server: &mut Server, reason: String)
    requires
        call_ensures(Server::stop, (server, reason), ()),
    ensures
        final(server)@ == (ServerView {
            shared: SharedView {
                should_stop: true,
                reports: old(server)@.shared.reports.push(
                    ReportView::Event(EventView::ConnectionLost(reason@)),
                ),
                ..old(server)@.shared
            },
            ..old(server)@
        }),
{
}

// One session.

/// A new session has the server's name and version and goes through the rendezvous server that it is
/// given; all else is empty, and the server has the controls.
pub proof fn new_transfer_is_empty(
    username: String,
    version: String,
    max_punch_retries: u8,
    rendezvous_server: Option<SocketAddr>,
    transfer: TransferStruct,
)
    requires
        call_ensures(
            TransferStruct::new,
            (username, version, max_punch_retries, rendezvous_server),
            transfer,
        ),
    ensures
        transfer@ == (TransferView {
            session_id: Seq::empty(),
            clients: Seq::empty(),
            outbox: Seq::empty(),
            rendezvous_server,
            clients_to_holepunch: Seq::empty(),
            max_punch_retries,
            in_control: username@,
            username: username@,
            version: version@,
        }),
{
}

/// A message to a peer is the last of those to be sent; a message to all is for each client, or for
/// each but those at an address, in the order in which they joined. Nothing else changes.
pub proof fn transfer_sends_to_whom_it_is_told(
    one: &mut TransferStruct,
    all: &mut TransferStruct,
    payload: Payloads,
    target: SocketAddr,
    except: Option<&SocketAddr>,
)
    requires
        call_ensures(TransferStruct::send_message, (one, payload, target), ()),
        call_ensures(TransferStruct::send_to_all, (all, except, payload), ()),
    ensures
        final(one)@ == (TransferView {
            outbox: old(one)@.outbox.push(OutgoingView { payload: payload@, target }),
            ..old(one)@
        }),
        final(all)@ == (TransferView { outbox: final(all)@.outbox, ..old(all)@ }),
        old(all)@.outbox.is_prefix_of(final(all)@.outbox),
        copies(
            added(old(all)@, final(all)@),
            payload@,
            match except {
                Some(addr) => addresses_but(old(all)@.clients, *addr),
                None => addresses(old(all)@.clients),
            },
        ),
{
    sending_reaches_whom_it_is_for(old(all)@, payload@, match except {
        Some(addr) => *addr,
        None => target,
    });
}

/// A transfer receives what comes in, notices what is lost, and looks at the clock; a lost client is
/// removed, and nothing else happens to what is not concerned.
pub proof fn transfer_does_as_it_is_told(
    receives: &mut TransferStruct,
    notices: &mut TransferStruct,
    removes: &mut TransferStruct,
    looks: &mut TransferStruct,
    shared: &mut Shared,
    shared_too: &mut Shared,
    shared_as_well: &mut Shared,
    addr: SocketAddr,
    payload: Payloads,
    now: u128,
)
    requires
        call_ensures(TransferStruct::handle_message, (receives, shared, addr, payload), ()),
        call_ensures(TransferStruct::handle_closed, (notices, shared_too, addr), ()),
        call_ensures(TransferStruct::remove_client, (removes, shared_as_well, addr), ()),
        call_ensures(TransferStruct::handle_handshake, (looks, now), ()),
    ensures
        (final(receives)@, final(shared)@) == received(
            old(receives)@,
            old(shared)@,
            addr,
            payload@,
        ),
        (final(notices)@, final(shared_too)@) == closed_by(
            old(notices)@,
            old(shared_too)@,
            addr,
        ),
        (final(removes)@, final(shared_as_well)@) == removed(
            old(removes)@,
            old(shared_as_well)@,
            addr,
        ),
        final(looks)@ == punched(old(looks)@, now),
{
}

/// A payload from the application goes to every client; where it gives the controls away, whom it
/// gives them to has them; nothing else changes.
pub proof fn transfer_passes_on_what_the_application_says(
    transfer: &mut TransferStruct,
    payload: Payloads,
)
    requires
        call_ensures(TransferStruct::relay_app_message, (transfer, payload), ()),
    ensures
        ({
            let s = old(transfer)@;
            let t = final(transfer)@;
            &&& s.outbox.is_prefix_of(t.outbox)
            &&& copies(added(s, t), payload@, addresses(s.clients))
            &&& t == (TransferView {
                outbox: t.outbox,
                in_control: match payload {
                    Payloads::TransferControl { to, .. } => to@,
                    _ => s.in_control,
                },
                ..s
            })
        }),
{
    application_speaks_to_everybody(old(transfer)@, payload@);
    assert(final(transfer)@ == app_sent(old(transfer)@, payload@));
}

/// A transfer receives a message that is read, notices a lost connection, and does nothing else of
/// what reading gives; it hands over what is to be sent, in order, and keeps none of it; it tells
/// the name of its session.
pub proof fn transfer_reads_and_hands_over(
    reads: &mut TransferStruct,
    shared: &mut Shared,
    message: Result<(SocketAddr, Payloads), Error>,
    more: bool,
    hands: &mut TransferStruct,
    messages: Vec<Outgoing>,
    i: int,
    tells: TransferStruct,
    session_id: &String,
)
    requires
        call_ensures(TransferStruct::handle_read, (reads, shared, message), more),
        call_ensures(TransferStruct::take_outbox, (hands,), messages),
        call_ensures(TransferStruct::session_id, (&tells,), session_id),
    ensures
        (final(reads)@, final(shared)@) == match message {
            Ok((from, payload)) => received(old(reads)@, old(shared)@, from, payload@),
            Err(Error::ConnectionClosed(addr)) => closed_by(old(reads)@, old(shared)@, addr),
            Err(_) => (old(reads)@, old(shared)@),
        },
        more == !(message matches Err(Error::ReadTimeout)),
        final(hands)@ == (TransferView { outbox: Seq::empty(), ..old(hands)@ }),
        messages@.len() == old(hands)@.outbox.len(),
        0 <= i < messages@.len() ==> messages@[i].payload@ == old(hands)@.outbox[i].payload
            && messages@[i].target == old(hands)@.outbox[i].target,
        session_id@ == tells@.session_id,
{
    let handed = messages@.map_values(|message: Outgoing| message@);
    if 0 <= i < messages@.len() {
        assert(handed[i] == messages@[i]@);
    }
}

/// A transfer sends its clients each payload that the channel gives, one after the other, until the
/// channel has none.
pub proof fn transfer_drains_the_channel(
    transfer: &mut TransferStruct,
    shared: &mut Shared,
    drained: bool,
)
    requires
        call_ensures(TransferStruct::handle_app_message, (transfer, shared), drained),
    ensures
        exists|payloads: Seq<PayloadView>|
            {
                &&& final(transfer)@ == #[trigger] app_sent_all(old(transfer)@, payloads)
                &&& final(shared)@ == polled(old(shared)@, payloads, drained)
                &&& drained || payloads.len() == usize::MAX
            },
        final(shared)@ == (SharedView { answers: final(shared)@.answers, ..old(shared)@ }),
        drained ==> final(shared)@.answers.last() is None,
{
}

/// What is set of a session is what it then has: who has the controls, and whether those of a name
/// observe. Nothing else changes.
pub proof fn transfer_keeps_what_is_set(
    controls: &mut TransferStruct,
    observers: &mut TransferStruct,
    target: String,
    is_observer: bool,
)
    requires
        call_ensures(TransferStruct::set_in_control, (controls, target), ()),
        call_ensures(TransferStruct::set_observer, (observers, &target, is_observer), ()),
    ensures
        final(controls)@ == (TransferView { in_control: target@, ..old(controls)@ }),
        final(observers)@ == (TransferView {
            clients: final(observers)@.clients,
            ..old(observers)@
        }),
        final(observers)@.clients.len() == old(observers)@.clients.len(),
        forall|i: int|
            0 <= i < old(observers)@.clients.len() ==> #[trigger] final(observers)@.clients[i] == (
            ClientView {
                name: old(observers)@.clients[i].name,
                addr: old(observers)@.clients[i].addr,
                is_observer: if old(observers)@.clients[i].name == target@ {
                    is_observer
                } else {
                    old(observers)@.clients[i].is_observer
                },
            }),
{
}

// Hole punching.

/// A peer to be reached has been sent nothing. It is due at once, and after each handshake again
/// when a second of a thousand million nanoseconds has passed; each handshake is counted with its
/// time.
pub proof fn handshakes_are_a_second_apart(
    addr: SocketAddr,
    fresh: HolePunchSession,
    session: HolePunchSession,
    now: u128,
    answer: bool,
    counted: &mut HolePunchSession,
)
    requires
        call_ensures(HolePunchSession::new, (addr,), fresh),
        call_ensures(HolePunchSession::is_due, (&session, now), answer),
        call_ensures(HolePunchSession::count_handshake, (counted, now), ()),
        old(counted).retries < 255,
        old(counted).timer is None || now >= old(counted).timer->0 + 1_000_000_000,
    ensures
        fresh.addr == addr,
        fresh.timer is None,
        fresh.retries == 0,
        answer == (session.timer is None || now >= session.timer->0 + 1_000_000_000),
        final(counted).addr == old(counted).addr,
        final(counted).timer == Some(now),
        final(counted).retries == old(counted).retries + 1,
{
}

/// A look at the clock goes to each peer that is due, in order; each is counted, those who have got
/// all that they should get are gone, and the others stay in order. Once a peer has been reached its
/// sessions are gone, and the others stay in order.
pub proof fn sessions_are_ticked_and_dropped(
    ticks: &mut Vec<HolePunchSession>,
    drops: &mut Vec<HolePunchSession>,
    now: u128,
    max_punch_retries: u8,
    addr: SocketAddr,
    sent: Vec<SocketAddr>,
)
    requires
        call_ensures(tick_all, (ticks, now, max_punch_retries), sent),
        call_ensures(drop_reached, (drops, addr), ()),
    ensures
        sent@ == old(ticks)@.filter(
            |session: HolePunchSession|
                session.timer is None || now >= session.timer->0 + 1_000_000_000,
        ).map_values(|session: HolePunchSession| session.addr),
        final(ticks)@ == old(ticks)@.map_values(
            |session: HolePunchSession|
                if session.timer is None || now >= session.timer->0 + 1_000_000_000 {
                    HolePunchSession {
                        addr: session.addr,
                        timer: Some(now),
                        retries: (session.retries + 1) as u8,
                    }
                } else {
                    session
                },
        ).filter(|session: HolePunchSession| session.retries != max_punch_retries),
        final(drops)@ == old(drops)@.filter(|session: HolePunchSession| session.addr != addr),
{
    let is_due = |session: HolePunchSession| due(session, now);
    let tick = |session: HolePunchSession| ticked(session, now);
    let second = |session: HolePunchSession|
        session.timer is None || now >= session.timer->0 + 1_000_000_000;
    let count = |session: HolePunchSession|
        if session.timer is None || now >= session.timer->0 + 1_000_000_000 {
            HolePunchSession {
                addr: session.addr,
                timer: Some(now),
                retries: (session.retries + 1) as u8,
            }
        } else {
            session
        };
    assert(is_due =~= second);
    assert(tick =~= count);
}

// What all sessions share.

/// What is shared changes only in what a call is about: a report is added, a payload is handed to
/// the clients' channel, a client is counted in or out, or hosting is to end. The count goes from
/// its highest value to zero and back.
pub proof fn shared_changes_one_thing_at_a_time(
    reports: &mut Shared,
    relays: &mut Shared,
    joins: &mut Shared,
    leaves: &mut Shared,
    stops: &mut Shared,
    report: ReceiveMessage,
    payload: Payloads,
)
    requires
        call_ensures(Shared::report, (reports, report), ()),
        call_ensures(Shared::relay, (relays, payload), ()),
        call_ensures(Shared::count_joined, (joins,), ()),
        call_ensures(Shared::count_left, (leaves,), ()),
        call_ensures(Shared::stop, (stops,), ()),
        0 <= old(joins)@.number_connections <= 0xffff,
        0 <= old(leaves)@.number_connections <= 0xffff,
    ensures
        final(reports)@ == (SharedView {
            reports: old(reports)@.reports.push(report@),
            ..old(reports)@
        }),
        final(relays)@ == (SharedView {
            relayed: old(relays)@.relayed.push(payload@),
            ..old(relays)@
        }),
        final(joins)@ == (SharedView {
            number_connections: if old(joins)@.number_connections == 0xffff {
                0
            } else {
                old(joins)@.number_connections + 1
            },
            ..old(joins)@
        }),
        final(leaves)@ == (SharedView {
            number_connections: if old(leaves)@.number_connections == 0 {
                0xffff
            } else {
                old(leaves)@.number_connections - 1
            },
            ..old(leaves)@
        }),
        final(stops)@ == (SharedView { should_stop: true, ..old(stops)@ }),
{
}

/// What is newly shared is empty and not to stop; a payload that is taken from the channel, or that
/// there was none, is the last answer; what is asked is what is there.
pub proof fn shared_tells_what_there_is(
    fresh: Shared,
    takes: &mut Shared,
    taken: Option<Payloads>,
    asked: Shared,
    count: u16,
    stop: bool,
)
    requires
        call_ensures(Shared::new, (), fresh),
        call_ensures(Shared::next_relayed, (takes,), taken),
        call_ensures(Shared::number_connections, (&asked,), count),
        call_ensures(Shared::should_stop, (&asked,), stop),
    ensures
        fresh@.number_connections == 0,
        !fresh@.should_stop,
        fresh@.reports.len() == 0,
        fresh@.relayed.len() == 0,
        fresh@.answers.len() == 0,
        payload_ends(fresh.client_tx(), fresh.client_rx()),
        report_ends(fresh.server_tx(), fresh.server_rx()),
        final(takes)@ == (SharedView {
            answers: old(takes)@.answers.push(
                match taken {
                    Some(payload) => Some(payload@),
                    None => None,
                },
            ),
            ..old(takes)@
        }),
        count == asked@.number_connections,
        stop == asked@.should_stop,
{
}

/// The ends for the application are of the same channels, and are its own.
pub proof fn application_gets_ends_of_its_own(
    shared: Shared,
    ends: (Sender<Payloads>, Receiver<ReceiveMessage>),
)
    requires
        shared.wf(),
        call_ensures(Shared::app_ends, (&shared,), ends),
    ensures
        payload_ends(ends.0, shared.client_rx()),
        report_ends(shared.server_tx(), ends.1),
        payload_copy(ends.0),
{
}

// What messages say.

/// The value of a message says all that the message says, and nothing else.
pub proof fn messages_keep_what_they_say(
    a: String,
    b: String,
    data: Vec<u8>,
    peer: SocketAddr,
    x: bool,
    y: bool,
    z: bool,
)
    ensures
        (Payloads::InvalidName {  })@ == PayloadView::InvalidName,
        (Payloads::InvalidVersion { server_version: a })@ == (PayloadView::InvalidVersion {
            server_version: a@,
        }),
        (Payloads::PlayerJoined { name: a, in_control: x, is_server: y, is_observer: z })@ == (
        PayloadView::PlayerJoined { name: a@, in_control: x, is_server: y, is_observer: z }),
        (Payloads::PlayerLeft { name: a })@ == (PayloadView::PlayerLeft { name: a@ }),
        (Payloads::SetObserver { from: a, to: b, is_observer: x })@ == (PayloadView::SetObserver {
            from: a@,
            to: b@,
            is_observer: x,
        }),
        (Payloads::PeerEstablished { peer })@ == (PayloadView::PeerEstablished { peer }),
        (Payloads::Update { data })@ == (PayloadView::Update { data: data@ }),
        (Payloads::InitHandshake { name: a, version: b })@ == (PayloadView::InitHandshake {
            name: a@,
            version: b@,
        }),
        (Payloads::TransferControl { from: a, to: b })@ == (PayloadView::TransferControl {
            from: a@,
            to: b@,
        }),
        (Payloads::Handshake { session_id: a })@ == (PayloadView::Handshake { session_id: a@ }),
        (Payloads::HostingReceived { session_id: a })@ == (PayloadView::HostingReceived {
            session_id: a@,
        }),
        (Payloads::AttemptConnection { peer })@ == (PayloadView::AttemptConnection { peer }),
{
}

/// The value of a report, or of a message on its way, says all that it says; a copy of a payload says
/// what the payload says.
pub proof fn reports_and_copies_keep_what_they_say(
    payload: Payloads,
    copy: Payloads,
    reason: String,
    target: SocketAddr,
)
    requires
        call_ensures(Payloads::clone, (&payload,), copy),
    ensures
        copy@ == payload@,
        ReceiveMessage::Payload(payload)@ == ReportView::Payload(payload@),
        ReceiveMessage::Event(Event::ConnectionEstablished)@ == ReportView::Event(
            EventView::ConnectionEstablished,
        ),
        ReceiveMessage::Event(Event::ConnectionLost(reason))@ == ReportView::Event(
            EventView::ConnectionLost(reason@),
        ),
        ReceiveMessage::Event(Event::SessionIdFetchFailed)@ == ReportView::Event(
            EventView::SessionIdFetchFailed,
        ),
        (Outgoing { payload, target })@ == (OutgoingView { payload: payload@, target }),
{
}

} // verus!
