//! The server that the application holds.
use crate::addr::SocketAddr;
use crate::channel::{payload_ends, payloads_given, report_ends};
use crate::laws::until_timeout_is_prefix;
use crate::model::{
    app_sent_all, opened, polled, punched, read_all, read_one, read_view, read_views, until_timeout,
    with_observer, ReadView, SharedView, TransferView,
};
use crate::payload::{
    Error, Event, EventView, Outgoing, PayloadView, Payloads, ReceiveMessage, ReportView,
};
use crate::seqs::lemma_map_of_push;
use crate::shared::Shared;
use crate::startup::{
    AfterBind, BindRequest, GatewaySearch, Hosting, LocalAddress, PortForwardResult,
    StartClientError, StartStep, GATEWAY_TIMEOUT_SECS, SOCKET_CONFIG,
};
use crate::steps::{next_action, HostingAction, HostingEvent, Step};
use crate::transfer::TransferStruct;
use crossbeam_channel::{Receiver, Sender};
use vstd::prelude::*;

verus! {

/// A server: its name, the version it speaks, and the sessions that it hosts.
///
/// Each time hosting is started a transfer of its own begins. All transfers share the count of
/// connections, the wish to stop and the channels; what is asked of the server concerns the latest.
pub struct Server {
    shared: Shared,
    transfers: Vec<TransferStruct>,
    username: String,
    version: String,
    max_punch_retries: u8,
}

/// The value of a [`Server`].
#[verifier::ext_equal]
pub struct ServerView {
    pub shared: SharedView,
    pub transfers: Seq<TransferView>,
    pub username: Seq<char>,
    pub version: Seq<char>,
    pub max_punch_retries: u8,
}

impl ServerView {
    /// The name under which a rendezvous server knows the session that was hosted last: none before
    /// hosting is started, and an empty one until the rendezvous server has given one.
    pub open spec fn session_id(self) -> Option<Seq<char>> {
        if self.transfers.len() > 0 {
            Some(self.transfers.last().session_id)
        } else {
            None
        }
    }

    /// The state of a server that hosts nothing yet.
    pub open spec fn created(
        username: Seq<char>,
        version: Seq<char>,
        max_punch_retries: u8,
    ) -> ServerView {
        ServerView {
            shared: SharedView {
                number_connections: 0,
                should_stop: false,
                reports: Seq::empty(),
                relayed: Seq::empty(),
                answers: Seq::empty(),
            },
            transfers: Seq::empty(),
            username,
            version,
            max_punch_retries,
        }
    }

    /// The state once one more session is hosted. Without a rendezvous server it can be joined at
    /// once, and the application is told so.
    pub open spec fn hosting(self, rendezvous: Option<SocketAddr>) -> ServerView {
        ServerView {
            shared: match rendezvous {
                Some(_) => self.shared,
                None => self.shared.report(ReportView::Event(EventView::ConnectionEstablished)),
            },
            transfers: self.transfers.push(
                opened(self.username, self.version, self.max_punch_retries, rendezvous),
            ),
            ..self
        }
    }

    /// The state with another value of one transfer, and of what all share.
    pub open spec fn with_transfer(
        self,
        transfer: int,
        values: (TransferView, SharedView),
    ) -> ServerView {
        ServerView {
            transfers: self.transfers.update(transfer, values.0),
            shared: values.1,
            ..self
        }
    }

    /// Every transfer is in order.
    pub open spec fn wf(self) -> bool {
        &&& 0 < self.max_punch_retries
        &&& forall|i: int| 0 <= i < self.transfers.len() ==> (#[trigger] self.transfers[i]).wf()
    }

    /// The state once one more session is hosted with the help of the rendezvous server at `addr`,
    /// which has been asked for a session.
    pub open spec fn hosting_with(self, addr: SocketAddr) -> ServerView {
        let hosting = self.hosting(Some(addr));
        let transfer = self.transfers.len() as int;
        hosting.with_transfer(
            transfer,
            (
                hosting.transfers[transfer].send(
                    PayloadView::Handshake { session_id: Seq::empty() },
                    addr,
                ),
                hosting.shared,
            ),
        )
    }

    /// The state once something that was read for a transfer has been handled.
    pub open spec fn read(self, transfer: int, read: ReadView) -> ServerView {
        self.with_transfer(transfer, read_one(self.transfers[transfer], self.shared, read))
    }

    /// The state once a round of a transfer has ended: the clock has been looked at, and the clients
    /// have been sent the payloads that the channel gave until it was drained.
    pub open spec fn finished(
        self,
        transfer: int,
        now: u128,
        payloads: Seq<PayloadView>,
        drained: bool,
    ) -> ServerView {
        self.with_transfer(
            transfer,
            (
                app_sent_all(punched(self.transfers[transfer], now), payloads),
                polled(self.shared, payloads, drained),
            ),
        )
    }

    /// The state once a transfer has gone through a whole round: what was read until nothing more
    /// was waiting has been handled, one after the other, then the clock has been looked at, then
    /// the clients have been sent the payloads that the channel gave until it was drained.
    pub open spec fn round(
        self,
        transfer: int,
        reads: Seq<ReadView>,
        now: u128,
        payloads: Seq<PayloadView>,
        drained: bool,
    ) -> ServerView {
        let (s, a) = read_all(self.transfers[transfer], self.shared, until_timeout(reads));
        self.with_transfer(
            transfer,
            (app_sent_all(punched(s, now), payloads), polled(a, payloads, drained)),
        )
    }

    /// The state once what is to be sent for a transfer has been handed over.
    pub open spec fn emptied(self, transfer: int) -> ServerView {
        self.with_transfer(
            transfer,
            (
                TransferView { outbox: Seq::empty(), ..self.transfers[transfer] },
                self.shared,
            ),
        )
    }

    /// The state once the server has been asked to stop.
    pub open spec fn stopped(self, reason: Seq<char>) -> ServerView {
        ServerView {
            shared: SharedView {
                should_stop: true,
                ..self.shared.report(ReportView::Event(EventView::ConnectionLost(reason)))
            },
            ..self
        }
    }

    /// The state once the server has given the controls to `target`.
    pub open spec fn control_transferred(self, target: Seq<char>) -> ServerView {
        let message = PayloadView::TransferControl { from: self.username, to: target };
        let last = self.transfers.len() - 1;
        ServerView {
            transfers: if self.transfers.len() > 0 {
                self.transfers.update(
                    last,
                    TransferView { in_control: target, ..self.transfers[last] },
                )
            } else {
                self.transfers
            },
            shared: SharedView {
                relayed: self.shared.relayed.push(message),
                reports: self.shared.reports.push(ReportView::Payload(message)),
                ..self.shared
            },
            ..self
        }
    }

    /// The state once the server has made `target` an observer or no longer so.
    pub open spec fn observer_set(self, target: Seq<char>, is_observer: bool) -> ServerView {
        let message = PayloadView::SetObserver { from: self.username, to: target, is_observer };
        let last = self.transfers.len() - 1;
        ServerView {
            transfers: if self.transfers.len() > 0 {
                self.transfers.update(
                    last,
                    TransferView {
                        clients: with_observer(self.transfers[last].clients, target, is_observer),
                        ..self.transfers[last]
                    },
                )
            } else {
                self.transfers
            },
            shared: SharedView { relayed: self.shared.relayed.push(message), ..self.shared },
            ..self
        }
    }
}

/// How many clients there are in all transfers together.
pub open spec fn total_clients(transfers: Seq<TransferView>) -> int
    decreases transfers.len(),
{
    if transfers.len() == 0 {
        0
    } else {
        total_clients(transfers.drop_last()) + transfers.last().clients.len()
    }
}

/// The values of a list of transfers.
spec fn transfer_views(transfers: Seq<TransferStruct>) -> Seq<TransferView> {
    transfers.map_values(|transfer: TransferStruct| transfer@)
}

impl View for Server {
    type V = ServerView;

    closed spec fn view(&self) -> ServerView {
        ServerView {
            shared: self.shared@,
            transfers: transfer_views(self.transfers@),
            username: self.username@,
            version: self.version@,
            max_punch_retries: self.max_punch_retries,
        }
    }
}

impl Server {
    /// What the server shares with its transfers.
    pub closed spec fn shared(&self) -> Shared {
        self.shared
    }

    /// Every transfer is in order, and the ends of the channels belong together.
    pub open spec fn wf(&self) -> bool {
        &&& self@.wf()
        &&& self.shared().wf()
    }

    /// What the application is given belongs to the server's channels: payloads that it puts in
    /// come out at the server, and reports of the server come out at it.
    pub open spec fn hands_out(&self, hosting: Hosting) -> bool {
        &&& payload_ends(hosting.client_tx, self.shared().client_rx())
        &&& report_ends(self.shared().server_tx(), hosting.server_rx)
        &&& payloads_given(hosting.client_tx) == Seq::<PayloadView>::empty()
    }

    /// A server that hosts nothing yet. Peers that are to be reached by hole punching are given up
    /// after `max_punch_retries` handshakes.
    pub fn new(username: String, version: String, max_punch_retries: u8) -> (server: Self)
        requires
            0 < max_punch_retries,
        ensures
            server@ == ServerView::created(username@, version@, max_punch_retries),
            server.wf(),
    {
        let server = Server {
            shared: Shared::new(),
            transfers: Vec::new(),
            username,
            version,
            max_punch_retries,
        };
        assert(transfer_views(server.transfers@) =~= Seq::empty());
        server
    }

    // Starting.

    /// Starts hosting at `port`, which the gateway is asked to forward if `upnp` is set. Returns
    /// the socket that is to be bound.
    pub fn start(&self, is_ipv6: bool, port: u16, upnp: bool) -> (request: BindRequest)
        ensures
            request == (BindRequest {
                is_ipv6,
                port: Some(port),
                socket_config: SOCKET_CONFIG,
                next: if upnp {
                    AfterBind::Forward { port }
                } else {
                    AfterBind::Host
                },
            }),
    {
        BindRequest {
            is_ipv6,
            port: Some(port),
            socket_config: SOCKET_CONFIG,
            next: if upnp {
                AfterBind::Forward { port }
            } else {
                AfterBind::Host
            },
        }
    }

    /// Starts hosting with the help of a rendezvous server. Returns the socket that is to be bound.
    pub fn start_with_hole_punching(&self, is_ipv6: bool) -> (request: BindRequest)
        ensures
            request == (BindRequest {
                is_ipv6,
                port: None,
                socket_config: SOCKET_CONFIG,
                next: AfterBind::FindRendezvous { is_ipv6 },
            }),
    {
        BindRequest {
            is_ipv6,
            port: None,
            socket_config: SOCKET_CONFIG,
            next: AfterBind::FindRendezvous { is_ipv6 },
        }
    }

    /// The socket has been bound, or not.
    pub fn bound<E>(&mut self, request: BindRequest, outcome: Result<(), E>) -> (step: Result<
        StartStep,
        StartClientError<E>,
    >)
        requires
            old(self).wf(),
        ensures
            match outcome {
                Err(error) => {
                    &&& step == Err::<StartStep, StartClientError<E>>(
                        StartClientError::SocketError(error),
                    )
                    &&& final(self)@ == old(self)@
                },
                Ok(()) => match request.next {
                    AfterBind::Forward { port } => {
                        &&& step == Ok::<StartStep, StartClientError<E>>(
                            StartStep::Forward { port },
                        )
                        &&& final(self)@ == old(self)@
                    },
                    AfterBind::FindRendezvous { is_ipv6 } => {
                        &&& step == Ok::<StartStep, StartClientError<E>>(
                            StartStep::FindRendezvous { is_ipv6 },
                        )
                        &&& final(self)@ == old(self)@
                    },
                    AfterBind::Host => {
                        &&& step matches Ok(StartStep::Hosting(hosting))
                        &&& hosting.transfer == old(self)@.transfers.len()
                        &&& final(self).hands_out(hosting)
                        &&& final(self)@ == old(self)@.hosting(None)
                    },
                },
            },
            final(self).wf(),
            final(self).shared().same_channels(old(self).shared()),
    {
        match outcome {
            Err(error) => Err(StartClientError::SocketError(error)),
            Ok(()) => match request.next {
                AfterBind::Forward { port } => Ok(StartStep::Forward { port }),
                AfterBind::FindRendezvous { is_ipv6 } => Ok(
                    StartStep::FindRendezvous { is_ipv6 },
                ),
                AfterBind::Host => {
                    let hosting = self.run(None);
                    Ok(StartStep::Hosting(hosting))
                },
            },
        }
    }

    /// Begins to have the gateway forward `port` to this machine, whose address is `local`. Returns
    /// the search for the gateway.
    pub fn port_forward<E>(&self, port: u16, local: LocalAddress) -> (search: Result<
        GatewaySearch,
        PortForwardResult<E>,
    >)
        ensures
            search == match local {
                LocalAddress::NotFound => Err::<GatewaySearch, PortForwardResult<E>>(
                    PortForwardResult::LocalAddrNotFound,
                ),
                LocalAddress::NotIpv4(addr) => Err(PortForwardResult::LocalAddrNotIPv4(addr)),
                LocalAddress::Ipv4(local_ip) => Ok(
                    GatewaySearch {
                        bind_addr: SocketAddr::V4 { ipv4: local_ip, port: 0 },
                        timeout_secs: GATEWAY_TIMEOUT_SECS,
                        local_ip,
                        port,
                    },
                ),
            },
    {
        match local {
            LocalAddress::NotFound => Err(PortForwardResult::LocalAddrNotFound),
            LocalAddress::NotIpv4(addr) => Err(PortForwardResult::LocalAddrNotIPv4(addr)),
            LocalAddress::Ipv4(local_ip) => Ok(
                GatewaySearch {
                    bind_addr: SocketAddr::V4 { ipv4: local_ip, port: 0 },
                    timeout_secs: GATEWAY_TIMEOUT_SECS,
                    local_ip,
                    port,
                },
            ),
        }
    }

    /// The port has been forwarded, or not.
    pub fn forwarded<E>(&mut self, outcome: Result<(), PortForwardResult<E>>) -> (step: Result<
        Hosting,
        StartClientError<E>,
    >)
        requires
            old(self).wf(),
        ensures
            match outcome {
                Err(error) => {
                    &&& step == Err::<Hosting, StartClientError<E>>(
                        StartClientError::PortForwardError(error),
                    )
                    &&& final(self)@ == old(self)@
                },
                Ok(()) => {
                    &&& step matches Ok(hosting)
                    &&& hosting.transfer == old(self)@.transfers.len()
                    &&& final(self).hands_out(hosting)
                    &&& final(self)@ == old(self)@.hosting(None)
                },
            },
            final(self).wf(),
            final(self).shared().same_channels(old(self).shared()),
    {
        match outcome {
            Err(error) => Err(StartClientError::PortForwardError(error)),
            Ok(()) => Ok(self.run(None)),
        }
    }

    /// The address of the rendezvous server has been found, or not. Where it has, the rendezvous
    /// server is asked for a session.
    pub fn rendezvous_found<E>(&mut self, outcome: Result<SocketAddr, E>) -> (step: Result<
        Hosting,
        StartClientError<E>,
    >)
        requires
            old(self).wf(),
        ensures
            match outcome {
                Err(error) => {
                    &&& step == Err::<Hosting, StartClientError<E>>(
                        StartClientError::RendezvousError(error),
                    )
                    &&& final(self)@ == old(self)@
                },
                Ok(addr) => {
                    &&& step matches Ok(hosting)
                    &&& hosting.transfer == old(self)@.transfers.len()
                    &&& final(self).hands_out(hosting)
                    &&& final(self)@ == old(self)@.hosting_with(addr)
                },
            },
            final(self).wf(),
            final(self).shared().same_channels(old(self).shared()),
    {
        match outcome {
            Err(error) => Err(StartClientError::RendezvousError(error)),
            Ok(addr) => {
                let hosting = self.run(Some(addr));
                let ghost before = self@;
                assert(self.transfers@.len() == before.transfers.len());
                self.transfers[hosting.transfer].send_message(
                    Payloads::Handshake { session_id: String::new() },
                    addr,
                );
                assert(self@.transfers =~= before.transfers.update(
                    hosting.transfer as int,
                    self@.transfers[hosting.transfer as int],
                ));
                Ok(hosting)
            },
        }
    }

    /// Begins a transfer.
    fn run(&mut self, rendezvous: Option<SocketAddr>) -> (hosting: Hosting)
        requires
            old(self).wf(),
        ensures
            hosting.transfer == old(self)@.transfers.len(),
            final(self).hands_out(hosting),
            final(self)@ == old(self)@.hosting(rendezvous),
            final(self).wf(),
            final(self).shared().same_channels(old(self).shared()),
    {
        let transfer = TransferStruct::new(
            self.username.clone(),
            self.version.clone(),
            self.max_punch_retries,
            rendezvous,
        );
        let ghost before = self@;
        proof {
            lemma_map_of_push(self.transfers@, transfer, |transfer: TransferStruct| transfer@);
        }
        self.transfers.push(transfer);
        assert forall|i: int| 0 <= i < self@.transfers.len() implies (
        #[trigger] self@.transfers[i]).wf() by {
            if i < before.transfers.len() {
                assert(self@.transfers[i] == before.transfers[i]);
            } else {
                assert(self@.transfers[i] == transfer@);
            }
        }
        // If not hole punching, then tell the application that the server is immediately ready
        if rendezvous.is_none() {
            self.shared.report(ReceiveMessage::Event(Event::ConnectionEstablished));
        }
        let (client_tx, server_rx) = self.shared.app_ends();
        Hosting { transfer: self.transfers.len() - 1, client_tx, server_rx }
    }

    // Hosting.

    /// Handles what reading from the network gave for a transfer. Returns whether there may be more
    /// to read.
    pub fn handle_read(
        &mut self,
        transfer: usize,
        message: Result<(SocketAddr, Payloads), Error>,
    ) -> (more: bool)
        requires
            old(self).wf(),
            transfer < old(self)@.transfers.len(),
        ensures
            final(self)@ == old(self)@.read(transfer as int, read_view(message)),
            more == !(read_view(message) is Timeout),
            final(self).wf(),
            final(self).shared().same_channels(old(self).shared()),
    {
        let ghost before = self@;
        assert(before.transfers[transfer as int].wf());
        let more = self.transfers[transfer].handle_read(&mut self.shared, message);
        assert(self@.transfers =~= before.transfers.update(
            transfer as int,
            self@.transfers[transfer as int],
        ));
        more
    }

    /// Takes a transfer through one round of the loop that hosts it: handles what was read, up to
    /// the first time that nothing was waiting, then looks at the clock, which shows `now`, then
    /// sends clients what the application has put in for them. Returns whether the loop ends.
    pub fn run_round(
        &mut self,
        transfer: usize,
        reads: Vec<Result<(SocketAddr, Payloads), Error>>,
        now: u128,
    ) -> (stop: bool)
        requires
            old(self).wf(),
            transfer < old(self)@.transfers.len(),
        ensures
            exists|payloads: Seq<PayloadView>, drained: bool|
                {
                    &&& final(self)@ == #[trigger] old(self)@.round(
                        transfer as int,
                        read_views(reads@),
                        now,
                        payloads,
                        drained,
                    )
                    &&& drained || payloads.len() == usize::MAX
                },
            stop == final(self)@.shared.should_stop,
            final(self).wf(),
            final(self).shared().same_channels(old(self).shared()),
    {
        let ghost all = read_views(reads@);
        let ghost before = self@;
        let ghost k = transfer as int;
        let ghost mut done: int = 0;
        let mut action = HostingAction::Read;
        proof {
            assert(all.take(0) =~= Seq::empty());
            assert(before.transfers.update(k, before.transfers[k]) =~= before.transfers);
        }
        for message in messages: reads
            invariant
                self.wf(),
                self.shared().same_channels(old(self).shared()),
                before == old(self)@,
                k == transfer,
                all == read_views(messages.seq()),
                transfer < before.transfers.len(),
                self@.transfers.len() == before.transfers.len(),
                0 <= done <= messages.index(),
                action is Read ==> done == messages.index(),
                !(action is Read) ==> done < messages.index() && all[done] is Timeout,
                forall|i: int| 0 <= i < done ==> !(#[trigger] all[i] is Timeout),
                self@ == before.with_transfer(
                    k,
                    read_all(before.transfers[k], before.shared, all.take(done)),
                ),
        {
            if action == HostingAction::Read {
                assert(all[done] == read_view(message));
                action = self.advance(transfer, HostingEvent::Read(message));
                proof {
                    assert(self@.transfers =~= before.transfers.update(k, self@.transfers[k]));
                    if action is Read {
                        assert(all.take(done + 1).drop_last() =~= all.take(done));
                        done = done + 1;
                    }
                }
            }
        }
        let ghost middle = self@;
        let action = self.advance(transfer, HostingEvent::Clock(now));
        proof {
            until_timeout_is_prefix(all, done);
            let (payloads, drained) = choose|payloads: Seq<PayloadView>, drained: bool|
                {
                    let step = #[trigger] Step::finish(k, now, payloads, drained);
                    &&& self@ == middle.after(step)
                    &&& action == next_action(step, self@)
                    &&& drained || payloads.len() == usize::MAX
                };
            let round = before.round(k, all, now, payloads, drained);
            assert(self@.transfers =~= round.transfers);
            assert(self@ == round);
        }
        action == HostingAction::End
    }

    /// Handles what the loop that hosts a transfer has done. Returns what it is to do next.
    pub fn advance(&mut self, transfer: usize, event: HostingEvent) -> (action: HostingAction)
        requires
            old(self).wf(),
            transfer < old(self)@.transfers.len(),
        ensures
            match event {
                HostingEvent::Read(message) => {
                    let step = Step::Read {
                        transfer: transfer as int,
                        read: read_view(message),
                    };
                    &&& final(self)@ == old(self)@.after(step)
                    &&& action == next_action(step, final(self)@)
                },
                HostingEvent::Clock(now) => exists|payloads: Seq<PayloadView>, drained: bool|
                    {
                        let step = #[trigger] Step::finish(transfer as int, now, payloads, drained);
                        &&& final(self)@ == old(self)@.after(step)
                        &&& action == next_action(step, final(self)@)
                        &&& drained || payloads.len() == usize::MAX
                    },
            },
            final(self).wf(),
            final(self).shared().same_channels(old(self).shared()),
    {
        let ghost before = self@;
        match event {
            HostingEvent::Read(message) => {
                if self.handle_read(transfer, message) {
                    HostingAction::Read
                } else {
                    HostingAction::LookAtClock
                }
            },
            HostingEvent::Clock(now) => {
                let stop = self.finish_round(transfer, now);
                proof {
                    let (payloads, drained) = choose|payloads: Seq<PayloadView>, drained: bool|
                        {
                            &&& self@ == #[trigger] before.finished(
                                transfer as int,
                                now,
                                payloads,
                                drained,
                            )
                            &&& drained || payloads.len() == usize::MAX
                        };
                    assert(self@ == before.after(
                        Step::finish(transfer as int, now, payloads, drained),
                    ));
                }
                if stop {
                    HostingAction::End
                } else {
                    HostingAction::Read
                }
            },
        }
    }

    /// Ends a round of a transfer, once nothing more is there to be read: looks at the clock for
    /// the peers that are to be reached, and sends clients what the application has put in for
    /// them. Returns whether hosting is to end.
    pub fn finish_round(&mut self, transfer: usize, now: u128) -> (stop: bool)
        requires
            old(self).wf(),
            transfer < old(self)@.transfers.len(),
        ensures
            exists|payloads: Seq<PayloadView>, drained: bool|
                {
                    &&& final(self)@ == #[trigger] old(self)@.finished(
                        transfer as int,
                        now,
                        payloads,
                        drained,
                    )
                    &&& drained || payloads.len() == usize::MAX
                },
            stop == old(self)@.shared.should_stop,
            final(self).wf(),
            final(self).shared().same_channels(old(self).shared()),
    {
        let ghost before = self@;
        assert(before.transfers[transfer as int].wf());
        self.transfers[transfer].handle_handshake(now);
        let drained = self.transfers[transfer].handle_app_message(&mut self.shared);
        proof {
            let s = before.transfers[transfer as int];
            let payloads = choose|payloads: Seq<PayloadView>|
                {
                    &&& self@.transfers[transfer as int] == #[trigger] app_sent_all(
                        punched(s, now),
                        payloads,
                    )
                    &&& self@.shared == polled(before.shared, payloads, drained)
                    &&& drained || payloads.len() == usize::MAX
                };
            assert(self@.transfers =~= before.transfers.update(
                transfer as int,
                app_sent_all(punched(s, now), payloads),
            ));
            assert(self@ == before.finished(transfer as int, now, payloads, drained));
        }
        self.should_stop()
    }

    /// Hands over what is to be sent for a transfer, oldest first.
    pub fn take_outbox(&mut self, transfer: usize) -> (messages: Vec<Outgoing>)
        requires
            old(self).wf(),
            transfer < old(self)@.transfers.len(),
        ensures
            messages@.map_values(|message: Outgoing| message@)
                == old(self)@.transfers[transfer as int].outbox,
            final(self)@ == old(self)@.emptied(transfer as int),
            final(self).wf(),
            final(self).shared().same_channels(old(self).shared()),
    {
        let ghost before = self@;
        let messages = self.transfers[transfer].take_outbox();
        assert(self@.transfers =~= before.transfers.update(
            transfer as int,
            self@.transfers[transfer as int],
        ));
        messages
    }

    /// Whether hosting is to end.
    pub fn should_stop(&self) -> (stop: bool)
        ensures
            stop == self@.shared.should_stop,
    {
        self.shared.should_stop()
    }

    // What the application asks for.

    /// How many clients are connected.
    pub fn get_connected_count(&self) -> (count: u16)
        ensures
            count == self@.shared.number_connections,
    {
        self.shared.number_connections()
    }

    /// Whether this is the hosting side: it is.
    pub fn is_server(&self) -> (answer: bool)
        ensures
            answer,
    {
        true
    }

    /// Where payloads for the clients go in.
    pub fn get_transmitter(&self) -> (tx: &Sender<Payloads>)
        ensures
            *tx == self.shared().client_tx(),
            self.wf() ==> payload_ends(*tx, self.shared().client_rx()),
    {
        self.shared.transmitter()
    }

    /// Where reports for the application go in.
    pub fn get_server_transmitter(&self) -> (tx: &Sender<ReceiveMessage>)
        ensures
            *tx == self.shared().server_tx(),
            self.wf() ==> report_ends(*tx, self.shared().server_rx()),
    {
        self.shared.server_transmitter()
    }

    /// Where reports for the application come out.
    ///
    /// That a channel gives back in order what went in is its own doing, and depends on who else
    /// receives; the contract says which channel this is an end of.
    pub fn get_receiver(&self) -> (rx: &Receiver<ReceiveMessage>)
        ensures
            *rx == self.shared().server_rx(),
            self.wf() ==> report_ends(self.shared().server_tx(), *rx),
    {
        self.shared.receiver()
    }

    /// The server's own name.
    pub fn get_server_name(&self) -> (name: &str)
        ensures
            name@ == self@.username,
    {
        self.username.as_str()
    }

    /// Gives the controls to `target`: newcomers, the clients and the application are told.
    pub fn transfer_control(&mut self, target: String)
        requires
            old(self).wf(),
        ensures
            final(self)@ == old(self)@.control_transferred(target@),
            final(self).wf(),
            final(self).shared().same_channels(old(self).shared()),
    {
        let ghost before = self@;
        // Read for initial contact with other clients
        if self.transfers.len() > 0 {
            let last = self.transfers.len() - 1;
            assert(before.transfers[last as int].wf());
            self.transfers[last].set_in_control(target.clone());
        }
        assert(self@.transfers =~= before.control_transferred(target@).transfers);
        let message = Payloads::TransferControl { from: self.username.clone(), to: target };
        self.shared.relay(message.clone());
        self.shared.report(ReceiveMessage::Payload(message));
    }

    /// Makes `target` an observer or no longer so: newcomers and the clients are told.
    pub fn set_observer(&mut self, target: String, is_observer: bool)
        requires
            old(self).wf(),
        ensures
            final(self)@ == old(self)@.observer_set(target@, is_observer),
            final(self).wf(),
            final(self).shared().same_channels(old(self).shared()),
    {
        let ghost before = self@;
        // Read for initial contact with other clients
        if self.transfers.len() > 0 {
            let last = self.transfers.len() - 1;
            assert(before.transfers[last as int].wf());
            self.transfers[last].set_observer(&target, is_observer);
        }
        assert(self@.transfers =~= before.observer_set(target@, is_observer).transfers);
        let message = Payloads::SetObserver {
            from: self.username.clone(),
            to: target,
            is_observer,
        };
        self.shared.relay(message);
    }

    /// The name under which a rendezvous server knows the session: none before hosting is started,
    /// and an empty one until the rendezvous server has given one.
    pub fn get_session_id(&self) -> (session_id: Option<String>)
        ensures
            match session_id {
                Some(session_id) => self@.session_id() == Some(session_id@),
                None => self@.session_id() is None,
            },
    {
        if self.transfers.len() > 0 {
            Some(self.transfers[self.transfers.len() - 1].session_id().clone())
        } else {
            None
        }
    }

    /// Asks for hosting to end, and tells the application why.
    pub fn stop(&mut self, reason: String)
        requires
            old(self).wf(),
        ensures
            final(self)@ == old(self)@.stopped(reason@),
            final(self).wf(),
            final(self).shared().same_channels(old(self).shared()),
    {
        let ghost before = self@;
        self.shared.stop();
        self.shared.report(ReceiveMessage::Event(Event::ConnectionLost(reason)));
        assert(self@.transfers == before.transfers);
    }
}

} // verus!
