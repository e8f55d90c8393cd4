//! One hosted session.
use crate::addr::SocketAddr;
use crate::laws::{
    app_sent_keeps_wf, closed_by_keeps_wf, punched_keeps_wf, received_keeps_wf,
    with_observer_keeps_wf,
};
use crate::model::{
    app_sent, app_sent_all, asked, broadcast, clients_at, clients_not_at, closed_by, due, named,
    opened, poll, polled, punch_handshakes, punched, punches_after_tick, read_one, read_view,
    received, registered, removed, shaken, with_observer, ClientView, TransferView,
};
use crate::payload::{
    Error, Event, Outgoing, OutgoingView, PayloadView, Payloads, ReceiveMessage,
};
use crate::punch::{drop_reached, tick_all, HolePunchSession};
use crate::seqs::{lemma_filter_of_push, lemma_map_of_push, lemma_next_prefix};
use crate::shared::Shared;
use vstd::prelude::*;

verus! {

/// A client that has joined.
struct Client {
    name: String,
    addr: SocketAddr,
    is_observer: bool,
}

impl View for Client {
    type V = ClientView;

    closed spec fn view(&self) -> ClientView {
        ClientView { name: self.name@, addr: self.addr, is_observer: self.is_observer }
    }
}

/// The values of a list of clients.
spec fn client_views(clients: Seq<Client>) -> Seq<ClientView> {
    clients.map_values(|client: Client| client@)
}

/// The values of a list of messages to peers.
spec fn outgoing_views(outbox: Seq<Outgoing>) -> Seq<OutgoingView> {
    outbox.map_values(|message: Outgoing| message@)
}

/// A hosted session: who has joined, who is still to be reached, and what is to be sent.
pub struct TransferStruct {
    session_id: String,
    // In the order of joining; the names differ.
    clients: Vec<Client>,
    // What is to be sent, oldest first.
    outbox: Vec<Outgoing>,
    // Holepunching
    rendezvous_server: Option<SocketAddr>,
    clients_to_holepunch: Vec<HolePunchSession>,
    max_punch_retries: u8,
    // State
    in_control: String,
    username: String,
    version: String,
}

impl View for TransferStruct {
    type V = TransferView;

    closed spec fn view(&self) -> TransferView {
        TransferView {
            session_id: self.session_id@,
            clients: client_views(self.clients@),
            outbox: outgoing_views(self.outbox@),
            rendezvous_server: self.rendezvous_server,
            clients_to_holepunch: self.clients_to_holepunch@,
            max_punch_retries: self.max_punch_retries,
            in_control: self.in_control@,
            username: self.username@,
            version: self.version@,
        }
    }
}

/// The address that an optional reference points to.
pub open spec fn by_value(addr: Option<&SocketAddr>) -> Option<SocketAddr> {
    match addr {
        Some(addr) => Some(*addr),
        None => None,
    }
}

/// Appends one copy of `payload` for each client but those at `except`.
fn push_broadcast(
    outbox: &mut Vec<Outgoing>,
    clients: &Vec<Client>,
    except: Option<&SocketAddr>,
    payload: &Payloads,
)
    ensures
        outgoing_views(final(outbox)@) == outgoing_views(old(outbox)@) + broadcast(
            client_views(clients@),
            by_value(except),
            payload@,
        ),
{
    let ghost all = client_views(clients@);
    let ghost before = outgoing_views(outbox@);
    let ghost keep = |client: ClientView| by_value(except) != Some(client.addr);
    let ghost wrap = |client: ClientView|
        OutgoingView { payload: payload@, target: client.addr };
    let mut i: usize = 0;
    proof {
        reveal(Seq::filter);
        assert(all.take(0) =~= Seq::empty());
        assert(all.take(0).filter(keep).map_values(wrap) =~= Seq::empty());
        assert(before + Seq::<OutgoingView>::empty() =~= before);
    }
    while i < clients.len()
        invariant
            i <= clients.len(),
            all == client_views(clients@),
            keep == (|client: ClientView| by_value(except) != Some(client.addr)),
            wrap == (|client: ClientView|
                OutgoingView { payload: payload@, target: client.addr }),
            outgoing_views(outbox@) == before + all.take(i as int).filter(keep).map_values(wrap),
        decreases clients.len() - i,
    {
        let addr = clients[i].addr;
        let ghost client = all[i as int];
        let ghost sent = all.take(i as int).filter(keep);
        proof {
            lemma_next_prefix(all, i as int);
            lemma_filter_of_push(all.take(i as int), client, keep);
            lemma_map_of_push(sent, client, wrap);
        }
        i = i + 1;
        if let Some(except) = except {
            if addr == *except {
                continue ;
            }
        }
        let message = Outgoing { payload: payload.clone(), target: addr };
        proof {
            lemma_map_of_push(outbox@, message, |message: Outgoing| message@);
            assert(before + sent.map_values(wrap).push(wrap(client)) =~= (before
                + sent.map_values(wrap)).push(wrap(client)));
        }
        outbox.push(message);
    }
    proof {
        assert(all.take(all.len() as int) =~= all);
    }
}

/// Appends what a newcomer at `target` is told of the clients.
fn push_clients(
    outbox: &mut Vec<Outgoing>,
    clients: &Vec<Client>,
    in_control: &String,
    target: SocketAddr,
)
    ensures
        outgoing_views(final(outbox)@) == outgoing_views(old(outbox)@) + client_views(
            clients@,
        ).map_values(
            |client: ClientView|
                OutgoingView {
                    payload: PayloadView::PlayerJoined {
                        name: client.name,
                        in_control: in_control@ == client.name,
                        is_server: false,
                        is_observer: client.is_observer,
                    },
                    target,
                },
        ),
{
    let ghost all = client_views(clients@);
    let ghost before = outgoing_views(outbox@);
    let ghost wrap = |client: ClientView|
        OutgoingView {
            payload: PayloadView::PlayerJoined {
                name: client.name,
                in_control: in_control@ == client.name,
                is_server: false,
                is_observer: client.is_observer,
            },
            target,
        };
    let mut i: usize = 0;
    proof {
        assert(before + all.take(0).map_values(wrap) =~= before);
    }
    while i < clients.len()
        invariant
            i <= clients.len(),
            all == client_views(clients@),
            wrap == (|client: ClientView|
                OutgoingView {
                    payload: PayloadView::PlayerJoined {
                        name: client.name,
                        in_control: in_control@ == client.name,
                        is_server: false,
                        is_observer: client.is_observer,
                    },
                    target,
                }),
            outgoing_views(outbox@) == before + all.take(i as int).map_values(wrap),
        decreases clients.len() - i,
    {
        let client = &clients[i];
        let message = Outgoing {
            payload: Payloads::PlayerJoined {
                name: client.name.clone(),
                in_control: *in_control == client.name,
                is_server: false,
                is_observer: client.is_observer,
            },
            target,
        };
        proof {
            let told = all.take(i as int).map_values(wrap);
            lemma_next_prefix(all, i as int);
            lemma_map_of_push(all.take(i as int), all[i as int], wrap);
            lemma_map_of_push(outbox@, message, |message: Outgoing| message@);
            assert(before + told.push(wrap(all[i as int])) =~= (before + told).push(
                wrap(all[i as int]),
            ));
        }
        outbox.push(message);
        i = i + 1;
    }
    proof {
        assert(all.take(all.len() as int) =~= all);
    }
}

/// Where the client of this name stands in the list.
fn position(clients: &Vec<Client>, name: &String) -> (found: Option<usize>)
    ensures
        match found {
            Some(i) => i < clients.len() && clients[i as int]@.name == name@,
            None => !named(client_views(clients@), name@),
        },
{
    let mut i: usize = 0;
    while i < clients.len()
        invariant
            i <= clients.len(),
            forall|j: int| 0 <= j < i ==> #[trigger] clients[j]@.name != name@,
        decreases clients.len() - i,
    {
        if clients[i].name == *name {
            return Some(i);
        }
        i = i + 1;
    }
    None
}

/// Parts the clients by address: returns those at any other address, and the name of the last at
/// this one, if there is any.
fn part_clients(clients: &Vec<Client>, addr: SocketAddr) -> (parts: (Vec<Client>, Option<String>))
    ensures
        client_views(parts.0@) == clients_not_at(client_views(clients@), addr),
        match parts.1 {
            Some(name) => clients_at(client_views(clients@), addr).len() > 0 && name@ == clients_at(
                client_views(clients@),
                addr,
            ).last().name,
            None => clients_at(client_views(clients@), addr).len() == 0,
        },
{
    let ghost all = client_views(clients@);
    let ghost stays = |client: ClientView| client.addr != addr;
    let ghost goes = |client: ClientView| client.addr == addr;
    let mut kept: Vec<Client> = Vec::new();
    let mut removed_client_name: Option<String> = None;
    let mut i: usize = 0;
    proof {
        reveal(Seq::filter);
        assert(all.take(0) =~= Seq::empty());
        assert(client_views(kept@) =~= Seq::empty());
    }
    while i < clients.len()
        invariant
            i <= clients.len(),
            all == client_views(clients@),
            stays == (|client: ClientView| client.addr != addr),
            goes == (|client: ClientView| client.addr == addr),
            client_views(kept@) == all.take(i as int).filter(stays),
            match removed_client_name {
                Some(name) => all.take(i as int).filter(goes).len() > 0 && name@ == all.take(
                    i as int,
                ).filter(goes).last().name,
                None => all.take(i as int).filter(goes).len() == 0,
            },
        decreases clients.len() - i,
    {
        let client = &clients[i];
        proof {
            lemma_next_prefix(all, i as int);
            lemma_filter_of_push(all.take(i as int), all[i as int], stays);
            lemma_filter_of_push(all.take(i as int), all[i as int], goes);
        }
        if client.addr == addr {
            removed_client_name = Some(client.name.clone());
        } else {
            let copy = Client {
                name: client.name.clone(),
                addr: client.addr,
                is_observer: client.is_observer,
            };
            proof {
                lemma_map_of_push(kept@, copy, |client: Client| client@);
            }
            kept.push(copy);
        }
        i = i + 1;
    }
    proof {
        assert(all.take(all.len() as int) =~= all);
    }
    (kept, removed_client_name)
}

impl TransferStruct {
    /// A new session: nobody has joined, and the server has the controls.
    pub fn new(
        username: String,
        version: String,
        max_punch_retries: u8,
        rendezvous_server: Option<SocketAddr>,
    ) -> (transfer: Self)
        requires
            0 < max_punch_retries,
        ensures
            transfer@ == opened(username@, version@, max_punch_retries, rendezvous_server),
            transfer@.wf(),
    {
        let transfer = TransferStruct {
            session_id: String::new(),
            clients: Vec::new(),
            outbox: Vec::new(),
            rendezvous_server,
            clients_to_holepunch: Vec::new(),
            max_punch_retries,
            in_control: username.clone(),
            username,
            version,
        };
        assert(client_views(transfer.clients@) =~= Seq::empty());
        assert(outgoing_views(transfer.outbox@) =~= Seq::empty());
        transfer
    }

    /// Leaves a payload to be sent to `target`.
    pub fn send_message(&mut self, payload: Payloads, target: SocketAddr)
        ensures
            final(self)@ == old(self)@.send(payload@, target),
    {
        let message = Outgoing { payload, target };
        proof {
            lemma_map_of_push(self.outbox@, message, |message: Outgoing| message@);
        }
        self.outbox.push(message);
    }

    /// Leaves a payload to be sent to every client but those at `except`.
    pub fn send_to_all(&mut self, except: Option<&SocketAddr>, payload: Payloads)
        ensures
            final(self)@ == old(self)@.send_to_all(by_value(except), payload@),
    {
        push_broadcast(&mut self.outbox, &self.clients, except, &payload);
    }

    /// Hands over what is to be sent, oldest first.
    pub fn take_outbox(&mut self) -> (messages: Vec<Outgoing>)
        ensures
            messages@.map_values(|message: Outgoing| message@) == old(self)@.outbox,
            final(self)@ == (TransferView { outbox: Seq::empty(), ..old(self)@ }),
    {
        let mut messages: Vec<Outgoing> = Vec::new();
        std::mem::swap(&mut messages, &mut self.outbox);
        assert(outgoing_views(self.outbox@) =~= Seq::empty());
        messages
    }

    /// Sends handshakes to the peers that are to be reached: one a second to each, until
    /// `max_punch_retries` have been sent.
    pub fn handle_handshake(&mut self, now: u128)
        requires
            old(self)@.wf(),
        ensures
            final(self)@ == punched(old(self)@, now),
            final(self)@.wf(),
    {
        let ghost before = self@;
        let targets = tick_all(&mut self.clients_to_holepunch, now, self.max_punch_retries);
        let ghost addr = |session: HolePunchSession| session.addr;
        let ghost due_sessions = before.clients_to_holepunch.filter(
            |session: HolePunchSession| due(session, now),
        );
        let ghost wrap = |target: SocketAddr|
            OutgoingView {
                payload: PayloadView::Handshake { session_id: before.session_id },
                target,
            };
        let mut i: usize = 0;
        proof {
            assert(before.outbox + targets@.take(0).map_values(wrap) =~= before.outbox);
        }
        while i < targets.len()
            invariant
                i <= targets.len(),
                wrap == (|target: SocketAddr|
                    OutgoingView {
                        payload: PayloadView::Handshake { session_id: before.session_id },
                        target,
                    }),
                self@ == (TransferView {
                    clients_to_holepunch: punches_after_tick(
                        before.clients_to_holepunch,
                        now,
                        before.max_punch_retries,
                    ),
                    outbox: before.outbox + targets@.take(i as int).map_values(wrap),
                    ..before
                }),
            decreases targets.len() - i,
        {
            let target = targets[i];
            proof {
                let sent = targets@.take(i as int).map_values(wrap);
                lemma_next_prefix(targets@, i as int);
                lemma_map_of_push(targets@.take(i as int), target, wrap);
                assert(before.outbox + sent.push(wrap(target)) =~= (before.outbox + sent).push(
                    wrap(target),
                ));
            }
            let session_id = self.session_id.clone();
            self.send_message(Payloads::Handshake { session_id }, target);
            i = i + 1;
        }
        proof {
            assert(targets@.take(targets.len() as int) =~= targets@);
            assert(due_sessions.map_values(addr).map_values(wrap) =~= punch_handshakes(
                before.clients_to_holepunch,
                now,
                before.session_id,
            ));
            punched_keeps_wf(before, now);
        }
    }

    /// Somebody asks to be let in.
    fn handle_init_handshake(
        &mut self,
        shared: &mut Shared,
        addr: SocketAddr,
        name: &String,
        version: &String,
    )
        requires
            old(self)@.wf(),
        ensures
            (final(self)@, final(shared)@) == asked(
                old(self)@,
                old(shared)@,
                addr,
                name@,
                version@,
            ),
            final(shared).wf() == old(shared).wf(),
            final(shared).same_channels(*old(shared)),
    {
        // Version check
        if *version != self.version {
            let server_version = self.version.clone();
            self.send_message(Payloads::InvalidVersion { server_version }, addr);
            return ;
        }
        let mut invalid_name = *name == self.username;
        // Lookup name if it exists already
        if let Some(i) = position(&self.clients, name) {
            assert(self@.clients[i as int].name == name@);
            // Same client might've sent the packet twice
            if self.clients[i].addr == addr {
                assert(registered(self@.clients, name@, addr));
                return ;
            }
            invalid_name = true;
        }
        if invalid_name {
            self.send_message(Payloads::InvalidName {  }, addr);
            return ;
        }
        let ghost before = self@;
        // Send all connected clients to the newcomer, and the server itself
        push_clients(&mut self.outbox, &self.clients, &self.in_control, addr);
        let own = Payloads::PlayerJoined {
            name: self.username.clone(),
            in_control: self.in_control == self.username,
            is_server: true,
            is_observer: false,
        };
        self.send_message(own, addr);
        let joined = Payloads::PlayerJoined {
            name: name.clone(),
            in_control: false,
            is_server: false,
            is_observer: true,
        };
        self.send_to_all(Some(&addr), joined.clone());
        // Add client
        let client = Client { name: name.clone(), addr, is_observer: false };
        proof {
            lemma_map_of_push(self.clients@, client, |client: Client| client@);
        }
        self.clients.push(client);
        shared.count_joined();
        shared.report(ReceiveMessage::Payload(joined));
    }

    /// A peer sends a handshake.
    fn handle_peer_handshake(&mut self, addr: SocketAddr, session_id: &String)
        ensures
            final(self)@ == shaken(old(self)@, addr, session_id@),
    {
        if *session_id == self.session_id {
            self.send_message(Payloads::Handshake { session_id: session_id.clone() }, addr);
            if let Some(rendezvous) = self.rendezvous_server {
                self.send_message(Payloads::PeerEstablished { peer: addr }, rendezvous);
                drop_reached(&mut self.clients_to_holepunch, addr);
            }
        }
    }

    /// A payload comes in from the peer at `addr`.
    pub fn handle_message(&mut self, shared: &mut Shared, addr: SocketAddr, payload: Payloads)
        requires
            old(self)@.wf(),
        ensures
            (final(self)@, final(shared)@) == received(old(self)@, old(shared)@, addr, payload@),
            final(self)@.wf(),
            final(shared).wf() == old(shared).wf(),
            final(shared).same_channels(*old(shared)),
    {
        proof {
            received_keeps_wf(self@, shared@, addr, payload@);
        }
        let mut should_relay = true;
        match &payload {
            // No client should be able to send these
            Payloads::InvalidName { .. }
            | Payloads::InvalidVersion { .. }
            | Payloads::PlayerJoined { .. }
            | Payloads::PlayerLeft { .. }
            | Payloads::SetObserver { .. }
            | Payloads::PeerEstablished { .. } => {
                return ;
            },
            // No processing needed
            Payloads::Update { .. } => {},
            Payloads::InitHandshake { name, version } => {
                self.handle_init_handshake(shared, addr, name, version);
                // Nothing is relayed or reported as it came
                return ;
            },
            Payloads::TransferControl { from: _, to } => {
                self.in_control = to.clone();
            },
            Payloads::Handshake { session_id } => {
                self.handle_peer_handshake(addr, session_id);
                should_relay = false;
            },
            Payloads::HostingReceived { session_id } => {
                self.session_id = session_id.clone();
                should_relay = false;
                shared.report(ReceiveMessage::Event(Event::ConnectionEstablished));
            },
            Payloads::AttemptConnection { peer } => {
                self.clients_to_holepunch.push(HolePunchSession::new(*peer));
                should_relay = false;
            },
        }
        if should_relay {
            self.send_to_all(Some(&addr), payload.clone());
        }
        shared.report(ReceiveMessage::Payload(payload));
    }

    /// Sends clients a payload from the application.
    pub fn relay_app_message(&mut self, payload: Payloads)
        requires
            old(self)@.wf(),
        ensures
            final(self)@ == app_sent(old(self)@, payload@),
            final(self)@.wf(),
    {
        proof {
            app_sent_keeps_wf(self@, payload@);
        }
        match &payload {
            Payloads::TransferControl { from: _, to } => {
                self.in_control = to.clone();
            },
            _ => {},
        }
        self.send_to_all(None, payload);
    }

    /// Sends clients what the application has put in for them, until nothing more is waiting.
    ///
    /// Which payloads are waiting is up to the application; each one that is taken is sent on, in
    /// the order in which they are taken. No more than `usize::MAX` are taken at a time; the result
    /// tells whether that was enough.
    pub fn handle_app_message(&mut self, shared: &mut Shared) -> (drained: bool)
        requires
            old(self)@.wf(),
        ensures
            exists|payloads: Seq<PayloadView>|
                {
                    &&& final(self)@ == #[trigger] app_sent_all(old(self)@, payloads)
                    &&& final(shared)@ == polled(old(shared)@, payloads, drained)
                    &&& drained || payloads.len() == usize::MAX
                },
            final(self)@.wf(),
            final(shared).wf() == old(shared).wf(),
            final(shared).same_channels(*old(shared)),
    {
        let ghost before = self@;
        let ghost shared_before = shared@;
        let ghost ends = shared.wf();
        let ghost mut done: Seq<PayloadView> = Seq::empty();
        let mut left: usize = usize::MAX;
        proof {
            assert(shared_before.answers + poll(done, false) =~= shared_before.answers);
        }
        while left > 0
            invariant
                self@.wf(),
                self@ == app_sent_all(before, done),
                shared@ == polled(shared_before, done, false),
                shared.wf() == ends,
                done.len() + left == usize::MAX,
                before == old(self)@,
                shared_before == old(shared)@,
                ends == old(shared).wf(),
                shared.same_channels(*old(shared)),
            decreases left,
        {
            let ghost wrap = |payload: PayloadView| Some(payload);
            match shared.next_relayed() {
                Some(payload) => {
                    proof {
                        let more = done.push(payload@);
                        lemma_map_of_push(done, payload@, wrap);
                        assert(shared_before.answers + poll(more, false) =~= (shared_before.answers
                            + poll(done, false)).push(Some(payload@)));
                        assert(more.drop_last() =~= done);
                        done = more;
                    }
                    self.relay_app_message(payload);
                },
                None => {
                    assert(shared_before.answers + poll(done, true) =~= (shared_before.answers
                        + poll(done, false)).push(None));
                    assert(shared@ == polled(shared_before, done, true));
                    return true;
                },
            }
            left = left - 1;
        }
        false
    }

    /// Whoever was at `addr` has left.
    pub fn remove_client(&mut self, shared: &mut Shared, addr: SocketAddr)
        requires
            old(self)@.wf(),
        ensures
            (final(self)@, final(shared)@) == removed(old(self)@, old(shared)@, addr),
            final(self)@.wf(),
            final(shared).wf() == old(shared).wf(),
            final(shared).same_channels(*old(shared)),
    {
        proof {
            closed_by_keeps_wf(self@, shared@, addr);
        }
        let (kept, removed_client_name) = part_clients(&self.clients, addr);
        if let Some(name) = removed_client_name {
            self.clients = kept;
            self.send_to_all(None, Payloads::PlayerLeft { name: name.clone() });
            shared.count_left();
            shared.report(ReceiveMessage::Payload(Payloads::PlayerLeft { name }));
        }
    }

    /// The connection to `addr` is gone: without a rendezvous server there is no session, and
    /// without a client it goes on.
    pub fn handle_closed(&mut self, shared: &mut Shared, addr: SocketAddr)
        requires
            old(self)@.wf(),
        ensures
            (final(self)@, final(shared)@) == closed_by(old(self)@, old(shared)@, addr),
            final(self)@.wf(),
            final(shared).wf() == old(shared).wf(),
            final(shared).same_channels(*old(shared)),
    {
        let is_rendezvous = match self.rendezvous_server {
            Some(rendezvous) => rendezvous == addr,
            None => false,
        };
        assert(self@.session_id.len() == 0 <==> self@.session_id =~= Seq::empty());
        // Could not reach rendezvous
        if self.session_id == String::new() && is_rendezvous {
            shared.report(ReceiveMessage::Event(Event::SessionIdFetchFailed));
            shared.stop();
        } else {
            // Client disconnected
            self.remove_client(shared, addr);
        }
    }

    /// Handles what reading from the network gave. Returns whether there may be more to read.
    pub fn handle_read(
        &mut self,
        shared: &mut Shared,
        message: Result<(SocketAddr, Payloads), Error>,
    ) -> (more: bool)
        requires
            old(self)@.wf(),
        ensures
            (final(self)@, final(shared)@) == read_one(
                old(self)@,
                old(shared)@,
                read_view(message),
            ),
            more == !(read_view(message) is Timeout),
            final(self)@.wf(),
            final(shared).wf() == old(shared).wf(),
            final(shared).same_channels(*old(shared)),
    {
        match message {
            Ok((addr, payload)) => {
                self.handle_message(shared, addr, payload);
                true
            },
            Err(Error::ConnectionClosed(addr)) => {
                self.handle_closed(shared, addr);
                true
            },
            Err(Error::ReadTimeout) => false,
            Err(_) => true,
        }
    }

    /// Gives the controls to `target`, as far as newcomers are told.
    pub fn set_in_control(&mut self, target: String)
        requires
            old(self)@.wf(),
        ensures
            final(self)@ == (TransferView { in_control: target@, ..old(self)@ }),
            final(self)@.wf(),
    {
        self.in_control = target;
    }

    /// Makes a client an observer or no longer so, as far as newcomers are told.
    pub fn set_observer(&mut self, target: &String, is_observer: bool)
        requires
            old(self)@.wf(),
        ensures
            final(self)@ == (TransferView {
                clients: with_observer(old(self)@.clients, target@, is_observer),
                ..old(self)@
            }),
            final(self)@.wf(),
    {
        let ghost before = self@;
        proof {
            with_observer_keeps_wf(before, target@, is_observer);
        }
        if let Some(i) = position(&self.clients, target) {
            assert(before.clients[i as int].name == target@);
            self.clients[i].is_observer = is_observer;
        }
        assert(self@.clients =~= with_observer(before.clients, target@, is_observer));
    }

    /// The name under which a rendezvous server knows the session; empty until it has given one.
    pub fn session_id(&self) -> (session_id: &String)
        ensures
            session_id@ == self@.session_id,
    {
        &self.session_id
    }
}

} // verus!
