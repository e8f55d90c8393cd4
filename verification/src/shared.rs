//! What all transfers of a server have in common.
use crate::channel::{
    another_payload_sender, another_report_receiver, give_payload, give_report, payload_answers,
    payload_channel, payload_copy, payload_ends, payloads_given, report_channel, report_ends,
    reports_given, take_payload,
};
use crate::model::{connection_counts, SharedView};
use crate::payload::{PayloadView, Payloads, ReceiveMessage};
use crossbeam_channel::{Receiver, Sender};
use vstd::prelude::*;

verus! {

/// The count of connected clients, the wish to stop, and the channels to and from the application.
pub struct Shared {
    number_connections: u16,
    should_stop: bool,
    // Payloads for the clients.
    client_tx: Sender<Payloads>,
    client_rx: Receiver<Payloads>,
    // Reports for the application.
    server_tx: Sender<ReceiveMessage>,
    server_rx: Receiver<ReceiveMessage>,
}

impl View for Shared {
    type V = SharedView;

    closed spec fn view(&self) -> SharedView {
        SharedView {
            number_connections: self.number_connections as int,
            should_stop: self.should_stop,
            reports: reports_given(self.server_tx),
            relayed: payloads_given(self.client_tx),
            answers: payload_answers(self.client_rx),
        }
    }
}

impl Shared {
    /// The sending end for payloads.
    pub closed spec fn client_tx(&self) -> Sender<Payloads> {
        self.client_tx
    }

    /// The receiving end for payloads.
    pub closed spec fn client_rx(&self) -> Receiver<Payloads> {
        self.client_rx
    }

    /// The sending end for reports.
    pub closed spec fn server_tx(&self) -> Sender<ReceiveMessage> {
        self.server_tx
    }

    /// The receiving end for reports.
    pub closed spec fn server_rx(&self) -> Receiver<ReceiveMessage> {
        self.server_rx
    }

    /// The ends belong together, and payloads are put in at the first end, not at a copy.
    pub open spec fn wf(&self) -> bool {
        &&& !payload_copy(self.client_tx())
        &&& payload_ends(self.client_tx(), self.client_rx())
        &&& report_ends(self.server_tx(), self.server_rx())
    }

    /// The channels are those of `other`: whatever end led to or from those leads to or from these.
    pub open spec fn same_channels(&self, other: Shared) -> bool {
        &&& forall|tx: Sender<Payloads>|
            #![trigger payload_ends(tx, self.client_rx())]
            #![trigger payload_ends(tx, other.client_rx())]
            payload_ends(tx, self.client_rx()) == payload_ends(tx, other.client_rx())
        &&& forall|rx: Receiver<Payloads>|
            #![trigger payload_ends(self.client_tx(), rx)]
            #![trigger payload_ends(other.client_tx(), rx)]
            payload_ends(self.client_tx(), rx) == payload_ends(other.client_tx(), rx)
        &&& forall|rx: Receiver<ReceiveMessage>|
            #![trigger report_ends(self.server_tx(), rx)]
            #![trigger report_ends(other.server_tx(), rx)]
            report_ends(self.server_tx(), rx) == report_ends(other.server_tx(), rx)
        &&& self.server_rx() == other.server_rx()
    }

    /// Two new channels, nobody connected, and no wish to stop.
    pub fn new() -> (shared: Self)
        ensures
            shared.wf(),
            shared@ == (SharedView {
                number_connections: 0,
                should_stop: false,
                reports: Seq::empty(),
                relayed: Seq::empty(),
                answers: Seq::empty(),
            }),
    {
        let (client_tx, client_rx) = payload_channel();
        let (server_tx, server_rx) = report_channel();
        Shared {
            number_connections: 0,
            should_stop: false,
            client_tx,
            client_rx,
            server_tx,
            server_rx,
        }
    }

    /// How many clients are connected.
    pub fn number_connections(&self) -> (count: u16)
        ensures
            count == self@.number_connections,
    {
        self.number_connections
    }

    /// Whether hosting is to end.
    pub fn should_stop(&self) -> (stop: bool)
        ensures
            stop == self@.should_stop,
    {
        self.should_stop
    }

    /// The end at which payloads for the clients go in.
    pub fn transmitter(&self) -> (tx: &Sender<Payloads>)
        ensures
            *tx == self.client_tx(),
    {
        &self.client_tx
    }

    /// The end at which reports for the application go in.
    pub fn server_transmitter(&self) -> (tx: &Sender<ReceiveMessage>)
        ensures
            *tx == self.server_tx(),
    {
        &self.server_tx
    }

    /// The end at which reports come out.
    pub fn receiver(&self) -> (rx: &Receiver<ReceiveMessage>)
        ensures
            *rx == self.server_rx(),
    {
        &self.server_rx
    }

    /// Ends for the application: one to put payloads in at, and one to take reports out at.
    pub fn app_ends(&self) -> (ends: (Sender<Payloads>, Receiver<ReceiveMessage>))
        ensures
            forall|rx: Receiver<Payloads>| #[trigger]
                payload_ends(ends.0, rx) == payload_ends(self.client_tx(), rx),
            forall|tx: Sender<ReceiveMessage>| #[trigger]
                report_ends(tx, ends.1) == report_ends(tx, self.server_rx()),
            payload_copy(ends.0),
            payloads_given(ends.0) == Seq::<PayloadView>::empty(),
    {
        (another_payload_sender(&self.client_tx), another_report_receiver(&self.server_rx))
    }

    /// Tells the application something.
    pub fn report(&mut self, report: ReceiveMessage)
        ensures
            final(self)@ == old(self)@.report(report@),
            final(self).wf() == old(self).wf(),
            final(self).same_channels(*old(self)),
    {
        give_report(&mut self.server_tx, report);
    }

    /// Puts a payload for the clients in, as the application would.
    pub fn relay(&mut self, payload: Payloads)
        requires
            old(self).wf(),
        ensures
            final(self)@ == (SharedView {
                relayed: old(self)@.relayed.push(payload@),
                ..old(self)@
            }),
            final(self).wf() == old(self).wf(),
            final(self).same_channels(*old(self)),
    {
        give_payload(&mut self.client_tx, payload);
    }

    /// Takes a payload for the clients out, if one is waiting.
    pub fn next_relayed(&mut self) -> (taken: Option<Payloads>)
        ensures
            final(self)@ == (SharedView {
                answers: old(self)@.answers.push(
                    match taken {
                        Some(payload) => Some(payload@),
                        None => None,
                    },
                ),
                ..old(self)@
            }),
            final(self).wf() == old(self).wf(),
            final(self).same_channels(*old(self)),
    {
        take_payload(&mut self.client_rx)
    }

    /// Counts a client that has joined.
    pub fn count_joined(&mut self)
        ensures
            final(self)@ == (SharedView {
                number_connections: (old(self)@.number_connections + 1) % connection_counts(),
                ..old(self)@
            }),
            final(self).wf() == old(self).wf(),
            final(self).same_channels(*old(self)),
    {
        self.number_connections = self.number_connections.wrapping_add(1);
    }

    /// Counts a client that has left.
    pub fn count_left(&mut self)
        ensures
            final(self)@ == (SharedView {
                number_connections: (old(self)@.number_connections - 1) % connection_counts(),
                ..old(self)@
            }),
            final(self).wf() == old(self).wf(),
            final(self).same_channels(*old(self)),
    {
        self.number_connections = self.number_connections.wrapping_sub(1);
    }

    /// Asks for hosting to end.
    pub fn stop(&mut self)
        ensures
            final(self)@ == (SharedView { should_stop: true, ..old(self)@ }),
            final(self).wf() == old(self).wf(),
            final(self).same_channels(*old(self)),
    {
        self.should_stop = true;
    }
}

} // verus!
