//! What a server goes through, step after step, and the loop that hosts a session.
use crate::addr::SocketAddr;
use crate::model::{admissible, clients_at, rendezvous_lost, until_timeout, ReadView};
use crate::payload::{Error, EventView, OutgoingView, PayloadView, Payloads, ReportView};
use crate::server::ServerView;
use vstd::prelude::*;

verus! {

/// What the loop that hosts a session is to do next.
#[derive(Clone, Copy, Debug, PartialEq, Eq, Structural)]
pub enum HostingAction {
    /// Read from the network.
    Read,
    /// Look at the clock.
    LookAtClock,
    /// End.
    End,
}

/// What the loop that hosts a session has done.
#[derive(Debug)]
pub enum HostingEvent {
    /// It has read from the network, which gave this.
    Read(Result<(SocketAddr, Payloads), Error>),
    /// It has looked at the clock, which shows this.
    Clock(u128),
}

/// A step of a server. Each function that changes a server takes one, or leaves the server as it
/// was.
pub enum Step {
    /// A session is hosted.
    Host,
    /// A session is hosted with the help of a rendezvous server.
    HostWith { rendezvous: SocketAddr },
    /// What reading gave for a transfer is handled.
    Read { transfer: int, read: ReadView },
    /// A round of a transfer ends.
    Finish { transfer: int, now: u128, payloads: Seq<PayloadView>, drained: bool },
    /// What is to be sent for a transfer is handed over.
    TakeOutbox { transfer: int },
    /// The server gives the controls to somebody.
    TransferControl { target: Seq<char> },
    /// The server makes somebody an observer or no longer so.
    SetObserver { target: Seq<char>, is_observer: bool },
    /// The server is asked to stop.
    Stop { reason: Seq<char> },
}

impl Step {
    /// The end of a round.
    pub open spec fn finish(
        transfer: int,
        now: u128,
        payloads: Seq<PayloadView>,
        drained: bool,
    ) -> Step {
        Step::Finish { transfer, now, payloads, drained }
    }

    /// Whether this is a step of the loop that hosts a transfer.
    pub open spec fn hosts(self, transfer: int) -> bool {
        match self {
            Step::Read { transfer: t, .. } => t == transfer,
            Step::Finish { transfer: t, .. } => t == transfer,
            _ => false,
        }
    }

    /// Whether a server in this state can take the step: the transfer that it concerns is there.
    pub open spec fn possible(self, v: ServerView) -> bool {
        match self {
            Step::Read { transfer, .. }
            | Step::Finish { transfer, .. }
            | Step::TakeOutbox { transfer } => 0 <= transfer < v.transfers.len(),
            _ => true,
        }
    }
}

impl ServerView {
    /// The state after a step.
    pub open spec fn after(self, step: Step) -> ServerView {
        match step {
            Step::Host => self.hosting(None),
            Step::HostWith { rendezvous } => self.hosting_with(rendezvous),
            Step::Read { transfer, read } => self.read(transfer, read),
            Step::Finish { transfer, now, payloads, drained } => self.finished(
                transfer,
                now,
                payloads,
                drained,
            ),
            Step::TakeOutbox { transfer } => self.emptied(transfer),
            Step::TransferControl { target } => self.control_transferred(target),
            Step::SetObserver { target, is_observer } => self.observer_set(target, is_observer),
            Step::Stop { reason } => self.stopped(reason),
        }
    }

    /// The state after several steps, one after the other.
    pub open spec fn after_all(self, steps: Seq<Step>) -> ServerView
        decreases steps.len(),
    {
        if steps.len() == 0 {
            self
        } else {
            self.after_all(steps.drop_last()).after(steps.last())
        }
    }

    /// Whether a server in this state can take these steps, one after the other.
    pub open spec fn can_take(self, steps: Seq<Step>) -> bool {
        forall|n: int|
            0 <= n < steps.len() ==> #[trigger] steps[n].possible(self.after_all(steps.take(n)))
    }
}

/// What the loop that hosts a session is to do once one of its steps has led to the state `after`:
/// to read until nothing more is waiting, then to look at the clock once, and to begin again unless
/// the server is to stop.
pub open spec fn next_action(step: Step, after: ServerView) -> HostingAction {
    match step {
        Step::Read { read: ReadView::Timeout, .. } => HostingAction::LookAtClock,
        Step::Finish { .. } if after.shared.should_stop => HostingAction::End,
        _ => HostingAction::Read,
    }
}

/// What the loop that hosts a transfer is to do after these steps, which began with it.
pub open spec fn action_after(v: ServerView, transfer: int, steps: Seq<Step>) -> HostingAction
    decreases steps.len(),
{
    if steps.len() == 0 {
        HostingAction::Read
    } else if steps.last().hosts(transfer) {
        next_action(steps.last(), v.after_all(steps))
    } else {
        action_after(v, transfer, steps.drop_last())
    }
}

/// Whether a step is what the loop is to do.
pub open spec fn follows(step: Step, action: HostingAction) -> bool {
    match step {
        Step::Read { .. } => action is Read,
        Step::Finish { .. } => action is LookAtClock,
        _ => false,
    }
}

/// Whether, among these steps, the loop that hosts a transfer does each time what it is to do. What
/// else happens to the server may come in between.
pub open spec fn is_run(v: ServerView, transfer: int, steps: Seq<Step>) -> bool {
    forall|n: int|
        0 <= n < steps.len() && steps[n].hosts(transfer) ==> follows(
            steps[n],
            action_after(v, transfer, #[trigger] steps.take(n)),
        )
}

/// Whether these are the steps of one round of a transfer, and none else: the first end of a round
/// is the last of them.
pub open spec fn is_round(transfer: int, steps: Seq<Step>) -> bool {
    &&& steps.len() > 0
    &&& steps.last() is Finish
    &&& forall|n: int| 0 <= n < steps.len() ==> #[trigger] steps[n].hosts(transfer)
    &&& forall|n: int| 0 <= n < steps.len() - 1 ==> !(#[trigger] steps[n] is Finish)
}

/// What reading gave in the steps of a round, without the timeout at its end.
pub open spec fn reads_of(steps: Seq<Step>) -> Seq<ReadView> {
    Seq::new((steps.len() - 2) as nat, |n: int| steps[n]->read)
}

/// The steps of a round of a transfer: what was read is handled, up to the first time that nothing
/// was waiting, and the round ends.
pub open spec fn round_steps(
    transfer: int,
    reads: Seq<ReadView>,
    now: u128,
    payloads: Seq<PayloadView>,
    drained: bool,
) -> Seq<Step> {
    until_timeout(reads).map_values(|read: ReadView| Step::Read { transfer, read }).push(
        Step::Read { transfer, read: ReadView::Timeout },
    ).push(Step::Finish { transfer, now, payloads, drained })
}

/// What has been handed over for a transfer, oldest first.
pub open spec fn handed_over(v: ServerView, transfer: int, steps: Seq<Step>) -> Seq<OutgoingView>
    decreases steps.len(),
{
    if steps.len() == 0 {
        Seq::empty()
    } else {
        let earlier = handed_over(v, transfer, steps.drop_last());
        if steps.last() == (Step::TakeOutbox { transfer }) {
            earlier + v.after_all(steps.drop_last()).transfers[transfer].outbox
        } else {
            earlier
        }
    }
}

/// The steps but those that hand over what is to be sent for a transfer.
pub open spec fn without_handing_over(transfer: int, steps: Seq<Step>) -> Seq<Step> {
    steps.filter(|step: Step| step != (Step::TakeOutbox { transfer }))
}

/// Whether a step lets somebody in.
pub open spec fn lets_in(v: ServerView, step: Step) -> bool {
    match step {
        Step::Read {
            transfer,
            read: ReadView::Message { payload: PayloadView::InitHandshake { name, version }, .. },
        } => admissible(v.transfers[transfer], name, version),
        _ => false,
    }
}

/// Whether a step is the loss of a connection by which somebody leaves.
pub open spec fn loses(v: ServerView, step: Step) -> bool {
    match step {
        Step::Read { transfer, read: ReadView::Closed { addr } } => !rendezvous_lost(
            v.transfers[transfer],
            addr,
        ) && clients_at(v.transfers[transfer].clients, addr).len() > 0,
        _ => false,
    }
}

/// How often somebody has been let in.
pub open spec fn times_let_in(v: ServerView, steps: Seq<Step>) -> int
    decreases steps.len(),
{
    if steps.len() == 0 {
        0
    } else {
        let earlier = steps.drop_last();
        times_let_in(v, earlier) + if lets_in(v.after_all(earlier), steps.last()) {
            1int
        } else {
            0
        }
    }
}

/// How often a connection was lost by which somebody left.
pub open spec fn times_lost(v: ServerView, steps: Seq<Step>) -> int
    decreases steps.len(),
{
    if steps.len() == 0 {
        0
    } else {
        let earlier = steps.drop_last();
        times_lost(v, earlier) + if loses(v.after_all(earlier), steps.last()) {
            1int
        } else {
            0
        }
    }
}

/// Whether a step begins to host a session.
pub open spec fn starts(step: Step) -> bool {
    step is Host || step is HostWith
}

/// The name that a step gives the session of a transfer, if it is word from a rendezvous server.
pub open spec fn name_given(step: Step, transfer: int) -> Option<Seq<char>> {
    match step {
        Step::Read {
            transfer: t,
            read: ReadView::Message { payload: PayloadView::HostingReceived { session_id }, .. },
        } if t == transfer => Some(session_id),
        _ => None,
    }
}

/// Whether a session can be joined from a step on: it is hosted without a rendezvous server, or word
/// comes from the rendezvous server.
pub open spec fn opens_a_session(step: Step) -> bool {
    match step {
        Step::Host => true,
        Step::Read {
            read: ReadView::Message { payload: PayloadView::HostingReceived { .. }, .. },
            ..
        } => true,
        _ => false,
    }
}

/// The reports that a session can be joined, among others.
pub open spec fn openings(reports: Seq<ReportView>) -> Seq<ReportView> {
    reports.filter(
        |report: ReportView| report == ReportView::Event(EventView::ConnectionEstablished),
    )
}

} // verus!
