//! What holds of a server over all the steps that it takes.
use crate::addr::SocketAddr;
use crate::laws::{
    app_messages_go_to_everybody, app_sent_keeps_wf, closed_by_keeps_the_count, closed_by_keeps_wf,
    counts_its_clients, hosting_keeps_the_count, lemma_total_of_update, punched_keeps_wf,
    received_keeps_the_count, received_keeps_wf, until_timeout_is_prefix, with_observer_keeps_wf,
};
use crate::model::{
    app_sent_all, clients_at, connection_counts, named, punched, read_all, read_one, registered,
    rendezvous_lost, until_timeout, ReadView, SharedView, TransferView,
};
use crate::payload::{EventView, OutgoingView, PayloadView, ReportView};
use crate::seqs::lemma_filter_of_push;
use crate::server::{Server, ServerView};
use crate::startup::Hosting;
use crate::steps::{
    action_after, follows, handed_over, is_round, is_run, lets_in, loses, name_given, next_action,
    openings, opens_a_session, reads_of, round_steps, starts, times_let_in, times_lost,
    without_handing_over, HostingAction, Step,
};
use vstd::prelude::*;

verus! {

// What every step keeps.

/// Whatever a server goes through, every transfer of it stays in order.
pub proof fn steps_keep_wf(v: ServerView, steps: Seq<Step>)
    requires
        v.wf(),
        v.can_take(steps),
    ensures
        v.after_all(steps).wf(),
    decreases steps.len(),
{
    if steps.len() > 0 {
        lemma_can_take_fewer(v, steps);
        steps_keep_wf(v, steps.drop_last());
        lemma_step_keeps_wf(v.after_all(steps.drop_last()), steps.last());
    }
}

/// Steps that can be taken can be taken up to the last.
proof fn lemma_can_take_fewer(v: ServerView, steps: Seq<Step>)
    requires
        steps.len() > 0,
        v.can_take(steps),
    ensures
        v.can_take(steps.drop_last()),
        steps.last().possible(v.after_all(steps.drop_last())),
{
    let earlier = steps.drop_last();
    assert forall|n: int| 0 <= n < earlier.len() implies #[trigger] earlier[n].possible(
        v.after_all(earlier.take(n)),
    ) by {
        assert(steps[n].possible(v.after_all(steps.take(n))));
        assert(earlier.take(n) =~= steps.take(n));
    }
    assert(steps[steps.len() - 1].possible(v.after_all(steps.take(steps.len() - 1))));
    assert(steps.take(steps.len() - 1) =~= earlier);
}

proof fn lemma_step_keeps_wf(v: ServerView, step: Step)
    requires
        v.wf(),
        step.possible(v),
    ensures
        v.after(step).wf(),
{
    let w = v.after(step);
    match step {
        Step::Read { transfer, read } => {
            let s = v.transfers[transfer];
            lemma_read_keeps_wf(s, v.shared, read);
        },
        Step::Finish { transfer, now, payloads, drained } => {
            let s = v.transfers[transfer];
            punched_keeps_wf(s, now);
            lemma_app_sent_all_keeps_wf(punched(s, now), payloads);
        },
        Step::TakeOutbox { transfer } => {
            assert(v.transfers[transfer].wf());
        },
        Step::TransferControl { target } => {
            if v.transfers.len() > 0 {
                assert(v.transfers[v.transfers.len() - 1].wf());
            }
        },
        Step::SetObserver { target, is_observer } => {
            if v.transfers.len() > 0 {
                with_observer_keeps_wf(v.transfers[v.transfers.len() - 1], target, is_observer);
            }
        },
        _ => {},
    }
    assert forall|i: int| 0 <= i < w.transfers.len() implies (#[trigger] w.transfers[i]).wf() by {
        if i < v.transfers.len() {
            assert(v.transfers[i].wf());
        }
    }
}

proof fn lemma_read_keeps_wf(s: TransferView, a: SharedView, read: ReadView)
    requires
        s.wf(),
    ensures
        read_one(s, a, read).0.wf(),
{
    match read {
        ReadView::Message { from, payload } => received_keeps_wf(s, a, from, payload),
        ReadView::Closed { addr } => closed_by_keeps_wf(s, a, addr),
        _ => {},
    }
}

proof fn lemma_app_sent_all_keeps_wf(s: TransferView, payloads: Seq<PayloadView>)
    requires
        s.wf(),
    ensures
        app_sent_all(s, payloads).wf(),
    decreases payloads.len(),
{
    if payloads.len() > 0 {
        lemma_app_sent_all_keeps_wf(s, payloads.drop_last());
        app_sent_keeps_wf(app_sent_all(s, payloads.drop_last()), payloads.last());
    }
}

/// Whether a step is not the loss of a connection that two clients of a transfer shared.
pub open spec fn loses_one_client_at_most(v: ServerView, step: Step) -> bool {
    match step {
        Step::Read { transfer, read: ReadView::Closed { addr } } => clients_at(
            v.transfers[transfer].clients,
            addr,
        ).len() <= 1,
        _ => true,
    }
}

/// A server that counts its clients goes on doing so whatever it goes through, as long as no
/// connection is lost that two clients of a transfer shared.
pub proof fn steps_keep_the_count(v: ServerView, steps: Seq<Step>)
    requires
        counts_its_clients(v),
        v.can_take(steps),
        forall|n: int|
            0 <= n < steps.len() ==> loses_one_client_at_most(
                v.after_all(steps.take(n)),
                #[trigger] steps[n],
            ),
    ensures
        counts_its_clients(v.after_all(steps)),
    decreases steps.len(),
{
    if steps.len() > 0 {
        let earlier = steps.drop_last();
        lemma_can_take_fewer(v, steps);
        assert forall|n: int| 0 <= n < earlier.len() implies loses_one_client_at_most(
            v.after_all(earlier.take(n)),
            #[trigger] earlier[n],
        ) by {
            assert(loses_one_client_at_most(v.after_all(steps.take(n)), steps[n]));
            assert(earlier.take(n) =~= steps.take(n));
        }
        steps_keep_the_count(v, earlier);
        assert(loses_one_client_at_most(
            v.after_all(steps.take(steps.len() - 1)),
            steps[steps.len() - 1],
        ));
        assert(steps.take(steps.len() - 1) =~= earlier);
        lemma_step_keeps_the_count(v.after_all(earlier), steps.last());
    }
}

proof fn lemma_step_keeps_the_count(v: ServerView, step: Step)
    requires
        counts_its_clients(v),
        step.possible(v),
        loses_one_client_at_most(v, step),
    ensures
        counts_its_clients(v.after(step)),
{
    let last = v.transfers.len() - 1;
    let w = v.after(step);
    match step {
        Step::Host => hosting_keeps_the_count(v, None),
        Step::HostWith { rendezvous } => {
            let hosting = v.hosting(Some(rendezvous));
            hosting_keeps_the_count(v, Some(rendezvous));
            lemma_total_of_update(hosting.transfers, last + 1, w.transfers[last + 1]);
        },
        Step::Read { transfer, read } => {
            match read {
                ReadView::Message { from, payload } => {
                    received_keeps_the_count(v, transfer, from, payload);
                },
                ReadView::Closed { addr } => {
                    closed_by_keeps_the_count(v, transfer, addr);
                },
                _ => {
                    lemma_total_of_update(v.transfers, transfer, w.transfers[transfer]);
                },
            }
        },
        Step::Finish { transfer, now, payloads, drained } => {
            app_messages_go_to_everybody(punched(v.transfers[transfer], now), payloads);
            lemma_total_of_update(v.transfers, transfer, w.transfers[transfer]);
        },
        Step::TakeOutbox { transfer } => {
            lemma_total_of_update(v.transfers, transfer, w.transfers[transfer]);
        },
        Step::TransferControl { .. } | Step::SetObserver { .. } => {
            if v.transfers.len() > 0 {
                lemma_total_of_update(v.transfers, last, w.transfers[last]);
            }
        },
        Step::Stop { .. } => {},
    }
}

/// The count of connections is how often somebody was let in less how often a connection was lost by
/// which somebody left, whatever else a server goes through, modulo [`connection_counts`].
pub proof fn count_is_joins_less_losses(v: ServerView, steps: Seq<Step>)
    requires
        0 <= v.shared.number_connections < connection_counts(),
        v.can_take(steps),
    ensures
        v.after_all(steps).shared.number_connections == (v.shared.number_connections + times_let_in(
            v,
            steps,
        ) - times_lost(v, steps)) % connection_counts(),
    decreases steps.len(),
{
    if steps.len() > 0 {
        let w = v.after_all(steps.drop_last());
        lemma_can_take_fewer(v, steps);
        count_is_joins_less_losses(v, steps.drop_last());
        lemma_step_counts(w, steps.last());
    }
}

/// From a new server on, the count is how often somebody was let in less how often a connection was
/// lost by which somebody left.
pub proof fn new_server_counts_joins_less_losses(
    username: Seq<char>,
    version: Seq<char>,
    max_punch_retries: u8,
    steps: Seq<Step>,
)
    requires
        ServerView::created(username, version, max_punch_retries).can_take(steps),
    ensures
        ({
            let v = ServerView::created(username, version, max_punch_retries);
            v.after_all(steps).shared.number_connections == (times_let_in(v, steps) - times_lost(
                v,
                steps,
            )) % connection_counts()
        }),
{
    let v = ServerView::created(username, version, max_punch_retries);
    count_is_joins_less_losses(v, steps);
}

proof fn lemma_step_counts(v: ServerView, step: Step)
    ensures
        v.after(step).shared.number_connections == if lets_in(v, step) {
            (v.shared.number_connections + 1) % connection_counts()
        } else if loses(v, step) {
            (v.shared.number_connections - 1) % connection_counts()
        } else {
            v.shared.number_connections
        },
{
    if let Step::Read { transfer, read: ReadView::Message { from, payload } } = step {
        if let PayloadView::InitHandshake { name, version } = payload {
            let s = v.transfers[transfer];
            if registered(s.clients, name, from) {
                assert(named(s.clients, name));
            }
        }
    }
}

/// The ends of the channels that the application was given stay those of the server's channels as
/// long as the server has the same channels, which each of its functions promises.
pub proof fn application_stays_connected(before: Server, after: Server, hosting: Hosting)
    requires
        before.hands_out(hosting),
        after.shared().same_channels(before.shared()),
    ensures
        after.hands_out(hosting),
{
}

// A round.

/// The loop that hosts a transfer takes it through a round so: it reads until nothing more is
/// waiting, and each thing that it read before that is handled once, in the order in which it was
/// read. Then it looks at the clock once, and then the clients are sent what the application had
/// put in.
pub proof fn round_reads_then_looks_then_sends(v: ServerView, transfer: int, steps: Seq<Step>)
    requires
        0 <= transfer < v.transfers.len(),
        is_round(transfer, steps),
        is_run(v, transfer, steps),
    ensures
        steps.len() >= 2,
        steps[steps.len() - 2] == (Step::Read { transfer, read: ReadView::Timeout }),
        forall|n: int|
            0 <= n < steps.len() - 2 ==> #[trigger] steps[n] is Read && !(
            steps[n]->read is Timeout),
        until_timeout(reads_of(steps)) == reads_of(steps),
        v.after_all(steps) == v.round(
            transfer,
            reads_of(steps),
            steps.last()->now,
            steps.last()->payloads,
            steps.last()->drained,
        ),
{
    let end = steps.len() - 1;
    let reading = steps.take(end);
    assert(steps[end].hosts(transfer));
    assert(follows(steps[end], action_after(v, transfer, reading)));
    assert(steps[end - 1].hosts(transfer));
    assert(reading.last() == steps[end - 1]);
    assert(steps[end - 1] == (Step::Read { transfer, read: ReadView::Timeout }));
    assert forall|n: int| 0 <= n < steps.len() - 2 implies #[trigger] steps[n] is Read && !(
    steps[n]->read is Timeout) by {
        assert(steps[n].hosts(transfer));
        assert(steps[n + 1].hosts(transfer));
        assert(!(steps[n] is Finish));
        assert(!(steps[n + 1] is Finish));
        assert(follows(steps[n + 1], action_after(v, transfer, steps.take(n + 1))));
        assert(steps.take(n + 1).last() == steps[n]);
    }
    assert forall|n: int| 0 <= n < reading.len() implies #[trigger] reading[n] is Read
        && reading[n].hosts(transfer) by {
        assert(steps[n].hosts(transfer));
        assert(!(steps[n] is Finish));
    }
    lemma_after_reads(v, transfer, reading);
    let all = Seq::new(reading.len(), |n: int| reading[n]->read);
    assert(all.drop_last() =~= reads_of(steps));
    assert(all.last() is Timeout);
    assert forall|n: int| 0 <= n < reads_of(steps).len() implies !(#[trigger] reads_of(steps)[n]
        is Timeout) by {
        assert(steps[n] is Read && !(steps[n]->read is Timeout));
    }
    until_timeout_is_prefix(reads_of(steps), steps.len() - 2);
    assert(reads_of(steps).take(steps.len() - 2) =~= reads_of(steps));
    assert(steps.drop_last() =~= reading);
    let w = v.after_all(reading);
    assert(v.after_all(steps) == w.after(steps.last()));
    assert(v.after_all(steps).transfers =~= v.transfers.update(
        transfer,
        v.after_all(steps).transfers[transfer],
    ));
}

/// What [`Server::run_round`] does in one go is what the loop that hosts a transfer does step by step:
/// its steps make up a round, each of them is what the loop is to do, and they lead to the same state.
pub proof fn round_is_what_the_loop_does(
    v: ServerView,
    transfer: int,
    reads: Seq<ReadView>,
    now: u128,
    payloads: Seq<PayloadView>,
    drained: bool,
)
    requires
        0 <= transfer < v.transfers.len(),
    ensures
        ({
            let steps = round_steps(transfer, reads, now, payloads, drained);
            &&& is_round(transfer, steps)
            &&& is_run(v, transfer, steps)
            &&& v.after_all(steps) == v.round(transfer, reads, now, payloads, drained)
            &&& action_after(v, transfer, steps) == if v.round(
                transfer,
                reads,
                now,
                payloads,
                drained,
            ).shared.should_stop {
                HostingAction::End
            } else {
                HostingAction::Read
            }
        }),
{
    let steps = round_steps(transfer, reads, now, payloads, drained);
    let handled = until_timeout(reads);
    let end = handled.len() as int;
    lemma_no_timeout_before_the_first(reads);
    assert forall|n: int| 0 <= n < end implies #[trigger] steps[n] == (Step::Read {
        transfer,
        read: handled[n],
    }) by {}
    assert(steps[end] == (Step::Read { transfer, read: ReadView::Timeout }));
    assert forall|n: int| 0 <= n < steps.len() && steps[n].hosts(transfer) implies follows(
        steps[n],
        action_after(v, transfer, #[trigger] steps.take(n)),
    ) by {
        if n > 0 {
            assert(steps.take(n).last() == steps[n - 1]);
            if n <= end {
                assert(!(handled[n - 1] is Timeout));
            }
        }
    }
    assert forall|n: int| 0 <= n < steps.len() implies #[trigger] steps[n].hosts(transfer) by {}
    round_reads_then_looks_then_sends(v, transfer, steps);
    assert(reads_of(steps) =~= handled);
}

/// Nothing that was read before the first timeout is a timeout.
proof fn lemma_no_timeout_before_the_first(reads: Seq<ReadView>)
    ensures
        forall|i: int|
            0 <= i < until_timeout(reads).len() ==> !(#[trigger] until_timeout(reads)[i]
                is Timeout),
    decreases reads.len(),
{
    if !(reads.len() == 0 || reads.first() is Timeout) {
        let rest = until_timeout(reads.drop_first());
        lemma_no_timeout_before_the_first(reads.drop_first());
        assert forall|i: int| 0 <= i < until_timeout(reads).len() implies !(
        #[trigger] until_timeout(reads)[i] is Timeout) by {
            if i > 0 {
                assert(until_timeout(reads)[i] == rest[i - 1]);
            }
        }
    }
}

/// The state after reading only.
proof fn lemma_after_reads(v: ServerView, transfer: int, steps: Seq<Step>)
    requires
        0 <= transfer < v.transfers.len(),
        forall|n: int|
            0 <= n < steps.len() ==> #[trigger] steps[n] is Read && steps[n].hosts(transfer),
    ensures
        v.after_all(steps) == v.with_transfer(
            transfer,
            read_all(
                v.transfers[transfer],
                v.shared,
                Seq::new(steps.len(), |n: int| steps[n]->read),
            ),
        ),
    decreases steps.len(),
{
    let reads = Seq::new(steps.len(), |n: int| steps[n]->read);
    if steps.len() == 0 {
        assert(v.transfers.update(transfer, v.transfers[transfer]) =~= v.transfers);
    } else {
        let earlier = steps.drop_last();
        assert forall|n: int| 0 <= n < earlier.len() implies #[trigger] earlier[n] is Read
            && earlier[n].hosts(transfer) by {
            assert(steps[n] is Read && steps[n].hosts(transfer));
        }
        lemma_after_reads(v, transfer, earlier);
        let last = steps[steps.len() - 1];
        assert(last is Read && last.hosts(transfer));
        assert(reads.drop_last() =~= Seq::new(earlier.len(), |n: int| earlier[n]->read));
        assert(v.after_all(steps).transfers =~= v.transfers.update(
            transfer,
            read_all(v.transfers[transfer], v.shared, reads).0,
        ));
    }
}

/// Whatever else goes on in between, the loop that hosts a transfer begins with reading, looks at
/// the clock after reading has found that nothing more is waiting, and only then.
pub proof fn clock_is_looked_at_after_each_timeout(
    v: ServerView,
    transfer: int,
    steps: Seq<Step>,
    n: int,
)
    requires
        is_run(v, transfer, steps),
        0 <= n < steps.len(),
        steps[n].hosts(transfer),
    ensures
        (forall|i: int| 0 <= i < n ==> !#[trigger] steps[i].hosts(transfer)) ==> steps[n] is Read,
        forall|m: int|
            0 <= m < n && #[trigger] steps[m].hosts(transfer) && (forall|i: int|
                m < i < n ==> !#[trigger] steps[i].hosts(transfer)) ==> (steps[n] is Finish == (
            steps[m] == (Step::Read { transfer, read: ReadView::Timeout }))),
{
    assert(follows(steps[n], action_after(v, transfer, steps.take(n))));
    if forall|i: int| 0 <= i < n ==> !#[trigger] steps[i].hosts(transfer) {
        lemma_begins_with_reading(v, transfer, steps, n);
    }
    assert forall|m: int|
        0 <= m < n && #[trigger] steps[m].hosts(transfer) && (forall|i: int|
            m < i < n ==> !#[trigger] steps[i].hosts(transfer)) implies (steps[n] is Finish == (
    steps[m] == (Step::Read { transfer, read: ReadView::Timeout }))) by {
        lemma_action_waits(v, transfer, steps, m, n);
    }
}

proof fn lemma_begins_with_reading(v: ServerView, transfer: int, steps: Seq<Step>, end: int)
    requires
        0 <= end <= steps.len(),
        forall|i: int| 0 <= i < end ==> !#[trigger] steps[i].hosts(transfer),
    ensures
        action_after(v, transfer, steps.take(end)) is Read,
    decreases end,
{
    if end > 0 {
        lemma_begins_with_reading(v, transfer, steps, end - 1);
        assert(steps.take(end).last() == steps[end - 1]);
        assert(steps.take(end).drop_last() =~= steps.take(end - 1));
    }
}

/// What the loop is to do stays so until it has done something.
proof fn lemma_action_waits(v: ServerView, transfer: int, steps: Seq<Step>, n: int, end: int)
    requires
        0 <= n < end <= steps.len(),
        steps[n].hosts(transfer),
        forall|i: int| n < i < end ==> !#[trigger] steps[i].hosts(transfer),
    ensures
        action_after(v, transfer, steps.take(end)) == next_action(
            steps[n],
            v.after_all(steps.take(n + 1)),
        ),
    decreases end,
{
    assert(steps.take(end).last() == steps[end - 1]);
    if n < end - 1 {
        lemma_action_waits(v, transfer, steps, n, end - 1);
        assert(steps.take(end).drop_last() =~= steps.take(end - 1));
    }
}

/// Errors other than a lost connection leave no trace: what else is read is handled as if they had
/// not been there.
pub proof fn other_errors_are_ignored(s: TransferView, a: SharedView, reads: Seq<ReadView>)
    ensures
        read_all(s, a, reads) == read_all(
            s,
            a,
            reads.filter(|read: ReadView| read is Message || read is Closed),
        ),
    decreases reads.len(),
{
    let keep = |read: ReadView| read is Message || read is Closed;
    reveal(Seq::filter);
    if reads.len() > 0 {
        let earlier = reads.drop_last();
        other_errors_are_ignored(s, a, earlier);
        assert(earlier.push(reads.last()) =~= reads);
        lemma_filter_of_push(earlier, reads.last(), keep);
        let kept = earlier.filter(keep);
        assert(kept.push(reads.last()).drop_last() =~= kept);
    }
}

/// When what is to be sent is handed over makes no difference: what is handed over in the course of
/// some steps, and what is left after them, is together what would be left had nothing been handed
/// over, in the same order; and all else is the same.
pub proof fn handing_over_changes_nothing_else(v: ServerView, transfer: int, steps: Seq<Step>)
    requires
        0 <= transfer < v.transfers.len(),
        v.can_take(steps),
    ensures
        ({
            let with = v.after_all(steps);
            let without = v.after_all(without_handing_over(transfer, steps));
            &&& 0 <= transfer < with.transfers.len() == without.transfers.len()
            &&& without.transfers[transfer].outbox == handed_over(v, transfer, steps)
                + with.transfers[transfer].outbox
            &&& without.emptied(transfer) == with.emptied(transfer)
        }),
    decreases steps.len(),
{
    let keep = |step: Step| step != (Step::TakeOutbox { transfer });
    reveal(Seq::filter);
    if steps.len() == 0 {
        assert(v.transfers[transfer].outbox =~= Seq::<OutgoingView>::empty()
            + v.transfers[transfer].outbox);
    } else {
        let earlier = steps.drop_last();
        let step = steps.last();
        let with = v.after_all(earlier);
        let kept = without_handing_over(transfer, earlier);
        let without = v.after_all(kept);
        let handed = handed_over(v, transfer, earlier);
        lemma_can_take_fewer(v, steps);
        handing_over_changes_nothing_else(v, transfer, earlier);
        assert(earlier.push(step) =~= steps);
        lemma_filter_of_push(earlier, step, keep);
        if keep(step) {
            assert(kept.push(step).drop_last() =~= kept);
            assert(kept.push(step).last() == step);
            lemma_step_keeps_apart(with, without, transfer, handed, step);
        } else {
            lemma_handing_over_keeps_apart(with, without, transfer, handed);
        }
    }
}

/// When what is to be sent is handed over makes no difference to the loop that hosts the transfer.
pub proof fn handing_over_leaves_the_loop_alone(v: ServerView, transfer: int, steps: Seq<Step>)
    requires
        0 <= transfer < v.transfers.len(),
        v.can_take(steps),
        is_run(v, transfer, steps),
    ensures
        is_run(v, transfer, without_handing_over(transfer, steps)),
        action_after(v, transfer, without_handing_over(transfer, steps)) == action_after(
            v,
            transfer,
            steps,
        ),
    decreases steps.len(),
{
    let keep = |step: Step| step != (Step::TakeOutbox { transfer });
    reveal(Seq::filter);
    if steps.len() > 0 {
        let earlier = steps.drop_last();
        let step = steps.last();
        let kept = without_handing_over(transfer, earlier);
        lemma_can_take_fewer(v, steps);
        lemma_fewer_steps_are_a_run(v, transfer, steps);
        handing_over_leaves_the_loop_alone(v, transfer, earlier);
        assert(earlier.push(step) =~= steps);
        lemma_filter_of_push(earlier, step, keep);
        if keep(step) {
            let end = steps.len() - 1;
            assert(steps.take(end) =~= earlier);
            assert(steps[end].hosts(transfer) ==> follows(
                step,
                action_after(v, transfer, steps.take(end)),
            ));
            lemma_one_more_step_of_a_run(v, transfer, kept, step);
            handing_over_changes_nothing_else(v, transfer, steps);
            let with = v.after_all(steps);
            let without = v.after_all(kept.push(step));
            assert(with.emptied(transfer).shared == with.shared);
            assert(without.emptied(transfer).shared == without.shared);
            assert(kept.push(step).drop_last() =~= kept);
        }
    }
}

/// A run is one up to its last step.
proof fn lemma_fewer_steps_are_a_run(v: ServerView, transfer: int, steps: Seq<Step>)
    requires
        steps.len() > 0,
        is_run(v, transfer, steps),
    ensures
        is_run(v, transfer, steps.drop_last()),
{
    let earlier = steps.drop_last();
    assert forall|n: int| 0 <= n < earlier.len() && earlier[n].hosts(transfer) implies follows(
        earlier[n],
        action_after(v, transfer, #[trigger] earlier.take(n)),
    ) by {
        assert(steps[n].hosts(transfer));
        assert(earlier.take(n) =~= steps.take(n));
    }
}

/// A run with one more step is one if that, where it is a step of the loop, is what the loop is to
/// do.
proof fn lemma_one_more_step_of_a_run(
    v: ServerView,
    transfer: int,
    steps: Seq<Step>,
    step: Step,
)
    requires
        is_run(v, transfer, steps),
        step.hosts(transfer) ==> follows(step, action_after(v, transfer, steps)),
    ensures
        is_run(v, transfer, steps.push(step)),
{
    let more = steps.push(step);
    assert forall|n: int| 0 <= n < more.len() && more[n].hosts(transfer) implies follows(
        more[n],
        action_after(v, transfer, #[trigger] more.take(n)),
    ) by {
        assert(more.take(n) =~= steps.take(n));
        if n < steps.len() {
            assert(steps[n].hosts(transfer));
        } else {
            assert(steps.take(n) =~= steps);
        }
    }
}

/// Whether two states differ in that something of what is to be sent for a transfer has been handed
/// over in the one.
spec fn apart(
    with: ServerView,
    without: ServerView,
    transfer: int,
    handed: Seq<OutgoingView>,
) -> bool {
    &&& 0 <= transfer < with.transfers.len() == without.transfers.len()
    &&& without.transfers[transfer].outbox == handed + with.transfers[transfer].outbox
    &&& without.emptied(transfer) == with.emptied(transfer)
}

proof fn lemma_step_keeps_apart(
    with: ServerView,
    without: ServerView,
    transfer: int,
    handed: Seq<OutgoingView>,
    step: Step,
)
    requires
        apart(with, without, transfer, handed),
        step.possible(with),
        step != (Step::TakeOutbox { transfer }),
    ensures
        apart(with.after(step), without.after(step), transfer, handed),
{
    lemma_step_only_appends(with, transfer, step);
    lemma_step_only_appends(without, transfer, step);
    let added = with.emptied(transfer).after(step).transfers[transfer].outbox;
    assert((handed + with.transfers[transfer].outbox) + added =~= handed + (
    with.transfers[transfer].outbox + added));
}

proof fn lemma_handing_over_keeps_apart(
    with: ServerView,
    without: ServerView,
    transfer: int,
    handed: Seq<OutgoingView>,
)
    requires
        apart(with, without, transfer, handed),
    ensures
        apart(
            with.emptied(transfer),
            without,
            transfer,
            handed + with.transfers[transfer].outbox,
        ),
{
    let sent = handed + with.transfers[transfer].outbox;
    assert(sent =~= sent + Seq::<OutgoingView>::empty());
    assert(with.emptied(transfer).emptied(transfer).transfers =~= with.emptied(transfer).transfers);
}

/// A step adds to what is to be sent without looking at it.
proof fn lemma_step_only_appends(v: ServerView, transfer: int, step: Step)
    requires
        0 <= transfer < v.transfers.len(),
        step.possible(v),
        step != (Step::TakeOutbox { transfer }),
    ensures
        ({
            let w = v.after(step);
            let x = v.emptied(transfer).after(step);
            &&& transfer < w.transfers.len() == x.transfers.len()
            &&& w.transfers.len() == v.transfers.len() + if step is Host || step is HostWith {
                1int
            } else {
                0
            }
            &&& w.transfers[transfer].outbox == v.transfers[transfer].outbox
                + x.transfers[transfer].outbox
            &&& w.emptied(transfer) == x.emptied(transfer)
        }),
{
    let s = v.transfers[transfer];
    let e = TransferView { outbox: Seq::empty(), ..s };
    let w = v.after(step);
    let x = v.emptied(transfer).after(step);
    assert(s.outbox =~= s.outbox + Seq::<OutgoingView>::empty());
    match step {
        Step::Read { transfer: k, read } => {
            if k == transfer {
                lemma_read_only_appends(s, v.shared, read);
            }
        },
        Step::Finish { transfer: k, now, payloads, .. } => {
            if k == transfer {
                lemma_finish_only_appends(s, now, payloads);
            }
        },
        _ => {},
    }
    assert(w.emptied(transfer).transfers =~= x.emptied(transfer).transfers);
}

proof fn lemma_read_only_appends(s: TransferView, a: SharedView, read: ReadView)
    ensures
        ({
            let (t, b) = read_one(s, a, read);
            let (u, c) = read_one(TransferView { outbox: Seq::empty(), ..s }, a, read);
            &&& t.outbox == s.outbox + u.outbox
            &&& t == (TransferView { outbox: t.outbox, ..u })
            &&& b == c
        }),
{
    let e = TransferView { outbox: Seq::empty(), ..s };
    let t = read_one(s, a, read).0;
    let u = read_one(e, a, read).0;
    assert(t.outbox =~= s.outbox + u.outbox);
}

proof fn lemma_finish_only_appends(s: TransferView, now: u128, payloads: Seq<PayloadView>)
    ensures
        ({
            let e = TransferView { outbox: Seq::empty(), ..s };
            let t = app_sent_all(punched(s, now), payloads);
            let u = app_sent_all(punched(e, now), payloads);
            &&& t.outbox == s.outbox + u.outbox
            &&& t == (TransferView { outbox: t.outbox, ..u })
        }),
    decreases payloads.len(),
{
    let e = TransferView { outbox: Seq::empty(), ..s };
    let t = app_sent_all(punched(s, now), payloads);
    let u = app_sent_all(punched(e, now), payloads);
    if payloads.len() > 0 {
        lemma_finish_only_appends(s, now, payloads.drop_last());
    }
    assert(t.outbox =~= s.outbox + u.outbox);
}

// The end.

/// A wish to stop is never taken back. It is raised when the server is asked to stop, and when the
/// rendezvous server of a transfer is lost before it has named the session, and in no other way.
pub proof fn wish_to_stop_stays(v: ServerView, step: Step)
    ensures
        v.after(step).shared.should_stop == (v.shared.should_stop || step is Stop || match step {
            Step::Read { transfer, read: ReadView::Closed { addr } } => rendezvous_lost(
                v.transfers[transfer],
                addr,
            ),
            _ => false,
        }),
{
}

/// Whatever a server that is to stop goes through, it is to stop.
pub proof fn wish_to_stop_outlasts_everything(v: ServerView, steps: Seq<Step>)
    requires
        v.shared.should_stop,
    ensures
        v.after_all(steps).shared.should_stop,
    decreases steps.len(),
{
    if steps.len() > 0 {
        wish_to_stop_outlasts_everything(v, steps.drop_last());
        wish_to_stop_stays(v.after_all(steps.drop_last()), steps.last());
    }
}

/// Whether, among these steps, the one at `n` ends a round of a transfer and finds that the server
/// is to stop.
pub open spec fn finds_the_wish_to_stop(
    v: ServerView,
    transfer: int,
    steps: Seq<Step>,
    n: int,
) -> bool {
    &&& steps[n] is Finish
    &&& steps[n].hosts(transfer)
    &&& v.after_all(steps.take(n + 1)).shared.should_stop
}

/// The loop that hosts a transfer ends with the first round that finds that the server is to stop:
/// it reads nothing more, looks at the clock no more and sends nothing more, whatever else goes on.
pub proof fn hosting_ends_when_told(v: ServerView, transfer: int, steps: Seq<Step>, n: int)
    requires
        is_run(v, transfer, steps),
        0 <= n < steps.len(),
        finds_the_wish_to_stop(v, transfer, steps, n),
    ensures
        action_after(v, transfer, steps) is End,
        forall|m: int| n < m < steps.len() ==> !#[trigger] steps[m].hosts(transfer),
{
    let end = steps.len() as int;
    lemma_nothing_follows_the_end(v, transfer, steps, n, end);
    lemma_action_waits(v, transfer, steps, n, end);
    assert(steps.take(end) =~= steps);
}

/// The loop has no step after a round that finds that the server is to stop.
proof fn lemma_nothing_follows_the_end(
    v: ServerView,
    transfer: int,
    steps: Seq<Step>,
    n: int,
    end: int,
)
    requires
        is_run(v, transfer, steps),
        0 <= n < end <= steps.len(),
        finds_the_wish_to_stop(v, transfer, steps, n),
    ensures
        forall|m: int| n < m < end ==> !#[trigger] steps[m].hosts(transfer),
    decreases end,
{
    if n < end - 1 {
        lemma_nothing_follows_the_end(v, transfer, steps, n, end - 1);
        lemma_action_waits(v, transfer, steps, n, end - 1);
        if steps[end - 1].hosts(transfer) {
            assert(follows(steps[end - 1], action_after(v, transfer, steps.take(end - 1))));
        }
    }
}

/// The loop ends in no other way.
pub proof fn hosting_ends_only_when_told(v: ServerView, transfer: int, steps: Seq<Step>)
    requires
        action_after(v, transfer, steps) is End,
    ensures
        exists|n: int|
            0 <= n < steps.len() && #[trigger] finds_the_wish_to_stop(v, transfer, steps, n),
    decreases steps.len(),
{
    let last = steps.len() - 1;
    assert(steps.take(last + 1) =~= steps);
    if steps.last().hosts(transfer) {
        assert(finds_the_wish_to_stop(v, transfer, steps, last));
    } else {
        let earlier = steps.drop_last();
        hosting_ends_only_when_told(v, transfer, earlier);
        let n = choose|n: int|
            0 <= n < earlier.len() && #[trigger] finds_the_wish_to_stop(v, transfer, earlier, n);
        assert(earlier.take(n + 1) =~= steps.take(n + 1));
        assert(finds_the_wish_to_stop(v, transfer, steps, n));
    }
}

/// A server that is to stop already when hosting begins goes through one round, and no more: the
/// loop ends when that round does, and not before.
pub proof fn server_that_is_to_stop_hosts_one_round(
    v: ServerView,
    transfer: int,
    steps: Seq<Step>,
)
    requires
        v.shared.should_stop,
        is_run(v, transfer, steps),
    ensures
        action_after(v, transfer, steps) is End == exists|n: int|
            0 <= n < steps.len() && #[trigger] steps[n] is Finish && steps[n].hosts(transfer),
        forall|n: int, m: int|
            0 <= n < m < steps.len() && #[trigger] steps[n] is Finish && steps[n].hosts(transfer)
                ==> !#[trigger] steps[m].hosts(transfer),
{
    assert forall|n: int|
        0 <= n < steps.len() && #[trigger] steps[n] is Finish && steps[n].hosts(
            transfer,
        ) implies finds_the_wish_to_stop(v, transfer, steps, n) && action_after(
        v,
        transfer,
        steps,
    ) is End by {
        wish_to_stop_outlasts_everything(v, steps.take(n + 1));
        hosting_ends_when_told(v, transfer, steps, n);
    }
    if action_after(v, transfer, steps) is End {
        hosting_ends_only_when_told(v, transfer, steps);
    }
    assert forall|n: int, m: int|
        0 <= n < m < steps.len() && #[trigger] steps[n] is Finish && steps[n].hosts(
            transfer,
        ) implies !#[trigger] steps[m].hosts(transfer) by {
        hosting_ends_when_told(v, transfer, steps, n);
    }
}

/// What the application has put in by the end of a round goes to every client, in the order in
/// which it was put in, after what was to be sent before it; so too when the server is to stop.
pub proof fn ending_round_still_sends(
    v: ServerView,
    transfer: int,
    now: u128,
    payloads: Seq<PayloadView>,
    drained: bool,
)
    requires
        0 <= transfer < v.transfers.len(),
    ensures
        ({
            let step = Step::Finish { transfer, now, payloads, drained };
            let w = v.after(step);
            let clients = v.transfers[transfer].clients;
            let before = punched(v.transfers[transfer], now).outbox;
            let after = w.transfers[transfer].outbox;
            &&& next_action(step, w) == if v.shared.should_stop {
                HostingAction::End
            } else {
                HostingAction::Read
            }
            &&& v.transfers[transfer].outbox.is_prefix_of(before)
            &&& before.is_prefix_of(after)
            &&& after.len() == before.len() + payloads.len() * clients.len()
            &&& forall|k: int, i: int|
                #![trigger payloads[k], clients[i]]
                0 <= k < payloads.len() && 0 <= i < clients.len() ==> after[before.len() + k
                    * clients.len() + i] == (OutgoingView {
                    payload: payloads[k],
                    target: clients[i].addr,
                })
        }),
{
    app_messages_go_to_everybody(punched(v.transfers[transfer], now), payloads);
}

// The name of the session.

/// What a server says of the name of its session, over all that it has gone through: nothing before
/// it first hosts one; later what the last word from the rendezvous server of the session hosted
/// last has said; and an empty name as long as there has been no such word.
pub proof fn session_id_is_the_last_given(v: ServerView, steps: Seq<Step>)
    requires
        v.transfers.len() == 0,
        v.can_take(steps),
    ensures
        ({
            let w = v.after_all(steps);
            let latest = w.transfers.len() - 1;
            &&& w.session_id() is None == (forall|i: int|
                0 <= i < steps.len() ==> !starts(#[trigger] steps[i]))
            &&& forall|n: int|
                0 <= n < steps.len() && starts(#[trigger] steps[n]) && (forall|i: int|
                    n < i < steps.len() ==> !starts(#[trigger] steps[i]) && name_given(
                        steps[i],
                        latest,
                    ) is None) ==> w.session_id() == Some(Seq::<char>::empty())
            &&& forall|n: int|
                0 <= n < steps.len() && name_given(#[trigger] steps[n], latest) is Some && (forall|
                    i: int,
                |
                    n < i < steps.len() ==> !starts(#[trigger] steps[i]) && name_given(
                        steps[i],
                        latest,
                    ) is None) ==> w.session_id() == name_given(steps[n], latest)
        }),
{
    let w = v.after_all(steps);
    let latest = w.transfers.len() - 1;
    lemma_transfers_are_starts(v, steps);
    assert forall|n: int|
        0 <= n < steps.len() && (starts(#[trigger] steps[n]) || name_given(steps[n], latest)
            is Some) && (forall|i: int|
            n < i < steps.len() ==> !starts(#[trigger] steps[i]) && name_given(steps[i], latest)
                is None) implies w.session_id() == Some(
        if starts(steps[n]) {
            Seq::<char>::empty()
        } else {
            name_given(steps[n], latest)->0
        },
    ) by {
        assert(steps.take(steps.len() as int) =~= steps);
        lemma_session_id_waits(v, steps, n, steps.len() as int, latest);
    }
}

/// There are transfers if a session has been hosted.
proof fn lemma_transfers_are_starts(v: ServerView, steps: Seq<Step>)
    requires
        v.transfers.len() == 0,
        v.can_take(steps),
    ensures
        v.after_all(steps).transfers.len() == 0 <==> (forall|i: int|
            0 <= i < steps.len() ==> !starts(#[trigger] steps[i])),
    decreases steps.len(),
{
    if steps.len() > 0 {
        let earlier = steps.drop_last();
        lemma_can_take_fewer(v, steps);
        lemma_transfers_are_starts(v, earlier);
        lemma_step_and_the_name(v.after_all(earlier), steps.last(), 0);
        assert(steps.last() == steps[steps.len() - 1]);
        if v.after_all(earlier).transfers.len() == 0 {
            assert forall|i: int| 0 <= i < steps.len() - 1 implies !starts(
                #[trigger] steps[i],
            ) by {
                assert(!starts(earlier[i]));
            }
        } else {
            let i = choose|i: int| 0 <= i < earlier.len() && starts(#[trigger] earlier[i]);
            assert(starts(steps[i]));
        }
    }
}

/// What a step does to the number of transfers and to the name of the session of one.
proof fn lemma_step_and_the_name(v: ServerView, step: Step, transfer: int)
    requires
        step.possible(v),
    ensures
        v.after(step).transfers.len() == v.transfers.len() + if starts(step) {
            1int
        } else {
            0
        },
        0 <= transfer < v.transfers.len() ==> v.after(step).transfers[transfer].session_id == (
        match name_given(step, transfer) {
            Some(session_id) => session_id,
            None => v.transfers[transfer].session_id,
        }),
        starts(step) ==> v.after(step).transfers.last().session_id == Seq::<char>::empty(),
{
    if let Step::Finish { transfer: t, now, payloads, .. } = step {
        lemma_sending_keeps_the_name(punched(v.transfers[t], now), payloads);
    }
}

proof fn lemma_sending_keeps_the_name(s: TransferView, payloads: Seq<PayloadView>)
    ensures
        app_sent_all(s, payloads).session_id == s.session_id,
    decreases payloads.len(),
{
    if payloads.len() > 0 {
        lemma_sending_keeps_the_name(s, payloads.drop_last());
    }
}

/// The name stays until another session is hosted or another word comes.
proof fn lemma_session_id_waits(
    v: ServerView,
    steps: Seq<Step>,
    n: int,
    end: int,
    latest: int,
)
    requires
        v.can_take(steps),
        0 <= n < end <= steps.len(),
        starts(steps[n]) || name_given(steps[n], latest) is Some,
        forall|i: int|
            n < i < end ==> !starts(#[trigger] steps[i]) && name_given(steps[i], latest) is None,
        v.after_all(steps.take(end)).transfers.len() == latest + 1,
    ensures
        v.after_all(steps.take(end)).session_id() == Some(
            if starts(steps[n]) {
                Seq::<char>::empty()
            } else {
                name_given(steps[n], latest)->0
            },
        ),
    decreases end,
{
    let taken = steps.take(end);
    let before = v.after_all(steps.take(end - 1));
    assert(taken.drop_last() =~= steps.take(end - 1));
    assert(taken.last() == steps[end - 1]);
    assert(steps[end - 1].possible(before));
    lemma_step_and_the_name(before, steps[end - 1], latest);
    if n < end - 1 {
        lemma_session_id_waits(v, steps, n, end - 1, latest);
    }
}

/// That a session can be joined is reported exactly once for each session that is hosted without a
/// rendezvous server, and for each word from a rendezvous server. So, once a session is hosted with
/// hole punching, and as long as no other is hosted without, it is reported exactly once for each
/// such word.
pub proof fn openings_are_reported_once_each(v: ServerView, steps: Seq<Step>)
    ensures
        v.shared.reports.is_prefix_of(v.after_all(steps).shared.reports),
        openings(
            v.after_all(steps).shared.reports.skip(v.shared.reports.len() as int),
        ).len() == steps.filter(|step: Step| opens_a_session(step)).len(),
    decreases steps.len(),
{
    let opens = |step: Step| opens_a_session(step);
    let is_opening = |report: ReportView|
        report == ReportView::Event(EventView::ConnectionEstablished);
    let start = v.shared.reports.len() as int;
    reveal(Seq::filter);
    if steps.len() == 0 {
        assert(v.shared.reports.skip(start) =~= Seq::empty());
    } else {
        let earlier = steps.drop_last();
        let w = v.after_all(earlier);
        let x = w.after(steps.last());
        openings_are_reported_once_each(v, earlier);
        assert(earlier.push(steps.last()) =~= steps);
        lemma_filter_of_push(earlier, steps.last(), opens);
        lemma_step_reports_openings(w, steps.last());
        let new = x.shared.reports.skip(w.shared.reports.len() as int);
        assert(x.shared.reports.skip(start) =~= w.shared.reports.skip(start) + new);
        Seq::filter_distributes_over_add(w.shared.reports.skip(start), new, is_opening);
    }
}

/// With hole punching, and as long as no further session is hosted, that the session can be joined
/// is reported exactly once for each word from a rendezvous server, and not before the first.
pub proof fn hole_punching_opens_with_each_word(
    v: ServerView,
    rendezvous: SocketAddr,
    steps: Seq<Step>,
)
    requires
        forall|i: int| 0 <= i < steps.len() ==> !starts(#[trigger] steps[i]),
    ensures
        ({
            let w = v.hosting_with(rendezvous).after_all(steps);
            &&& v.shared.reports.is_prefix_of(w.shared.reports)
            &&& openings(w.shared.reports.skip(v.shared.reports.len() as int)).len()
                == steps.filter(
                |step: Step|
                    step matches Step::Read { read: ReadView::Message { payload, .. }, .. }
                        && payload is HostingReceived,
            ).len()
        }),
{
    let opens = |step: Step| opens_a_session(step);
    let is_word = |step: Step|
        step matches Step::Read { read: ReadView::Message { payload, .. }, .. } && payload
            is HostingReceived;
    openings_are_reported_once_each(v.hosting_with(rendezvous), steps);
    lemma_same_filter(steps, opens, is_word);
}

/// Filters that agree on the items leave the same.
proof fn lemma_same_filter(steps: Seq<Step>, p: spec_fn(Step) -> bool, q: spec_fn(Step) -> bool)
    requires
        forall|i: int| 0 <= i < steps.len() ==> p(#[trigger] steps[i]) == q(steps[i]),
    ensures
        steps.filter(p) == steps.filter(q),
    decreases steps.len(),
{
    reveal(Seq::filter);
    if steps.len() > 0 {
        let earlier = steps.drop_last();
        assert forall|i: int| 0 <= i < earlier.len() implies p(#[trigger] earlier[i]) == q(
            earlier[i],
        ) by {
            assert(p(steps[i]) == q(steps[i]));
        }
        lemma_same_filter(earlier, p, q);
        assert(p(steps[steps.len() - 1]) == q(steps[steps.len() - 1]));
    }
}

proof fn lemma_step_reports_openings(v: ServerView, step: Step)
    ensures
        v.shared.reports.is_prefix_of(v.after(step).shared.reports),
        openings(
            v.after(step).shared.reports.skip(v.shared.reports.len() as int),
        ).len() == if opens_a_session(step) {
            1nat
        } else {
            0
        },
{
    let is_opening = |report: ReportView|
        report == ReportView::Event(EventView::ConnectionEstablished);
    let none = Seq::<ReportView>::empty();
    let new = v.after(step).shared.reports.skip(v.shared.reports.len() as int);
    reveal(Seq::filter);
    assert(new.len() <= 2);
    if new.len() == 0 {
        assert(new =~= none);
    } else if new.len() == 1 {
        assert(new =~= none.push(new[0]));
        lemma_filter_of_push(none, new[0], is_opening);
    } else {
        assert(new =~= none.push(new[0]).push(new[1]));
        lemma_filter_of_push(none, new[0], is_opening);
        lemma_filter_of_push(none.push(new[0]), new[1], is_opening);
    }
}

} // verus!
