//! The channel operations that the library calls.
//!
//! Two channels join the server and the application: one carries payloads that the application
//! wants sent to the clients, the other carries reports to the application. What a channel holds at
//! a given moment depends on the threads at its other ends, so nothing is said of that here. What
//! the contracts speak of is what the library does at one end: each message that it hands to a
//! sending end, and each answer that it gets from a receiving end.
use crate::payload::{PayloadView, Payloads, ReceiveMessage, ReportView};
use crossbeam_channel::{Receiver, Sender};
use vstd::prelude::*;

verus! {

/// `crossbeam_channel::Sender`, the sending end of a channel.
#[verifier::external_type_specification]
#[verifier::external_body]
#[verifier::reject_recursive_types(T)]
pub struct ExSender<T>(crossbeam_channel::Sender<T>);

/// `crossbeam_channel::Receiver`, the receiving end of a channel.
#[verifier::external_type_specification]
#[verifier::external_body]
#[verifier::reject_recursive_types(T)]
pub struct ExReceiver<T>(crossbeam_channel::Receiver<T>);

/// The payloads that the library has handed to `try_send` on this end, oldest first, whether the
/// channel took them or, with nobody left to receive, refused them.
pub uninterp spec fn payloads_given(tx: Sender<Payloads>) -> Seq<PayloadView>;

/// The reports that the library has handed to `try_send` on this end, oldest first, whether the
/// channel took them or, with nobody left to receive, refused them.
pub uninterp spec fn reports_given(tx: Sender<ReceiveMessage>) -> Seq<ReportView>;

/// What `try_recv` on this end has answered to the library, oldest first: a payload, or that there is
/// none.
pub uninterp spec fn payload_answers(rx: Receiver<Payloads>) -> Seq<Option<PayloadView>>;

/// Whether this end was made by copying another. The library puts payloads in at the first end alone;
/// the copies are for the application.
pub uninterp spec fn payload_copy(tx: Sender<Payloads>) -> bool;

/// Whether the two are ends of one channel, so that what goes in at `tx` can come out at `rx`.
pub uninterp spec fn payload_ends(tx: Sender<Payloads>, rx: Receiver<Payloads>) -> bool;

/// Whether the two are ends of one channel, so that what goes in at `tx` can come out at `rx`.
pub uninterp spec fn report_ends(
    tx: Sender<ReceiveMessage>,
    rx: Receiver<ReceiveMessage>,
) -> bool;

/// Calls `crossbeam_channel::unbounded` for a channel of payloads.
///
/// Claimed of it: the two results are ends of one channel, neither has been used by the library, and
/// the sending end is no copy.
#[verifier::external_body]
pub(crate) fn payload_channel() -> (ends: (Sender<Payloads>, Receiver<Payloads>))
    ensures
        payload_ends(ends.0, ends.1),
        !payload_copy(ends.0),
        payloads_given(ends.0) == Seq::<PayloadView>::empty(),
        payload_answers(ends.1) == Seq::<Option<PayloadView>>::empty(),
{
    crossbeam_channel::unbounded()
}

/// Calls `crossbeam_channel::unbounded` for a channel of reports.
///
/// Claimed of it: the two results are ends of one channel, and the library has handed nothing to
/// the sending end.
#[verifier::external_body]
pub(crate) fn report_channel() -> (ends: (Sender<ReceiveMessage>, Receiver<ReceiveMessage>))
    ensures
        report_ends(ends.0, ends.1),
        reports_given(ends.0) == Seq::<ReportView>::empty(),
{
    crossbeam_channel::unbounded()
}

/// Calls `crossbeam_channel::Sender::try_send` with a payload, and ignores whether the channel took
/// it.
///
/// Claimed of it: this payload, and no other, has been handed to the end, which stays an end of the
/// same channel and is still no copy. An end that is a copy is left out, so that what the library
/// puts into a channel is what `payloads_given` says of the first end. When, and by whom, the
/// payload is received is left unsaid: that is up to the threads that hold a receiving end.
#[verifier::external_body]
pub(crate) fn give_payload(tx: &mut Sender<Payloads>, payload: Payloads)
    requires
        !payload_copy(*old(tx)),
    ensures
        !payload_copy(*final(tx)),
        payloads_given(*final(tx)) == payloads_given(*old(tx)).push(payload@),
        forall|rx: Receiver<Payloads>| #[trigger]
            payload_ends(*final(tx), rx) == payload_ends(*old(tx), rx),
{
    tx.try_send(payload).ok();
}

/// Calls `crossbeam_channel::Sender::try_send` with a report, and ignores whether the channel took
/// it.
///
/// Claimed of it: this report, and no other, has been handed to the end, which stays an end of the
/// same channel. When, and by whom, the report is received is left unsaid: that is up to the threads
/// that hold a receiving end.
#[verifier::external_body]
pub(crate) fn give_report(tx: &mut Sender<ReceiveMessage>, report: ReceiveMessage)
    ensures
        reports_given(*final(tx)) == reports_given(*old(tx)).push(report@),
        forall|rx: Receiver<ReceiveMessage>| #[trigger]
            report_ends(*final(tx), rx) == report_ends(*old(tx), rx),
{
    tx.try_send(report).ok();
}

/// Calls `crossbeam_channel::Receiver::try_recv`; nothing comes back when the channel is empty, or
/// empty with no sending end left.
///
/// Claimed of it: what comes back is the one more answer of this end, which stays an end of the same
/// channel. Whether a payload is there, and which, is up to the threads that hold a sending
/// end.
#[verifier::external_body]
pub(crate) fn take_payload(rx: &mut Receiver<Payloads>) -> (taken: Option<Payloads>)
    ensures
        payload_answers(*final(rx)) == payload_answers(*old(rx)).push(
            match taken {
                Some(payload) => Some(payload@),
                None => None,
            },
        ),
        forall|tx: Sender<Payloads>| #[trigger]
            payload_ends(tx, *final(rx)) == payload_ends(tx, *old(rx)),
{
    rx.try_recv().ok()
}

/// Calls `Clone::clone` of `crossbeam_channel::Sender`.
///
/// Claimed of it: the copy is an end of the same channel, is known to be a copy, and the library has
/// handed nothing to it.
#[verifier::external_body]
pub(crate) fn another_payload_sender(tx: &Sender<Payloads>) -> (copy: Sender<Payloads>)
    ensures
        payload_copy(copy),
        payloads_given(copy) == Seq::<PayloadView>::empty(),
        forall|rx: Receiver<Payloads>| #[trigger] payload_ends(copy, rx) == payload_ends(*tx, rx),
{
    tx.clone()
}

/// Calls `Clone::clone` of `crossbeam_channel::Receiver`.
///
/// Claimed of it: the copy is an end of the same channel.
#[verifier::external_body]
pub(crate) fn another_report_receiver(rx: &Receiver<ReceiveMessage>) -> (copy: Receiver<
    ReceiveMessage,
>)
    ensures
        forall|tx: Sender<ReceiveMessage>| #[trigger] report_ends(tx, copy) == report_ends(tx, *rx),
{
    rx.clone()
}

} // verus!
