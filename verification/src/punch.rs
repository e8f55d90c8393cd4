//! Hole punching: the peers that are sent a handshake again and again until they answer.
use crate::addr::SocketAddr;
use crate::model::{due, punches_after_tick, punches_without, ticked};
use crate::seqs::{lemma_filter_of_push, lemma_map_of_push, lemma_next_prefix};
use vstd::prelude::*;

verus! {

/// How long a peer is left alone after a handshake has been sent to it: one second, in nanoseconds.
pub const PUNCH_INTERVAL: u128 = 1_000_000_000;

/// A peer that is to be reached.
#[derive(Clone, Copy, Debug, PartialEq, Eq, Structural)]
pub struct HolePunchSession {
    /// Where the handshakes go.
    pub addr: SocketAddr,
    /// When the last handshake was sent, in nanoseconds on a clock that does not run backwards.
    pub timer: Option<u128>,
    /// How many handshakes have been sent.
    pub retries: u8,
}

impl HolePunchSession {
    /// A peer that has not been sent anything.
    pub fn new(addr: SocketAddr) -> (session: Self)
        ensures
            session == (HolePunchSession { addr, timer: None, retries: 0 }),
    {
        HolePunchSession { addr, timer: None, retries: 0 }
    }

    /// Whether a handshake is to be sent: none has been, or the last is at least a second old.
    pub fn is_due(&self, now: u128) -> (answer: bool)
        ensures
            answer == due(*self, now),
    {
        match self.timer {
            Some(timer) => timer <= now && PUNCH_INTERVAL <= now - timer,
            None => true,
        }
    }

    /// Counts a handshake that is sent now.
    pub fn count_handshake(&mut self, now: u128)
        requires
            due(*old(self), now),
            old(self).retries < u8::MAX,
        ensures
            *final(self) == ticked(*old(self), now),
    {
        self.retries = self.retries + 1;
        self.timer = Some(now);
    }
}

/// Looks at the clock for all of `sessions`: counts a handshake for each that is due, and gives up
/// those that have had `max_punch_retries`. Returns where handshakes are to be sent.
pub fn tick_all(sessions: &mut Vec<HolePunchSession>, now: u128, max_punch_retries: u8) -> (targets:
    Vec<SocketAddr>)
    requires
        forall|i: int|
            0 <= i < old(sessions).len() ==> #[trigger] old(sessions)[i].retries
                < max_punch_retries,
    ensures
        final(sessions)@ == punches_after_tick(old(sessions)@, now, max_punch_retries),
        targets@ == old(sessions)@.filter(
            |session: HolePunchSession| due(session, now),
        ).map_values(|session: HolePunchSession| session.addr),
{
    let ghost all = old(sessions)@;
    let ghost is_due = |session: HolePunchSession| due(session, now);
    let ghost addr = |session: HolePunchSession| session.addr;
    let ghost tick = |session: HolePunchSession| ticked(session, now);
    let ghost keep = |session: HolePunchSession| session.retries != max_punch_retries;
    let mut kept: Vec<HolePunchSession> = Vec::new();
    let mut targets: Vec<SocketAddr> = Vec::new();
    let mut i: usize = 0;
    proof {
        reveal(Seq::filter);
        assert(all.take(0) =~= Seq::empty());
        assert(all.take(0).map_values(tick) =~= Seq::empty());
        assert(all.take(0).filter(is_due).map_values(addr) =~= Seq::empty());
    }
    while i < sessions.len()
        invariant
            i <= sessions.len(),
            sessions@ == all,
            forall|j: int| 0 <= j < all.len() ==> #[trigger] all[j].retries < max_punch_retries,
            is_due == (|session: HolePunchSession| due(session, now)),
            addr == (|session: HolePunchSession| session.addr),
            tick == (|session: HolePunchSession| ticked(session, now)),
            keep == (|session: HolePunchSession| session.retries != max_punch_retries),
            kept@ == all.take(i as int).map_values(tick).filter(keep),
            targets@ == all.take(i as int).filter(is_due).map_values(addr),
        decreases sessions.len() - i,
    {
        let mut session = sessions[i];
        proof {
            let before = all.take(i as int);
            lemma_next_prefix(all, i as int);
            lemma_map_of_push(before, session, tick);
            lemma_filter_of_push(before.map_values(tick), ticked(session, now), keep);
            lemma_filter_of_push(before, session, is_due);
            lemma_map_of_push(before.filter(is_due), session, addr);
        }
        if session.is_due(now) {
            targets.push(session.addr);
            session.count_handshake(now);
        }
        if session.retries != max_punch_retries {
            kept.push(session);
        }
        i = i + 1;
    }
    proof {
        assert(all.take(all.len() as int) =~= all);
    }
    *sessions = kept;
    targets
}

/// Drops the sessions of a peer that has been reached.
pub fn drop_reached(sessions: &mut Vec<HolePunchSession>, addr: SocketAddr)
    ensures
        final(sessions)@ == punches_without(old(sessions)@, addr),
{
    let ghost all = old(sessions)@;
    let ghost keep = |session: HolePunchSession| session.addr != addr;
    let mut kept: Vec<HolePunchSession> = Vec::new();
    let mut i: usize = 0;
    proof {
        reveal(Seq::filter);
        assert(all.take(0) =~= Seq::empty());
    }
    while i < sessions.len()
        invariant
            i <= sessions.len(),
            sessions@ == all,
            keep == (|session: HolePunchSession| session.addr != addr),
            kept@ == all.take(i as int).filter(keep),
        decreases sessions.len() - i,
    {
        let session = sessions[i];
        proof {
            lemma_next_prefix(all, i as int);
            lemma_filter_of_push(all.take(i as int), session, keep);
        }
        if session.addr != addr {
            kept.push(session);
        }
        i = i + 1;
    }
    proof {
        assert(all.take(all.len() as int) =~= all);
    }
    *sessions = kept;
}

} // verus!
