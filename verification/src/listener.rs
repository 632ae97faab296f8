//! The accept side: connection id allocation and the accept-loop decisions.
//!
//! The listener loop itself is a driver concern — it races the transport's
//! next connection attempt against a one-shot cancellation signal.  What it
//! decides about each outcome lives here and is verified: a successful
//! attempt is accepted under a fresh, strictly larger connection id; a
//! failed attempt is skipped and the listener keeps accepting, so one bad
//! connection can never bring the listener down; the cancellation signal
//! stops the loop cleanly.
use crate::types::Cid;
use vstd::prelude::*;

verus! {

/// The process-wide connection id counter: ids are handed out strictly
/// increasing and never reused within a process lifetime.
pub struct CidAllocator {
    pub next: Cid,
}

impl CidAllocator {
    /// Counting starts at zero.
    pub fn new() -> (r: CidAllocator)
        ensures
            r.next == 0,
    {
        CidAllocator { next: 0 }
    }

    /// Hand out the next id: larger than every id handed out before, which
    /// are exactly those below `next`.
    pub fn allocate(&mut self) -> (c: Cid)
        requires
            old(self).next < Cid::MAX,
        ensures
            c == old(self).next,
            final(self).next == old(self).next + 1,
    {
        let c = self.next;
        self.next = self.next + 1;
        c
    }
}

/// The ids a counter starting at `n0` hands out over `k` allocations.
pub open spec fn issued_cids(n0: Cid, k: nat) -> Seq<Cid> {
    Seq::new(k, |i: int| (n0 + i) as Cid)
}

/// Connection id monotonicity: however many connections are accepted after
/// the counter stands at `n0`, the ids issued are pairwise distinct,
/// strictly increasing in acceptance order, and each at least `n0` — so
/// strictly greater than every id issued before the counter reached `n0`.
pub proof fn lemma_cid_monotonicity(n0: Cid, k: nat)
    requires
        n0 + k <= Cid::MAX,
    ensures
        forall|i: int, j: int|
            0 <= i < j < k ==> #[trigger] issued_cids(n0, k)[i] < #[trigger] issued_cids(n0, k)[j],
        forall|i: int, j: int|
            0 <= i < j < k ==> #[trigger] issued_cids(n0, k)[i] != #[trigger] issued_cids(
                n0,
                k,
            )[j],
        forall|i: int| 0 <= i < k ==> #[trigger] issued_cids(n0, k)[i] >= n0,
{
}

/// What the accept loop raced and got.
#[derive(Clone, Copy, PartialEq, Eq, Structural, Debug)]
pub enum AcceptEvent {
    /// A connection attempt completed successfully.
    Incoming,
    /// A connection attempt failed (malformed, aborted, reset).
    IncomingFailed,
    /// The one-shot cancellation signal fired.
    Cancelled,
}

/// What the loop does with it.
#[derive(Clone, Copy, PartialEq, Eq, Structural, Debug)]
pub enum AcceptDecision {
    /// Wrap the new connection and publish it under this id.
    Accept(Cid),
    /// Log and skip; keep accepting.
    Skip,
    /// Stop accepting; connections already accepted are unaffected.
    Stop,
}

/// One listener's loop state.
pub struct ListenerState {
    pub running: bool,
}

/// The accept-loop transition: what `ListenerState::step` does, over the
/// loop flag and the id counter.
pub open spec fn listen_model(running: bool, next: Cid, ev: AcceptEvent) -> (
    bool,
    Cid,
    AcceptDecision,
) {
    if !running {
        (false, next, AcceptDecision::Stop)
    } else {
        match ev {
            AcceptEvent::Incoming => (true, (next + 1) as Cid, AcceptDecision::Accept(next)),
            AcceptEvent::IncomingFailed => (true, next, AcceptDecision::Skip),
            AcceptEvent::Cancelled => (false, next, AcceptDecision::Stop),
        }
    }
}

impl ListenerState {
    /// A freshly bound listener, accepting.
    pub fn new() -> (r: ListenerState)
        ensures
            r.running,
    {
        ListenerState { running: true }
    }

    /// Decide what to do with one accept-loop outcome; exactly
    /// `listen_model`.
    pub fn step(&mut self, cids: &mut CidAllocator, ev: AcceptEvent) -> (d: AcceptDecision)
        requires
            old(cids).next < Cid::MAX,
        ensures
            ({
                let m = listen_model(old(self).running, old(cids).next, ev);
                &&& final(self).running == m.0
                &&& final(cids).next == m.1
                &&& d == m.2
            }),
    {
        if !self.running {
            return AcceptDecision::Stop;
        }
        match ev {
            AcceptEvent::Incoming => AcceptDecision::Accept(cids.allocate()),
            AcceptEvent::IncomingFailed => AcceptDecision::Skip,
            AcceptEvent::Cancelled => {
                self.running = false;
                AcceptDecision::Stop
            },
        }
    }
}

/// Listener resilience: a failed connection attempt never stops the
/// listener — after any failure, the next successful attempt is still
/// accepted, under an untouched counter.
pub proof fn lemma_listener_resilience(next: Cid, ev_ok: AcceptEvent)
    requires
        next < Cid::MAX,
        ev_ok == AcceptEvent::Incoming,
    ensures
        ({
            let after_failure = listen_model(true, next, AcceptEvent::IncomingFailed);
            &&& after_failure.0
            &&& after_failure.1 == next
            &&& after_failure.2 == AcceptDecision::Skip
            &&& listen_model(after_failure.0, after_failure.1, ev_ok).2 == AcceptDecision::Accept(
                next,
            )
        }),
{
}

} // verus!
