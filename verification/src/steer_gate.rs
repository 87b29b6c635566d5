//! Admission gate for non-interrupting subagent steers.
//!
//! A child runner may only finish after it has observed that no steer
//! admission is in flight and no committed steer arrived since its current
//! provider-turn boundary. This module holds the steer barrier's state and every
//! decision over it; the caller serializes access and parks a waiter when
//! [`SubagentSteerGate::settle_idle`] asks it to wait.

use vstd::prelude::*;

verus! {

/// Decision returned at a child runner's final idle boundary.
#[derive(Clone, Copy, Debug, PartialEq, Eq)]
pub enum IdleDecision {
    /// A steer committed after the boundary snapshot; start another loop.
    Continue,
    /// No admission can still commit; the child may finish safely.
    Close,
}

/// The admission state of one subagent runner.
#[derive(Debug, Default)]
pub struct SubagentSteerGate {
    epoch: u64,
    reservations: usize,
    closed: bool,
}

/// An in-flight admission permit obtained from [`SubagentSteerGate::reserve`].
/// It is consumed either by [`SteerReservation::commit`] or by
/// [`SteerReservation::abort`].
#[derive(Debug)]
pub struct SteerReservation {
    _private: (),
}

impl SubagentSteerGate {
    /// Committed-admission generation.
    pub closed spec fn epoch_spec(&self) -> u64 {
        self.epoch
    }

    /// Admissions reserved but neither committed nor aborted.
    pub closed spec fn in_flight(&self) -> nat {
        self.reservations as nat
    }

    /// The steer barrier no longer admits steers.
    pub closed spec fn is_closed_spec(&self) -> bool {
        self.closed
    }

    /// The steer barrier after a successful reservation.
    pub closed spec fn reserved(self) -> Self {
        SubagentSteerGate { reservations: (self.reservations + 1) as usize, ..self }
    }

    /// A reservation is granted: the steer barrier is open and the count fits.
    pub closed spec fn admits(self) -> bool {
        !self.closed && self.reservations < usize::MAX
    }

    /// The steer barrier after one reservation resolves (commit or abort).
    pub closed spec fn released(self) -> Self {
        SubagentSteerGate {
            reservations: if self.reservations > 0 {
                (self.reservations - 1) as usize
            } else {
                0
            },
            ..self
        }
    }

    /// The steer barrier after a reservation commits: released, and a new epoch
    /// when the steer barrier is still open.
    pub closed spec fn committed(self) -> Self {
        let r = self.released();
        if self.closed {
            r
        } else {
            SubagentSteerGate {
                epoch: if self.epoch < u64::MAX {
                    (self.epoch + 1) as u64
                } else {
                    self.epoch
                },
                ..r
            }
        }
    }

    /// The decision at an idle boundary that observed `observed`.
    pub closed spec fn decision(self, observed: u64) -> Option<IdleDecision> {
        if self.closed {
            Some(IdleDecision::Close)
        } else if self.epoch != observed {
            Some(IdleDecision::Continue)
        } else if self.reservations == 0 {
            Some(IdleDecision::Close)
        } else {
            None
        }
    }

    /// The steer barrier after settling an idle boundary.
    pub closed spec fn settled(self, observed: u64) -> Self {
        if !self.closed && self.epoch == observed && self.reservations == 0 {
            SubagentSteerGate { closed: true, ..self }
        } else {
            self
        }
    }

    /// The steer barrier after a forced close.
    pub closed spec fn forced_closed(self) -> Self {
        SubagentSteerGate { closed: true, ..self }
    }

    /// A fresh, open gate.
    pub fn new() -> (g: Self)
        ensures
            g.epoch_spec() == 0,
            g.in_flight() == 0,
            !g.is_closed_spec(),
    {
        SubagentSteerGate { epoch: 0, reservations: 0, closed: false }
    }

    /// Reserve one admission before starting the asynchronous store write.
    /// `None` once the child has crossed its terminal boundary.
    pub fn reserve(&mut self) -> (r: Option<SteerReservation>)
        ensures
            r is Some == old(self).admits(),
            *final(self) == if old(self).admits() {
                old(self).reserved()
            } else {
                *old(self)
            },
    {
        if self.closed || self.reservations == usize::MAX {
            return None;
        }
        self.reservations = self.reservations + 1;
        Some(SteerReservation { _private: () })
    }

    /// Snapshot the committed-admission generation before polling the store.
    pub fn epoch(&self) -> (e: u64)
        ensures
            e == self.epoch_spec(),
    {
        self.epoch
    }

    /// Settle the final idle boundary: `Close` when the steer barrier is closed, or
    /// when no admission is in flight and none committed since
    /// `observed_epoch` (the steer barrier then closes); `Continue` when a steer
    /// committed since then; `None` when an admission is still in flight and
    /// the caller must wait for it to resolve and ask again.
    pub fn settle_idle(&mut self, observed_epoch: u64) -> (d: Option<IdleDecision>)
        ensures
            d == old(self).decision(observed_epoch),
            *final(self) == old(self).settled(observed_epoch),
    {
        if self.closed {
            Some(IdleDecision::Close)
        } else if self.epoch != observed_epoch {
            Some(IdleDecision::Continue)
        } else if self.reservations == 0 {
            self.closed = true;
            Some(IdleDecision::Close)
        } else {
            None
        }
    }

    /// Stop accepting steers on hard-cancel and forced-cleanup paths.
    pub fn force_close(&mut self)
        ensures
            *final(self) == old(self).forced_closed(),
    {
        self.closed = true;
    }

    /// Whether the steer barrier has closed.
    pub fn is_closed(&self) -> (b: bool)
        ensures
            b == self.is_closed_spec(),
    {
        self.closed
    }
}

impl SteerReservation {
    /// Publish the completed store write. `false` means a force-close won
    /// the race; the caller must delete the just-written input.
    pub fn commit(self, gate: &mut SubagentSteerGate) -> (accepted: bool)
        ensures
            accepted == !old(gate).is_closed_spec(),
            *final(gate) == old(gate).committed(),
    {
        if gate.reservations > 0 {
            gate.reservations = gate.reservations - 1;
        }
        if gate.closed {
            false
        } else {
            if gate.epoch < u64::MAX {
                gate.epoch = gate.epoch + 1;
            }
            true
        }
    }

    /// Give the admission up without publishing anything (the permit was
    /// dropped).
    pub fn abort(self, gate: &mut SubagentSteerGate)
        ensures
            *final(gate) == old(gate).released(),
    {
        if gate.reservations > 0 {
            gate.reservations = gate.reservations - 1;
        }
    }
}

/// Law: a steer committed after the boundary snapshot forces another loop
/// instead of a close, and leaves the steer barrier open.
pub proof fn committed_admission_forces_another_boundary(g: SubagentSteerGate)
    requires
        g.admits(),
        g.epoch_spec() < u64::MAX,
    ensures
        ({
            let observed = g.epoch_spec();
            let after = g.reserved().committed();
            &&& after.decision(observed) == Some(IdleDecision::Continue)
            &&& !after.settled(observed).is_closed_spec()
        }),
{
}

/// Law: while an admission is in flight the idle boundary waits; once it
/// commits, the boundary continues instead of closing.
pub proof fn idle_waits_for_an_in_flight_admission(g: SubagentSteerGate)
    requires
        g.admits(),
        g.epoch_spec() < u64::MAX,
    ensures
        ({
            let observed = g.epoch_spec();
            let pending = g.reserved();
            &&& pending.decision(observed) is None
            &&& pending.settled(observed) == pending
            &&& pending.committed().decision(observed) == Some(IdleDecision::Continue)
        }),
{
}

/// Law: an idle boundary with nothing in flight and nothing committed
/// closes the steer barrier, and a closed gate admits no late steer.
pub proof fn close_rejects_late_admission(g: SubagentSteerGate)
    requires
        !g.is_closed_spec(),
        g.in_flight() == 0,
    ensures
        g.decision(g.epoch_spec()) == Some(IdleDecision::Close),
        g.settled(g.epoch_spec()).is_closed_spec(),
        !g.settled(g.epoch_spec()).admits(),
{
}

/// Law: a forced close makes an existing reservation fail its commit and
/// rejects every later reservation.
pub proof fn force_close_fails_pending_commit(g: SubagentSteerGate)
    requires
        g.admits(),
    ensures
        g.reserved().forced_closed().is_closed_spec(),
        !g.reserved().forced_closed().admits(),
        g.reserved().forced_closed().committed().is_closed_spec(),
        g.reserved().forced_closed().committed().epoch_spec() == g.epoch_spec(),
        g.reserved().forced_closed().committed().decision(g.epoch_spec()) == Some(
            IdleDecision::Close,
        ),
{
}

/// Law: a closed gate stays closed under every operation.
pub proof fn closed_is_terminal(g: SubagentSteerGate, observed: u64)
    requires
        g.is_closed_spec(),
    ensures
        !g.admits(),
        g.released().is_closed_spec(),
        g.committed().is_closed_spec(),
        g.committed().epoch_spec() == g.epoch_spec(),
        g.settled(observed) == g,
        g.decision(observed) == Some(IdleDecision::Close),
        g.forced_closed().is_closed_spec(),
{
}

/// Law: the idle-boundary decision in terms of epoch, in-flight count and
/// closed flag. Closed: close. Open with a newer epoch: continue, gate
/// unchanged. Open, same epoch, none in flight: close, and no reservation
/// or commit succeeds later. Otherwise: wait, gate unchanged.
pub proof fn settle_idle_law(g: SubagentSteerGate, observed: u64)
    ensures
        g.admits() <==> (!g.is_closed_spec() && g.in_flight() < usize::MAX),
        g.is_closed_spec() ==> g.decision(observed) == Some(IdleDecision::Close) && g.settled(
            observed,
        ) == g,
        !g.is_closed_spec() && g.epoch_spec() != observed ==> g.decision(observed) == Some(
            IdleDecision::Continue,
        ) && g.settled(observed) == g,
        !g.is_closed_spec() && g.epoch_spec() == observed && g.in_flight() == 0 ==> {
            &&& g.decision(observed) == Some(IdleDecision::Close)
            &&& g.settled(observed).is_closed_spec()
            &&& !g.settled(observed).admits()
            &&& g.settled(observed).released().is_closed_spec()
            &&& g.settled(observed).committed().is_closed_spec()
        },
        !g.is_closed_spec() && g.epoch_spec() == observed && g.in_flight() > 0 ==> g.decision(
            observed,
        ) is None && g.settled(observed) == g,
{
}

/// Law: the epoch never goes back, and a commit on an open gate moves it
/// forward (until it saturates), so a snapshot taken before a commit never
/// matches the epoch after it.
pub proof fn epoch_only_grows(g: SubagentSteerGate, observed: u64)
    ensures
        g.reserved().epoch_spec() == g.epoch_spec(),
        g.released().epoch_spec() == g.epoch_spec(),
        g.settled(observed).epoch_spec() == g.epoch_spec(),
        g.forced_closed().epoch_spec() == g.epoch_spec(),
        g.committed().epoch_spec() >= g.epoch_spec(),
        !g.is_closed_spec() && g.epoch_spec() < u64::MAX ==> g.committed().epoch_spec() == g.epoch_spec() + 1,
        g.reserved().in_flight() == g.in_flight() + 1 || !g.admits(),
        g.in_flight() > 0 ==> g.released().in_flight() == g.in_flight() - 1 && g.committed().in_flight() == g.in_flight() - 1,
{
}

} // verus!
