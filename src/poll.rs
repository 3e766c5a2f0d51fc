//! The polling bridge: a non-blocking probe plus a readiness source, turned
//! into one suspension point.

use vstd::prelude::*;

use axerrno::{AxError, AxResult};
use axpoll::IoEvents;

verus! {

#[verifier::external_type_specification]
#[verifier::external_body]
pub struct ExAxError(AxError);

#[verifier::external_type_specification]
#[verifier::external_body]
pub struct ExIoEvents(IoEvents);

/// The code of an error, as `AxError::code` returns it.
pub uninterp spec fn error_code(e: AxError) -> i32;

/// The code of axerrno's `WouldBlock` kind.
pub const WOULD_BLOCK_CODE: i32 = 42;

/// The code of axerrno's `TimedOut` kind.
pub const TIMED_OUT_CODE: i32 = 38;

/// Whether `e` is axerrno's `WouldBlock`: the operation has to wait.
pub open spec fn would_block(e: AxError) -> bool {
    error_code(e) == WOULD_BLOCK_CODE
}

/// Relies on axerrno's `AxError`: equality compares codes, and the
/// `WouldBlock` constant has the code of its kind.
#[verifier::external_body]
fn is_would_block(e: &AxError) -> (r: bool)
    ensures
        r == (error_code(*e) == WOULD_BLOCK_CODE),
{
    *e == AxError::WouldBlock
}

/// What one run of the probe reported.
pub enum Probe<T> {
    /// The operation completed.
    Ready(T),
    /// The operation has to wait; the error it reported.
    WouldBlock(AxError),
    /// The operation failed otherwise.
    Failed(AxError),
}

/// The classification of a probe result.
pub open spec fn probe_of<T>(r: AxResult<T>) -> Probe<T> {
    match r {
        Ok(v) => Probe::Ready(v),
        Err(e) => if would_block(e) {
            Probe::WouldBlock(e)
        } else {
            Probe::Failed(e)
        },
    }
}

/// Sorts a probe result into completion, waiting and failure.
pub fn classify<T>(r: AxResult<T>) -> (p: Probe<T>)
    ensures
        p == probe_of(r),
{
    match r {
        Ok(v) => Probe::Ready(v),
        Err(e) => {
            if is_would_block(&e) {
                Probe::WouldBlock(e)
            } else {
                Probe::Failed(e)
            }
        },
    }
}

/// Where a poll of the bridge stands: about to run the probe the first time,
/// or about to run it again after registering with the readiness source.
pub enum PollPhase {
    Probe,
    Recheck,
}

/// What the bridge does after a probe.
pub enum PollStep<T> {
    /// The poll completes with this result.
    Done(AxResult<T>),
    /// Register with the readiness source, then probe again (phase `Recheck`).
    RegisterAndRetry,
    /// Stay pending until the readiness source wakes the poller, which then
    /// starts over at phase `Probe`.
    Pending,
}

/// The step that follows a probe in a given phase.
pub open spec fn poll_step<T>(phase: PollPhase, probe: Probe<T>, non_blocking: bool) -> PollStep<T> {
    match probe {
        Probe::Ready(v) => PollStep::Done(Ok(v)),
        Probe::Failed(e) => PollStep::Done(Err(e)),
        Probe::WouldBlock(e) => match phase {
            PollPhase::Probe => if non_blocking {
                PollStep::Done(Err(e))
            } else {
                PollStep::RegisterAndRetry
            },
            PollPhase::Recheck => PollStep::Pending,
        },
    }
}

/// Wraps a readiness source and a non-blocking operation into one poll.
pub struct Poller<'a, P, F> {
    pollable: &'a P,
    events: IoEvents,
    f: F,
    non_blocking: bool,
}

impl<'a, P, F> Poller<'a, P, F> {
    /// Whether a would-block result ends the poll instead of suspending it.
    pub closed spec fn spec_non_blocking(&self) -> bool {
        self.non_blocking
    }

    /// The readiness source.
    pub closed spec fn spec_pollable(&self) -> &'a P {
        self.pollable
    }

    /// The events to wait for.
    pub closed spec fn spec_events(&self) -> IoEvents {
        self.events
    }

    /// The probe.
    pub closed spec fn spec_probe(&self) -> F {
        self.f
    }

    /// A blocking poller over `pollable`, waiting for `events`, probing with `f`.
    pub fn new(pollable: &'a P, events: IoEvents, f: F) -> (r: Self)
        ensures
            r.spec_pollable() == pollable,
            r.spec_events() == events,
            r.spec_probe() == f,
            !r.spec_non_blocking(),
    {
        Poller { pollable, events, f, non_blocking: false }
    }

    /// The same poller, in non-blocking mode or not.
    pub fn non_blocking(self, non_blocking: bool) -> (r: Self)
        ensures
            r.spec_pollable() == self.spec_pollable(),
            r.spec_events() == self.spec_events(),
            r.spec_probe() == self.spec_probe(),
            r.spec_non_blocking() == non_blocking,
    {
        let mut s = self;
        s.non_blocking = non_blocking;
        s
    }

    /// Whether the poller is in non-blocking mode.
    pub fn is_non_blocking(&self) -> (r: bool)
        ensures
            r == self.spec_non_blocking(),
    {
        self.non_blocking
    }

    /// The readiness source.
    pub fn pollable(&self) -> (r: &'a P)
        ensures
            r == self.spec_pollable(),
    {
        self.pollable
    }

    /// The events to wait for.
    pub fn events(&self) -> (r: IoEvents)
        ensures
            r == self.spec_events(),
    {
        self.events
    }

    /// The probe, to run it.
    pub fn probe_mut(&mut self) -> (r: &mut F)
        ensures
            *r == old(self).spec_probe(),
            final(self).spec_probe() == *final(r),
            final(self).spec_pollable() == old(self).spec_pollable(),
            final(self).spec_events() == old(self).spec_events(),
            final(self).spec_non_blocking() == old(self).spec_non_blocking(),
    {
        &mut self.f
    }

    /// The step after a classified probe in `phase`: a result or a failure
    /// ends the poll; a would-block result registers and probes once more
    /// (or ends the poll in non-blocking mode), and after that second probe
    /// it leaves the poll pending.
    pub fn decide<T>(&self, phase: PollPhase, probe: Probe<T>) -> (r: PollStep<T>)
        ensures
            r == poll_step(phase, probe, self.spec_non_blocking()),
    {
        match probe {
            Probe::Ready(v) => PollStep::Done(Ok(v)),
            Probe::Failed(e) => PollStep::Done(Err(e)),
            Probe::WouldBlock(e) => match phase {
                PollPhase::Probe => {
                    if self.non_blocking {
                        PollStep::Done(Err(e))
                    } else {
                        PollStep::RegisterAndRetry
                    }
                },
                PollPhase::Recheck => PollStep::Pending,
            },
        }
    }

    /// The step after the probe returned `result` in `phase`.
    pub fn step<T>(&self, phase: PollPhase, result: AxResult<T>) -> (r: PollStep<T>)
        ensures
            r == poll_step(phase, probe_of(result), self.spec_non_blocking()),
    {
        self.decide(phase, classify(result))
    }
}

} // verus!
