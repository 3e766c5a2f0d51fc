//! Wait queues: listeners released by explicit notification, and the
//! decisions of the waits built on them.

use vstd::prelude::*;

use event_listener::Event;

verus! {

#[verifier::external_type_specification]
#[verifier::external_body]
#[verifier::reject_recursive_types(T)]
pub struct ExEvent<T>(Event<T>);

/// Relies on event_listener's `Event::new`: an event with no listeners.
#[verifier::external_body]
fn new_event() -> Event {
    Event::new()
}

/// Relies on event_listener's `Event::notify`: it notifies at most `n`
/// listeners and returns how many it newly notified.
#[verifier::external_body]
fn notify_event(event: &Event, n: usize) -> (r: usize)
    ensures
        r <= n,
{
    event.notify(n)
}

/// A queue of waiters, released by `notify_one` and `notify_all`.
pub struct WaitQueue {
    event: Event,
}

impl WaitQueue {
    /// An empty wait queue.
    pub fn new() -> Self {
        WaitQueue { event: new_event() }
    }

    /// The event that waiters listen on.
    pub fn event(&self) -> &Event {
        &self.event
    }

    /// Notifies at most `n` waiters not yet notified; returns how many it
    /// notified.
    pub fn notify(&self, n: usize) -> (r: usize)
        ensures
            r <= n,
    {
        notify_event(&self.event, n)
    }

    /// Releases at most one waiter; returns whether one was released.
    pub fn notify_one(&self) -> bool {
        released_any(self.notify(1))
    }

    /// Releases every current waiter.
    pub fn notify_all(&self) {
        let _ = self.notify(usize::MAX);
    }
}

/// Whether a notification for one waiter released one, from the count that
/// `notify` returned.
pub fn released_any(notified: usize) -> (r: bool)
    requires
        notified <= 1,
    ensures
        r == (notified > 0),
{
    notified > 0
}

/// Where `wait_until` stands: not listening yet, or listening (registered
/// before the condition was checked again).
pub enum WaitPhase {
    Unregistered,
    Registered,
}

/// What `wait_until` does next.
pub enum WaitStep {
    /// The condition holds: return.
    Done,
    /// Register a listener, then check the condition again.
    Register,
    /// Suspend until the listener is notified, then start over unregistered.
    Suspend,
}

/// The step of `wait_until` after checking the condition in `phase`.
pub open spec fn wait_until_action(phase: WaitPhase, condition: bool) -> WaitStep {
    if condition {
        WaitStep::Done
    } else {
        match phase {
            WaitPhase::Unregistered => WaitStep::Register,
            WaitPhase::Registered => WaitStep::Suspend,
        }
    }
}

/// One step of `wait_until`: return once the condition holds; otherwise
/// register before the second check, and suspend only when the condition is
/// still false after registering.
pub fn wait_until_step(phase: WaitPhase, condition: bool) -> (r: WaitStep)
    ensures
        r == wait_until_action(phase, condition),
{
    if condition {
        WaitStep::Done
    } else {
        match phase {
            WaitPhase::Unregistered => WaitStep::Register,
            WaitPhase::Registered => WaitStep::Suspend,
        }
    }
}

/// The deadline of a timed wait of `duration` started at `now`, fixed once
/// at the start so that repeated wake-ups cannot extend it.
pub fn wait_deadline(now: u64, duration: u64) -> (r: u64)
    requires
        now + duration <= u64::MAX,
    ensures
        r == now + duration,
{
    now + duration
}

/// What `wait_timeout_until` does next.
pub enum TimedWaitStep {
    /// The condition holds: return, not timed out.
    Satisfied,
    /// The deadline has passed: return, timed out.
    TimedOut,
    /// Listen, and wait for a notification or the deadline.
    Listen,
}

/// One step of `wait_timeout_until` at `now`: the condition is checked
/// first, then the deadline.
pub fn wait_timeout_until_step(condition: bool, now: u64, deadline: u64) -> (r: TimedWaitStep)
    ensures
        condition ==> r is Satisfied,
        !condition && now >= deadline ==> r is TimedOut,
        !condition && now < deadline ==> r is Listen,
{
    if condition {
        TimedWaitStep::Satisfied
    } else if now >= deadline {
        TimedWaitStep::TimedOut
    } else {
        TimedWaitStep::Listen
    }
}

/// Whether a timed wait timed out, from the outcome of its race against the
/// deadline.
pub fn wait_timed_out<T, E>(outcome: &Result<T, E>) -> (r: bool)
    ensures
        r == outcome is Err,
{
    outcome.is_err()
}

/// Where a waiter running `wait_until` stands, in the model of its race
/// with a notifier.
pub enum WaiterPhase {
    /// About to check the condition without a listener.
    Unregistered,
    /// Listener registered, about to check the condition again.
    Registered,
    /// Suspended on the listener.
    Suspended,
    /// Returned.
    Done,
}

/// One waiter and one notifier sharing a condition and a wait queue. The
/// condition only becomes true (the notifier sets it, then notifies).
pub struct WaitRace {
    pub phase: WaiterPhase,
    /// The condition the waiter waits for.
    pub condition: bool,
    /// Whether the waiter's current listener has been notified.
    pub listener_notified: bool,
    /// Whether a notification was sent while the condition held.
    pub notified_after_true: bool,
}

/// The moves of the race: a step of the waiter, or of the notifier.
pub enum RaceMove {
    /// The waiter takes its next step of `wait_until`.
    Waiter,
    /// The notifier makes the condition true.
    SetCondition,
    /// The notifier notifies the queue.
    Notify,
}

/// The start of a wait: nothing registered, nothing notified.
pub open spec fn race_start(condition: bool) -> WaitRace {
    WaitRace {
        phase: WaiterPhase::Unregistered,
        condition,
        listener_notified: false,
        notified_after_true: false,
    }
}

/// The state after `m`. The waiter follows `wait_until_action`: registering
/// gives it a fresh listener, and a suspended waiter resumes (and starts
/// over) once its listener is notified. A notification reaches the
/// waiter's listener only while one is registered.
pub open spec fn race_next(s: WaitRace, m: RaceMove) -> WaitRace {
    match m {
        RaceMove::Waiter => match s.phase {
            WaiterPhase::Unregistered => match wait_until_action(WaitPhase::Unregistered, s.condition) {
                WaitStep::Done => WaitRace { phase: WaiterPhase::Done, ..s },
                _ => WaitRace { phase: WaiterPhase::Registered, listener_notified: false, ..s },
            },
            WaiterPhase::Registered => match wait_until_action(WaitPhase::Registered, s.condition) {
                WaitStep::Done => WaitRace { phase: WaiterPhase::Done, ..s },
                _ => WaitRace { phase: WaiterPhase::Suspended, ..s },
            },
            WaiterPhase::Suspended => if s.listener_notified {
                WaitRace { phase: WaiterPhase::Unregistered, ..s }
            } else {
                s
            },
            WaiterPhase::Done => s,
        },
        RaceMove::SetCondition => WaitRace { condition: true, ..s },
        RaceMove::Notify => WaitRace {
            listener_notified: s.listener_notified || s.phase is Registered || s.phase is Suspended,
            notified_after_true: s.notified_after_true || s.condition,
            ..s
        },
    }
}

/// What holds in every reachable state of the race.
pub open spec fn race_invariant(s: WaitRace) -> bool {
    &&& !s.condition ==> !s.notified_after_true
    &&& s.phase is Suspended && s.notified_after_true ==> s.listener_notified
}

/// The waiter can proceed: the condition holds and it is not suspended on
/// a listener that nobody notified.
pub open spec fn waiter_can_finish(s: WaitRace) -> bool {
    s.condition && !(s.phase is Suspended && !s.listener_notified)
}

/// How many steps of its own the waiter still needs, once it can finish.
pub open spec fn steps_left(s: WaitRace) -> nat {
    match s.phase {
        WaiterPhase::Suspended => 2,
        WaiterPhase::Done => 0,
        _ => 1,
    }
}

/// `wait_until` misses no wake-up. It never suspends when the condition
/// holds, and it registers its listener before checking the condition the
/// second time, so in every interleaving of the waiter with a notifier that
/// makes the condition true and then notifies, a waiter still suspended
/// after such a notification has its listener notified. From then on it
/// can finish: moves of the notifier keep it so, and each step of its own
/// brings it closer to returning, which it does within two steps.
pub proof fn lemma_wait_until_misses_no_wakeup(s: WaitRace, m: RaceMove, c: bool)
    requires
        race_invariant(s),
    ensures
        race_invariant(race_start(c)),
        race_invariant(race_next(s, m)),
        wait_until_action(WaitPhase::Unregistered, true) is Done,
        wait_until_action(WaitPhase::Registered, true) is Done,
        s.condition && s.notified_after_true ==> waiter_can_finish(s),
        waiter_can_finish(s) && !(m is Waiter) ==> waiter_can_finish(race_next(s, m)) && race_next(s, m).phase
            == s.phase,
        waiter_can_finish(s) && !(s.phase is Done) ==> waiter_can_finish(race_next(s, RaceMove::Waiter))
            && steps_left(race_next(s, RaceMove::Waiter)) < steps_left(s),
        waiter_can_finish(s) && steps_left(s) == 0 ==> s.phase is Done,
{
}

} // verus!
