//! Sleeping on the timer wheel, and racing an operation against a deadline.

use vstd::prelude::*;

use axerrno::AxError;

use crate::poll::{TIMED_OUT_CODE, error_code};
use crate::timer_wheel::{
    TimerEntry, TimerKey, TimerRuntime, completed_in, expired, fired_continuations,
    fresh_entry, with_continuation, without,
};

verus! {

/// A pending sleep: the key of its entry in a timer runtime. Polling it
/// reports whether the entry has fired; dropping it must cancel the entry.
#[derive(Debug)]
pub struct TimerFuture(TimerKey);

impl TimerFuture {
    /// The key of the wheel entry.
    pub closed spec fn timer_key(&self) -> TimerKey {
        self.0
    }

    /// The key of the wheel entry this sleep waits on.
    pub fn key(&self) -> (r: TimerKey)
        ensures
            r == self.timer_key(),
    {
        self.0
    }

    /// One poll of the sleep: ready when its entry has fired (the entry is
    /// then removed); otherwise `waker` becomes the entry's continuation and
    /// the sleep stays pending.
    pub fn poll<W>(&self, rt: &mut TimerRuntime<W>, waker: W) -> (ready: bool)
        requires
            old(rt).wf(),
        ensures
            final(rt).wf(),
            final(rt).next_seq() == old(rt).next_seq(),
            ready == completed_in(old(rt).entries(), self.timer_key()),
            ready ==> final(rt).entries() == without(old(rt).entries(), self.timer_key()),
            !ready ==> final(rt).entries() == with_continuation(old(rt).entries(), self.timer_key(), waker),
    {
        if rt.is_completed(&self.0) {
            true
        } else {
            rt.update_waker(&self.0, waker);
            false
        }
    }

    /// Abandons the sleep: its entry leaves the wheel, fired or not, so no
    /// continuation of it is resumed later.
    pub fn cancel<W>(&self, rt: &mut TimerRuntime<W>)
        requires
            old(rt).wf(),
        ensures
            final(rt).wf(),
            final(rt).next_seq() == old(rt).next_seq(),
            final(rt).entries() == without(old(rt).entries(), self.timer_key()),
    {
        rt.cancel(&self.0);
    }
}

/// Starts a sleep until `deadline`. `None` means the deadline is already
/// reached at `now` and there is nothing to wait for.
pub fn sleep_until<W>(rt: &mut TimerRuntime<W>, deadline: u64, now: u64) -> (r: Option<TimerFuture>)
    requires
        old(rt).wf(),
        old(rt).next_seq() < u64::MAX,
    ensures
        final(rt).wf(),
        deadline <= now ==> r is None && *final(rt) == *old(rt),
        deadline > now ==> {
            let k = TimerKey { deadline, seq: old(rt).next_seq() };
            &&& r matches Some(f) && f.timer_key() == k
            &&& final(rt).next_seq() == old(rt).next_seq() + 1
            &&& exists|p: int|
                0 <= p <= old(rt).entries().len() && final(rt).entries()
                    == old(rt).entries().insert(p, fresh_entry(k))
        },
{
    match rt.add(deadline, now) {
        Some(key) => Some(TimerFuture(key)),
        None => None,
    }
}

/// Starts a sleep of `duration` nanoseconds from `now`.
pub fn sleep<W>(rt: &mut TimerRuntime<W>, duration: u64, now: u64) -> (r: Option<TimerFuture>)
    requires
        old(rt).wf(),
        old(rt).next_seq() < u64::MAX,
        now + duration <= u64::MAX,
    ensures
        final(rt).wf(),
        duration == 0 ==> r is None && *final(rt) == *old(rt),
        duration > 0 ==> {
            let k = TimerKey { deadline: (now + duration) as u64, seq: old(rt).next_seq() };
            &&& r matches Some(f) && f.timer_key() == k
            &&& final(rt).next_seq() == old(rt).next_seq() + 1
            &&& exists|p: int|
                0 <= p <= old(rt).entries().len() && final(rt).entries()
                    == old(rt).entries().insert(p, fresh_entry(k))
        },
{
    sleep_until(rt, now + duration, now)
}

/// Fires the entries of `rt` that are due at `now` and returns the
/// continuations to resume, in firing order.
pub fn check_timer_events<W>(rt: &mut TimerRuntime<W>, now: u64) -> (r: Vec<W>)
    requires
        old(rt).wf(),
    ensures
        final(rt).wf(),
        final(rt).next_seq() == old(rt).next_seq(),
        final(rt).entries() == expired(old(rt).entries(), now),
        r@ == fired_continuations(old(rt).entries(), now),
{
    rt.wake(now)
}

/// The error of a race that the deadline won.
#[derive(Debug, PartialEq, Eq)]
pub struct Elapsed(());

/// The value of `Elapsed`.
pub closed spec fn elapsed() -> Elapsed {
    Elapsed(())
}

impl Elapsed {
    /// The error of a lost race.
    pub fn new() -> (r: Elapsed)
        ensures
            r == elapsed(),
    {
        Elapsed(())
    }

    /// The message that describes the error.
    pub fn message(&self) -> (r: &'static str)
        ensures
            r@ == "deadline elapsed"@,
    {
        "deadline elapsed"
    }
}

/// Relies on axerrno's `AxError::TimedOut` constant: the error with the
/// code of the `TimedOut` kind.
#[verifier::external_body]
fn timed_out_error() -> (r: AxError)
    ensures
        error_code(r) == TIMED_OUT_CODE,
{
    AxError::TimedOut
}

impl From<Elapsed> for AxError {
    /// A lost race is a timeout.
    fn from(_e: Elapsed) -> (r: AxError)
        ensures
            error_code(r) == TIMED_OUT_CODE,
    {
        timed_out_error()
    }
}

impl vstd::std_specs::convert::FromSpecImpl<Elapsed> for AxError {
    open spec fn obeys_from_spec() -> bool {
        false
    }

    open spec fn from_spec(v: Elapsed) -> AxError {
        arbitrary()
    }
}

/// The absolute deadline of a timeout of `duration` starting at `now`:
/// none when no duration is given, and none when the sum does not fit in
/// the clock, which then never runs out.
pub open spec fn deadline_after(duration: Option<u64>, now: u64) -> Option<u64> {
    match duration {
        Some(d) => if now + d <= u64::MAX {
            Some((now + d) as u64)
        } else {
            None
        },
        None => None,
    }
}

/// The deadline that `timeout` races against.
pub fn timeout_deadline(duration: Option<u64>, now: u64) -> (r: Option<u64>)
    ensures
        r == deadline_after(duration, now),
{
    match duration {
        Some(d) => d.checked_add(now),
        None => None,
    }
}

/// Outcome of one poll of a race between an operation (its result, if it
/// has one) and a sleep until `deadline` (whether it has completed); `None`
/// while both are pending.
pub open spec fn race_result<T>(deadline: Option<u64>, op: Option<T>, timer_done: bool) -> Option<Result<T, Elapsed>> {
    match op {
        Some(v) => Some(Ok(v)),
        None => if deadline is Some && timer_done {
            Some(Err(elapsed()))
        } else {
            None
        },
    }
}

/// One poll of `timeout_at`: the operation is looked at first, so a result
/// it has is returned even when the deadline has passed too; the deadline
/// wins only when the operation is still pending and the sleep has
/// completed. Without a deadline the race waits for the operation alone.
/// `None` means the race is still pending.
pub fn timeout_at_step<T>(deadline: Option<u64>, op: Option<T>, timer_done: bool) -> (r: Option<Result<T, Elapsed>>)
    ensures
        r == race_result(deadline, op, timer_done),
{
    match op {
        Some(v) => Some(Ok(v)),
        None => {
            if deadline.is_some() && timer_done {
                Some(Err(Elapsed(())))
            } else {
                None
            }
        },
    }
}

/// How a timeout ends. The operation is looked at first, so whenever it has
/// a result that result is returned, even with the deadline reached; the
/// race reports `Elapsed` only when the operation is still pending and the
/// sleep has completed; and without a duration there is no deadline, so it
/// waits for the operation alone. The sleep completes only once its
/// deadline is reached: an expiry at `now` completes no entry whose
/// deadline is after `now`.
pub proof fn lemma_timeout_outcome<T, W>(
    duration: Option<u64>,
    start: u64,
    op: Option<T>,
    timer_done: bool,
    s: Seq<TimerEntry<W>>,
    k: TimerKey,
    now: u64,
)
    ensures
        op matches Some(v) ==> race_result(deadline_after(duration, start), op, timer_done) == Some(
            Ok::<T, Elapsed>(v),
        ),
        race_result(deadline_after(duration, start), op, timer_done) matches Some(Err(_)) ==> op is None
            && timer_done && deadline_after(duration, start) is Some,
        duration is None ==> race_result(deadline_after(duration, start), op, timer_done) == match op {
            Some(v) => Some(Ok::<T, Elapsed>(v)),
            None => None,
        },
        completed_in(expired(s, now), k) && !completed_in(s, k) ==> k.deadline <= now,
{
    if completed_in(expired(s, now), k) && !completed_in(s, k) {
        let t = expired(s, now);
        let i = choose|i: int| 0 <= i < t.len() && (#[trigger] t[i]).key == k && t[i].state is Completed;
        assert(t[i].key == s[i].key);
    }
}

} // verus!
