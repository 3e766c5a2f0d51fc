//! The tick entry point: periodic callbacks, then the timer wheel.

use vstd::prelude::*;

use crate::timer_wheel::{TimerRuntime, expired, fired_continuations};

verus! {

/// Appends `callback` to the callbacks run on every tick.
pub fn register_timer_callback<C: Fn(u64)>(callbacks: &mut Vec<C>, callback: C)
    ensures
        final(callbacks)@ == old(callbacks)@.push(callback),
{
    callbacks.push(callback);
}

/// The tick at `now`: runs every callback with `now`, in registration order,
/// then fires the timers due at `now` and returns the continuations to
/// resume, in firing order.
pub fn check_events<W, C: Fn(u64)>(callbacks: &Vec<C>, rt: &mut TimerRuntime<W>, now: u64) -> (r: Vec<W>)
    requires
        old(rt).wf(),
        forall|i: int, t: u64| 0 <= i < callbacks@.len() ==> #[trigger] callbacks@[i].requires((t,)),
    ensures
        final(rt).wf(),
        final(rt).next_seq() == old(rt).next_seq(),
        final(rt).entries() == expired(old(rt).entries(), now),
        r@ == fired_continuations(old(rt).entries(), now),
{
    let mut i: usize = 0;
    while i < callbacks.len()
        invariant
            i <= callbacks@.len(),
            forall|j: int, t: u64| 0 <= j < callbacks@.len() ==> #[trigger] callbacks@[j].requires((t,)),
        decreases callbacks@.len() - i,
    {
        let callback = &callbacks[i];
        callback(now);
        i = i + 1;
    }
    crate::time::check_timer_events(rt, now)
}

} // verus!
