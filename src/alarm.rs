//! Per-core alarms that unblock tasks, guarded by tickets.
//!
//! Every task carries a ticket. Setting an alarm issues the task a new ticket
//! and records it in the alarm; when the alarm fires, the task is unblocked
//! only if its ticket is still the recorded one. A later alarm for the same
//! task therefore disarms all earlier ones.

use vstd::prelude::*;

use crate::timer_wheel::{TimerEntry, TimerKey, TimerRuntime, TimerState, fired_continuations, not_due};

verus! {

/// What an alarm wakes: a task, and the ticket that task held when the alarm
/// was set.
#[derive(Clone, Copy, Debug, PartialEq, Eq, Structural)]
pub struct Alarm {
    pub task: usize,
    pub ticket: u64,
}

/// Whether `a` is still the task's current alarm under `tickets`.
pub open spec fn is_live(a: Alarm, tickets: Seq<u64>) -> bool {
    0 <= a.task < tickets.len() && tickets[a.task as int] == a.ticket
}

/// The tasks that firing `alarms` in order unblocks: those whose alarm is
/// still live; stale alarms are dropped without effect.
pub open spec fn unblocked(alarms: Seq<Alarm>, tickets: Seq<u64>) -> Seq<usize> {
    alarms.filter_map(|a: Alarm| if is_live(a, tickets) { Some(a.task) } else { None })
}

/// `e` holds an alarm for a known task, with a ticket no later than the
/// task's current one.
pub open spec fn alarm_within(e: TimerEntry<Alarm>, tickets: Seq<u64>) -> bool {
    &&& e.state matches TimerState::Active(Some(a))
    &&& a.task < tickets.len()
    &&& a.ticket <= tickets[a.task as int]
}

/// Every entry of `w` satisfies `alarm_within`.
pub open spec fn alarms_within(w: TimerRuntime<Alarm>, tickets: Seq<u64>) -> bool {
    forall|i: int| 0 <= i < w.entries().len() ==> alarm_within(#[trigger] w.entries()[i], tickets)
}

/// Tickets only move forward, and tasks are never forgotten.
pub open spec fn later_tickets(t1: Seq<u64>, t2: Seq<u64>) -> bool {
    &&& t1.len() <= t2.len()
    &&& forall|i: int| 0 <= i < t1.len() ==> t1[i] <= #[trigger] t2[i]
}

proof fn lemma_alarms_within_later_tickets(w: TimerRuntime<Alarm>, t1: Seq<u64>, t2: Seq<u64>)
    requires
        alarms_within(w, t1),
        later_tickets(t1, t2),
    ensures
        alarms_within(w, t2),
{
    assert forall|i: int| 0 <= i < w.entries().len() implies alarm_within(#[trigger] w.entries()[i], t2) by {
        assert(alarm_within(w.entries()[i], t1));
        let a = w.entries()[i].state->Active_0->Some_0;
        assert(t1[a.task as int] <= t2[a.task as int]);
    }
}

/// The alarm wheels of all cores, and the current ticket of every task.
pub struct Alarms {
    wheels: Vec<TimerRuntime<Alarm>>,
    tickets: Vec<u64>,
}

impl Alarms {
    /// The wheel of each core.
    pub closed spec fn wheels(&self) -> Seq<TimerRuntime<Alarm>> {
        self.wheels@
    }

    /// The current ticket of each task, by task id.
    pub closed spec fn tickets(&self) -> Seq<u64> {
        self.tickets@
    }

    /// Every wheel is well formed, and every alarm names a known task with a
    /// ticket no later than the task's current one.
    pub open spec fn wf(&self) -> bool {
        forall|c: int|
            0 <= c < self.wheels().len() ==> (#[trigger] self.wheels()[c]).wf() && alarms_within(
                self.wheels()[c],
                self.tickets(),
            )
    }

    /// Alarm wheels for `cpus` cores, and no tasks yet.
    pub fn new(cpus: usize) -> (r: Self)
        ensures
            r.wf(),
            r.wheels().len() == cpus,
            forall|c: int| 0 <= c < cpus ==> (#[trigger] r.wheels()[c]).entries().len() == 0
                && r.wheels()[c].next_seq() == 0,
            r.tickets().len() == 0,
    {
        let mut wheels: Vec<TimerRuntime<Alarm>> = Vec::new();
        let mut c: usize = 0;
        while c < cpus
            invariant
                c <= cpus,
                wheels@.len() == c,
                forall|i: int| 0 <= i < c ==> (#[trigger] wheels@[i]).wf() && wheels@[i].entries().len() == 0
                    && wheels@[i].next_seq() == 0,
            decreases cpus - c,
        {
            wheels.push(TimerRuntime::new());
            c = c + 1;
        }
        Alarms { wheels, tickets: Vec::new() }
    }

    /// Registers a task, with ticket 0, and returns its id.
    pub fn add_task(&mut self) -> (id: usize)
        requires
            old(self).wf(),
            old(self).tickets().len() < usize::MAX,
        ensures
            final(self).wf(),
            id == old(self).tickets().len(),
            final(self).tickets() == old(self).tickets().push(0),
            final(self).wheels() == old(self).wheels(),
    {
        let id = self.tickets.len();
        self.tickets.push(0);
        proof {
            assert forall|c: int| 0 <= c < self.wheels().len() implies (#[trigger] self.wheels()[c]).wf()
                && alarms_within(self.wheels()[c], self.tickets()) by {
                assert(self.wheels()[c] == old(self).wheels()[c]);
                assert(old(self).wheels()[c].wf());
                lemma_alarms_within_later_tickets(self.wheels()[c], old(self).tickets(), self.tickets());
            }
        }
        id
    }

    /// The number of registered tasks.
    pub fn tasks(&self) -> (r: usize)
        ensures
            r == self.tickets().len(),
    {
        self.tickets.len()
    }

    /// The number of cores.
    pub fn cpus(&self) -> (r: usize)
        ensures
            r == self.wheels().len(),
    {
        self.wheels.len()
    }

    /// Whether `set_alarm(cpu, task, _)` may be called: the core and the task
    /// exist, and neither the task's tickets nor the core's sequence numbers
    /// are used up.
    pub fn can_set_alarm(&self, cpu: usize, task: usize) -> (r: bool)
        ensures
            r == (cpu < self.wheels().len() && task < self.tickets().len() && self.tickets()[task as int]
                < u64::MAX && self.wheels()[cpu as int].next_seq() < u64::MAX),
    {
        cpu < self.wheels.len() && task < self.tickets.len() && self.tickets[task] < u64::MAX
            && self.wheels[cpu].has_capacity()
    }

    /// The current ticket of `task`.
    pub fn ticket(&self, task: usize) -> (r: u64)
        requires
            task < self.tickets().len(),
        ensures
            r == self.tickets()[task as int],
    {
        self.tickets[task]
    }
    /// Sets an alarm for `task` at `deadline` on core `cpu`: the task gets a
    /// new ticket, one past its current one, and the alarm records it. Every
    /// alarm set for the task before is stale from now on.
    pub fn set_alarm(&mut self, cpu: usize, task: usize, deadline: u64) -> (ticket: u64)
        requires
            old(self).wf(),
            cpu < old(self).wheels().len(),
            task < old(self).tickets().len(),
            old(self).tickets()[task as int] < u64::MAX,
            old(self).wheels()[cpu as int].next_seq() < u64::MAX,
        ensures
            final(self).wf(),
            ticket == old(self).tickets()[task as int] + 1,
            final(self).tickets() == old(self).tickets().update(task as int, ticket),
            final(self).wheels().len() == old(self).wheels().len(),
            forall|c: int| 0 <= c < old(self).wheels().len() && c != cpu ==> #[trigger] final(self).wheels()[c]
                == old(self).wheels()[c],
            ({
                let w0 = old(self).wheels()[cpu as int];
                let w1 = final(self).wheels()[cpu as int];
                let k = TimerKey { deadline, seq: w0.next_seq() };
                &&& w1.next_seq() == w0.next_seq() + 1
                &&& exists|p: int|
                    0 <= p <= w0.entries().len() && w1.entries() == w0.entries().insert(
                        p,
                        TimerEntry { key: k, state: TimerState::Active(Some(Alarm { task, ticket })) },
                    )
            }),
    {
        let ticket = self.tickets[task] + 1;
        self.tickets.set(task, ticket);
        let mut wheel = TimerRuntime::new();
        self.wheels.set_and_swap(cpu, &mut wheel);
        let ghost w0 = wheel;
        wheel.schedule(deadline, Alarm { task, ticket });
        let ghost w1 = wheel;
        self.wheels.set_and_swap(cpu, &mut wheel);
        proof {
            assert(later_tickets(old(self).tickets(), self.tickets()));
            assert forall|c: int| 0 <= c < self.wheels().len() implies (#[trigger] self.wheels()[c]).wf()
                && alarms_within(self.wheels()[c], self.tickets()) by {
                if c != cpu {
                    assert(self.wheels()[c] == old(self).wheels()[c]);
                    assert(old(self).wheels()[c].wf());
                    lemma_alarms_within_later_tickets(self.wheels()[c], old(self).tickets(), self.tickets());
                } else {
                    assert(self.wheels()[c] == w1);
                    assert(old(self).wheels()[c].wf());
                    lemma_alarms_within_later_tickets(w0, old(self).tickets(), self.tickets());
                    let k = TimerKey { deadline, seq: w0.next_seq() };
                    let e = TimerEntry { key: k, state: TimerState::Active(Some(Alarm { task, ticket })) };
                    let p = choose|p: int|
                        0 <= p <= w0.entries().len() && w1.entries() == w0.entries().insert(p, e);
                    assert forall|i: int| 0 <= i < w1.entries().len() implies alarm_within(
                        #[trigger] w1.entries()[i],
                        self.tickets(),
                    ) by {
                        if i < p {
                            assert(w1.entries()[i] == w0.entries()[i]);
                        } else if i > p {
                            assert(w1.entries()[i] == w0.entries()[i - 1]);
                        }
                    }
                }
            }
        }
        ticket
    }

    /// The clock tick on core `cpu` at `now`: removes every alarm due there
    /// and returns, in firing order, the tasks to unblock, those whose alarm
    /// still holds their current ticket. Tickets are left as they are.
    pub fn on_tick(&mut self, cpu: usize, now: u64) -> (r: Vec<usize>)
        requires
            old(self).wf(),
            cpu < old(self).wheels().len(),
        ensures
            final(self).wf(),
            r@ == unblocked(fired_continuations(old(self).wheels()[cpu as int].entries(), now), old(self).tickets()),
            final(self).tickets() == old(self).tickets(),
            final(self).wheels().len() == old(self).wheels().len(),
            forall|c: int| 0 <= c < old(self).wheels().len() && c != cpu ==> #[trigger] final(self).wheels()[c]
                == old(self).wheels()[c],
            final(self).wheels()[cpu as int].entries() == not_due(old(self).wheels()[cpu as int].entries(), now),
            final(self).wheels()[cpu as int].next_seq() == old(self).wheels()[cpu as int].next_seq(),
    {
        let mut wheel = TimerRuntime::new();
        self.wheels.set_and_swap(cpu, &mut wheel);
        let ghost w0 = wheel;
        let alarms = wheel.take_due(now);
        let ghost w1 = wheel;
        self.wheels.set_and_swap(cpu, &mut wheel);
        proof {
            let s = w0.entries();
            assert(old(self).wheels()[cpu as int].wf());
            let pred = |e: TimerEntry<Alarm>| !crate::timer_wheel::is_due(e, now);
            assert forall|i: int| 0 <= i < w1.entries().len() implies alarm_within(
                #[trigger] w1.entries()[i],
                self.tickets(),
            ) by {
                let e = w1.entries()[i];
                assert(s.filter(pred).contains(e));
                s.lemma_filter_contains_rev(pred, e);
                let j = choose|j: int| 0 <= j < s.len() && s[j] == e;
                assert(alarm_within(s[j], self.tickets()));
            }
            assert forall|c: int| 0 <= c < self.wheels().len() implies (#[trigger] self.wheels()[c]).wf()
                && alarms_within(self.wheels()[c], self.tickets()) by {
                if c != cpu {
                    assert(self.wheels()[c] == old(self).wheels()[c]);
                    assert(old(self).wheels()[c].wf());
                } else {
                    assert(self.wheels()[c] == w1);
                }
            }
        }
        let ghost tickets = self.tickets@;
        let mut tasks: Vec<usize> = Vec::new();
        let mut i: usize = 0;
        while i < alarms.len()
            invariant
                i <= alarms@.len(),
                self.tickets@ == tickets,
                tasks@ == unblocked(alarms@.take(i as int), tickets),
            decreases alarms@.len() - i,
        {
            let a = alarms[i];
            proof {
                alarms@.lemma_filter_map_take_succ(
                    |a: Alarm| if is_live(a, tickets) { Some(a.task) } else { None },
                    i as int,
                );
            }
            if a.task < self.tickets.len() && self.tickets[a.task] == a.ticket {
                tasks.push(a.task);
            }
            i = i + 1;
        }
        proof {
            assert(alarms@.take(i as int) =~= alarms@);
        }
        tasks
    }
}

/// An alarm set before a task was given a newer ticket never unblocks it.
/// Take the wheels as they are when `set_alarm` bumps the task's ticket: when
/// any of the alarms in them fires later, under the bumped tickets, the task
/// is not among those unblocked.
pub proof fn lemma_rearmed_task_ignores_older_alarms(al: Alarms, cpu: int, task: usize, now: u64)
    requires
        al.wf(),
        0 <= cpu < al.wheels().len(),
        task < al.tickets().len(),
        al.tickets()[task as int] < u64::MAX,
    ensures
        !unblocked(
            fired_continuations(al.wheels()[cpu].entries(), now),
            al.tickets().update(task as int, (al.tickets()[task as int] + 1) as u64),
        ).contains(task),
{
    let s = al.wheels()[cpu].entries();
    let bumped = al.tickets().update(task as int, (al.tickets()[task as int] + 1) as u64);
    let fired = fired_continuations(s, now);
    let f = |a: Alarm| if is_live(a, bumped) { Some(a.task) } else { None };
    assert(al.wheels()[cpu].wf());
    if unblocked(fired, bumped).contains(task) {
        fired.lemma_filter_map_contains(f, task);
        let a = choose|a: Alarm| #[trigger] fired.contains(a) && f(a) == Some(task);
        s.lemma_filter_map_contains(|e: TimerEntry<Alarm>| crate::timer_wheel::fired_continuation(e, now), a);
        let e = choose|e: TimerEntry<Alarm>|
            #[trigger] s.contains(e) && crate::timer_wheel::fired_continuation(e, now) == Some(a);
        let i = choose|i: int| 0 <= i < s.len() && s[i] == e;
        assert(alarm_within(s[i], al.tickets()));
    }
}

} // verus!
