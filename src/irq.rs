//! The interrupt wake registry: for each interrupt number, the set of
//! continuations waiting for it, and the numbers whose handler is installed.

use vstd::prelude::*;

use axpoll::PollSet;
use core::task::Waker;
use std::collections::{BTreeMap, BTreeSet};

verus! {

broadcast use vstd::std_specs::btree::group_btree_axioms;

#[verifier::external_type_specification]
#[verifier::external_body]
pub struct ExPollSet(PollSet);

#[verifier::external_type_specification]
#[verifier::external_body]
pub struct ExWaker(Waker);

/// How many wakers a poll set holds, as `PollSet::wake` reports them.
pub uninterp spec fn registered(s: PollSet) -> nat;

/// The most wakers a poll set holds: axpoll's `POLL_SET_CAPACITY`.
pub const POLL_SET_CAPACITY: usize = 64;

/// The count of a poll set after one more registration: one more, up to
/// the capacity (past it the oldest waker is woken and evicted).
pub open spec fn after_register(count: nat) -> nat {
    if count + 1 <= POLL_SET_CAPACITY {
        count + 1
    } else {
        POLL_SET_CAPACITY as nat
    }
}

/// Relies on axpoll's `PollSet::new`: an empty set of wakers.
#[verifier::external_body]
fn new_poll_set() -> (r: PollSet)
    ensures
        registered(r) == 0,
{
    PollSet::new()
}

/// Relies on axpoll's `PollSet::register`: stores a clone of `waker`; when
/// the set is full it wakes and evicts its oldest waker instead of growing.
#[verifier::external_body]
fn register_in(set: &mut PollSet, waker: &Waker)
    ensures
        registered(*final(set)) == after_register(registered(*old(set))),
{
    set.register(waker)
}

/// Relies on axpoll's `PollSet::wake`: wakes every waker of the set and
/// returns how many there were; dropping the emptied set wakes no more.
#[verifier::external_body]
fn wake_set(set: PollSet) -> (r: usize)
    ensures
        r == registered(set),
{
    set.wake()
}

/// The registry. A wait set exists only for an interrupt whose handler is
/// installed; a handler stays installed once it is, so it is installed on
/// the first registration for its number only.
pub struct IrqWakers {
    sets: BTreeMap<usize, PollSet>,
    installed: BTreeSet<usize>,
}

impl IrqWakers {
    /// For each interrupt number with waiters, how many wakers wait for it.
    pub closed spec fn pending(&self) -> Map<usize, nat> {
        Map::new(|irq: usize| self.sets@.contains_key(irq), |irq: usize| registered(self.sets@[irq]))
    }

    /// The interrupt numbers whose handler has been installed.
    pub closed spec fn installed(&self) -> Set<usize> {
        self.installed@
    }

    /// Every number with waiters has its handler installed.
    pub open spec fn wf(&self) -> bool {
        self.pending().dom().subset_of(self.installed())
    }

    /// An empty registry, with no handler installed.
    pub fn new() -> (r: Self)
        ensures
            r.wf(),
            r.pending() == Map::<usize, nat>::empty(),
            r.installed() == Set::<usize>::empty(),
    {
        let r = IrqWakers { sets: BTreeMap::new(), installed: BTreeSet::new() };
        assert(r.pending() =~= Map::<usize, nat>::empty());
        r
    }

    /// Adds `waker` to the wait set of `irq`, creating the set if there is
    /// none. Returns whether the handler for `irq` has to be installed now:
    /// exactly on the first registration for `irq` ever.
    pub fn register_irq_waker(&mut self, irq: usize, waker: &Waker) -> (install: bool)
        requires
            old(self).wf(),
        ensures
            final(self).wf(),
            install == !old(self).installed().contains(irq),
            final(self).installed() == old(self).installed().insert(irq),
            final(self).pending() == old(self).pending().insert(
                irq,
                after_register(
                    if old(self).pending().contains_key(irq) {
                        old(self).pending()[irq]
                    } else {
                        0
                    },
                ),
            ),
    {
        let mut set = match self.sets.remove(&irq) {
            Some(s) => s,
            None => new_poll_set(),
        };
        register_in(&mut set, waker);
        self.sets.insert(irq, set);
        let install = self.installed.insert(irq);
        proof {
            assert(self.pending() =~= old(self).pending().insert(
                irq,
                after_register(
                    if old(self).pending().contains_key(irq) {
                        old(self).pending()[irq]
                    } else {
                        0
                    },
                ),
            ));
        }
        install
    }

    /// Removes the wait set of `irq`, if there is one, with every waker
    /// registered for `irq` since it was last taken. The handler stays
    /// installed.
    pub fn take(&mut self, irq: usize) -> (r: Option<PollSet>)
        requires
            old(self).wf(),
        ensures
            final(self).wf(),
            r is Some == old(self).pending().contains_key(irq),
            r matches Some(s) ==> registered(s) == old(self).pending()[irq],
            final(self).pending() == old(self).pending().remove(irq),
            final(self).installed() == old(self).installed(),
    {
        let r = self.sets.remove(&irq);
        assert(self.pending() =~= old(self).pending().remove(irq));
        r
    }

    /// The interrupt handler for `irq`: removes the wait set of `irq` and
    /// wakes all of it, every party interested in `irq` re-checking its own
    /// condition. Returns how many wakers it woke.
    pub fn handle_irq(&mut self, irq: usize) -> (woken: usize)
        requires
            old(self).wf(),
        ensures
            final(self).wf(),
            woken == (if old(self).pending().contains_key(irq) {
                old(self).pending()[irq]
            } else {
                0
            }),
            final(self).pending() == old(self).pending().remove(irq),
            final(self).installed() == old(self).installed(),
    {
        match self.take(irq) {
            Some(set) => wake_set(set),
            None => 0,
        }
    }
}

} // verus!
