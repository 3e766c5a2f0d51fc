//! The timer wheel: pending deadlines ordered by `(deadline, sequence)`.

use vstd::prelude::*;

verus! {

/// Identifies one timer: its deadline (monotonic nanoseconds) and the
/// sequence number it was given when it was added. Keys are ordered by
/// deadline first and by sequence second.
#[derive(Clone, Copy, Debug, PartialEq, Eq, Structural, Hash)]
pub struct TimerKey {
    pub deadline: u64,
    pub seq: u64,
}

impl TimerKey {
    /// Strict order of keys: earlier deadline first, then earlier registration.
    pub open spec fn precedes(self, other: TimerKey) -> bool {
        ||| self.deadline < other.deadline
        ||| (self.deadline == other.deadline && self.seq < other.seq)
    }
}

/// State of a wheel entry: still pending (with the continuation to resume,
/// once one is known) or fired.
pub enum TimerState<W> {
    Active(Option<W>),
    Completed,
}

impl<W> Default for TimerState<W> {
    fn default() -> (r: Self)
        ensures
            r == TimerState::<W>::Active(None),
    {
        TimerState::Active(None)
    }
}

/// One entry of the wheel.
pub struct TimerEntry<W> {
    pub key: TimerKey,
    pub state: TimerState<W>,
}

/// Entries in strictly ascending key order.
pub open spec fn sorted<W>(s: Seq<TimerEntry<W>>) -> bool {
    forall|i: int, j: int| 0 <= i < j < s.len() ==> (#[trigger] s[i].key).precedes(#[trigger] s[j].key)
}

/// Whether some entry of `s` has key `k`.
pub open spec fn has_key<W>(s: Seq<TimerEntry<W>>, k: TimerKey) -> bool {
    exists|i: int| 0 <= i < s.len() && (#[trigger] s[i]).key == k
}

/// The entry that `add` inserts.
pub open spec fn fresh_entry<W>(k: TimerKey) -> TimerEntry<W> {
    TimerEntry { key: k, state: TimerState::Active(None) }
}

/// `s` with the entry under `k` (if any) removed.
pub open spec fn without<W>(s: Seq<TimerEntry<W>>, k: TimerKey) -> Seq<TimerEntry<W>> {
    s.filter(|e: TimerEntry<W>| e.key != k)
}

/// Whether `s` holds an entry under `k` that has fired.
pub open spec fn completed_in<W>(s: Seq<TimerEntry<W>>, k: TimerKey) -> bool {
    exists|i: int| 0 <= i < s.len() && (#[trigger] s[i]).key == k && s[i].state is Completed
}

/// `s` after storing continuation `w` in the active entry under `k`; fired
/// entries and other keys are left as they are.
pub open spec fn with_continuation<W>(s: Seq<TimerEntry<W>>, k: TimerKey, w: W) -> Seq<TimerEntry<W>> {
    s.map_values(
        |e: TimerEntry<W>|
            if e.key == k && e.state is Active {
                TimerEntry { key: k, state: TimerState::Active(Some(w)) }
            } else {
                e
            },
    )
}

/// Whether an entry is due at `now`.
pub open spec fn is_due<W>(e: TimerEntry<W>, now: u64) -> bool {
    e.key.deadline <= now
}

/// The continuation that firing `e` at `now` resumes, if any.
pub open spec fn fired_continuation<W>(e: TimerEntry<W>, now: u64) -> Option<W> {
    if is_due(e, now) {
        match e.state {
            TimerState::Active(Some(w)) => Some(w),
            _ => None,
        }
    } else {
        None
    }
}

/// The continuations that firing the entries due at `now` resumes, in wheel order.
pub open spec fn fired_continuations<W>(s: Seq<TimerEntry<W>>, now: u64) -> Seq<W> {
    s.filter_map(|e: TimerEntry<W>| fired_continuation(e, now))
}

/// `s` after every entry due at `now` has fired.
pub open spec fn expired<W>(s: Seq<TimerEntry<W>>, now: u64) -> Seq<TimerEntry<W>> {
    s.map_values(
        |e: TimerEntry<W>|
            if is_due(e, now) {
                TimerEntry { key: e.key, state: TimerState::Completed }
            } else {
                e
            },
    )
}

/// `s` without its entries due at `now`.
pub open spec fn not_due<W>(s: Seq<TimerEntry<W>>, now: u64) -> Seq<TimerEntry<W>> {
    s.filter(|e: TimerEntry<W>| !is_due(e, now))
}

/// When exactly the first `n` entries are due, dropping the due entries is
/// dropping the first `n`.
proof fn lemma_not_due_is_suffix<W>(s: Seq<TimerEntry<W>>, now: u64, n: int)
    requires
        0 <= n <= s.len(),
        forall|j: int| 0 <= j < n ==> is_due(#[trigger] s[j], now),
        forall|j: int| n <= j < s.len() ==> !is_due(#[trigger] s[j], now),
    ensures
        not_due(s, now) == s.skip(n),
    decreases s.len(),
{
    reveal(Seq::filter);
    let pred = |e: TimerEntry<W>| !is_due(e, now);
    if s.len() == n {
        s.lemma_all_neg_filter_empty(pred);
        assert(not_due(s, now) =~= s.skip(n));
    } else {
        let d = s.drop_last();
        lemma_not_due_is_suffix(d, now, n);
        assert(s.skip(n) =~= d.skip(n).push(s.last()));
    }
}

/// Keeping every element, a filter changes nothing.
proof fn lemma_filter_keeps_all<A>(s: Seq<A>, pred: spec_fn(A) -> bool)
    requires
        forall|j: int| 0 <= j < s.len() ==> pred(#[trigger] s[j]),
    ensures
        s.filter(pred) == s,
    decreases s.len(),
{
    reveal(Seq::filter);
    if s.len() > 0 {
        lemma_filter_keeps_all(s.drop_last(), pred);
        assert(s.drop_last().push(s.last()) =~= s);
    }
}

/// In a sorted wheel, removing the entry at `i` is removing its key.
proof fn lemma_remove_is_without<W>(s: Seq<TimerEntry<W>>, i: int)
    requires
        sorted(s),
        0 <= i < s.len(),
    ensures
        s.remove(i) == without(s, s[i].key),
    decreases s.len(),
{
    reveal(Seq::filter);
    let k = s[i].key;
    let pred = |e: TimerEntry<W>| e.key != k;
    let d = s.drop_last();
    if i == s.len() - 1 {
        assert forall|j: int| 0 <= j < d.len() implies pred(#[trigger] d[j]) by {
            assert(s[j].key.precedes(s[i].key));
        }
        lemma_filter_keeps_all(d, pred);
        assert(s.remove(i) =~= d);
    } else {
        assert(sorted(d)) by {
            assert forall|a: int, b: int| 0 <= a < b < d.len() implies (#[trigger] d[a].key).precedes(
                #[trigger] d[b].key,
            ) by {
                assert(s[a].key.precedes(s[b].key));
            }
        }
        lemma_remove_is_without(d, i);
        assert(s[i].key.precedes(s.last().key));
        assert(s.remove(i) =~= d.remove(i).push(s.last()));
    }
}

/// Entries past `i` are not due, so they resume nothing.
proof fn lemma_fired_prefix<W>(s: Seq<TimerEntry<W>>, now: u64, i: int)
    requires
        0 <= i <= s.len(),
        forall|j: int| i <= j < s.len() ==> !is_due(#[trigger] s[j], now),
    ensures
        fired_continuations(s.take(i), now) == fired_continuations(s, now),
    decreases s.len() - i,
{
    if i < s.len() {
        let f = |e: TimerEntry<W>| fired_continuation(e, now);
        s.lemma_filter_map_take_succ(f, i);
        assert(!is_due(s[i], now));
        lemma_fired_prefix(s, now, i + 1);
    } else {
        assert(s.take(i) =~= s);
    }
}

/// A timer runtime: the wheel and the counter that hands out sequence numbers.
pub struct TimerRuntime<W> {
    next_seq: u64,
    wheel: Vec<TimerEntry<W>>,
}

impl<W> TimerRuntime<W> {
    /// The entries, in firing order.
    pub closed spec fn entries(&self) -> Seq<TimerEntry<W>> {
        self.wheel@
    }

    /// The sequence number that the next `add` hands out.
    pub closed spec fn next_seq(&self) -> u64 {
        self.next_seq
    }

    /// Entries are sorted by key (so keys are unique) and every sequence
    /// number in use was handed out before.
    pub open spec fn wf(&self) -> bool {
        &&& sorted(self.entries())
        &&& forall|i: int|
            0 <= i < self.entries().len() ==> (#[trigger] self.entries()[i]).key.seq < self.next_seq()
    }

    /// An empty wheel.
    pub fn new() -> (r: Self)
        ensures
            r.wf(),
            r.entries() == Seq::<TimerEntry<W>>::empty(),
            r.next_seq() == 0,
    {
        TimerRuntime { next_seq: 0, wheel: Vec::new() }
    }

    /// Whether a sequence number is left for one more timer.
    pub fn has_capacity(&self) -> (r: bool)
        ensures
            r == (self.next_seq() < u64::MAX),
    {
        self.next_seq < u64::MAX
    }

    /// Adds a timer for `deadline`. Returns `None`, and changes nothing, when
    /// the deadline is not after `now`; otherwise inserts an active entry
    /// without continuation under a key with the next sequence number.
    pub fn add(&mut self, deadline: u64, now: u64) -> (r: Option<TimerKey>)
        requires
            old(self).wf(),
            old(self).next_seq() < u64::MAX,
        ensures
            final(self).wf(),
            deadline <= now ==> r is None && *final(self) == *old(self),
            deadline > now ==> {
                let k = TimerKey { deadline, seq: old(self).next_seq() };
                &&& r == Some(k)
                &&& final(self).next_seq() == old(self).next_seq() + 1
                &&& exists|p: int|
                    0 <= p <= old(self).entries().len() && final(self).entries()
                        == old(self).entries().insert(p, fresh_entry(k))
            },
    {
        if deadline <= now {
            return None;
        }
        Some(self.insert_entry(deadline, TimerState::Active(None)))
    }

    /// Adds a timer for `deadline` that resumes `waker` when it fires, due or
    /// not: a deadline already reached fires at the next expiry.
    pub fn schedule(&mut self, deadline: u64, waker: W) -> (k: TimerKey)
        requires
            old(self).wf(),
            old(self).next_seq() < u64::MAX,
        ensures
            final(self).wf(),
            k == (TimerKey { deadline, seq: old(self).next_seq() }),
            final(self).next_seq() == old(self).next_seq() + 1,
            exists|p: int|
                0 <= p <= old(self).entries().len() && final(self).entries()
                    == old(self).entries().insert(p, TimerEntry { key: k, state: TimerState::Active(Some(waker)) }),
    {
        self.insert_entry(deadline, TimerState::Active(Some(waker)))
    }

    /// Inserts an entry in `state` under the next key for `deadline`, after
    /// every entry with an earlier or equal deadline.
    fn insert_entry(&mut self, deadline: u64, state: TimerState<W>) -> (k: TimerKey)
        requires
            old(self).wf(),
            old(self).next_seq() < u64::MAX,
        ensures
            final(self).wf(),
            k == (TimerKey { deadline, seq: old(self).next_seq() }),
            final(self).next_seq() == old(self).next_seq() + 1,
            exists|p: int|
                0 <= p <= old(self).entries().len() && final(self).entries()
                    == old(self).entries().insert(p, TimerEntry { key: k, state }),
    {
        let key = TimerKey { deadline, seq: self.next_seq };
        let mut p: usize = self.wheel.len();
        while p > 0 && self.wheel[p - 1].key.deadline > deadline
            invariant
                p <= self.wheel.len(),
                forall|j: int| p <= j < self.wheel.len() ==> #[trigger] self.wheel@[j].key.deadline > deadline,
            decreases p,
        {
            p = p - 1;
        }
        proof {
            let s = self.wheel@;
            assert forall|j: int| 0 <= j < p implies (#[trigger] s[j]).key.precedes(key) by {
                if j < p - 1 {
                    assert(s[j].key.precedes(s[p - 1].key));
                }
                assert(s[j].key.seq < self.next_seq);
            }
        }
        let ghost before = self.wheel@;
        let ghost entry = TimerEntry { key, state };
        self.wheel.insert(p, TimerEntry { key, state });
        self.next_seq = self.next_seq + 1;
        proof {
            let s = self.wheel@;
            assert(s == before.insert(p as int, entry));
            assert forall|i: int, j: int| 0 <= i < j < s.len() implies (#[trigger] s[i].key).precedes(
                #[trigger] s[j].key,
            ) by {
                if i < p && j > p {
                    assert(before[i].key.precedes(before[j - 1].key));
                } else if i > p {
                    assert(before[i - 1].key.precedes(before[j - 1].key));
                } else if j < p {
                    assert(before[i].key.precedes(before[j].key));
                }
            }
            assert forall|i: int| 0 <= i < s.len() implies (#[trigger] s[i]).key.seq < self.next_seq by {
                if i < p {
                    assert(s[i] == before[i]);
                } else if i > p {
                    assert(s[i] == before[i - 1]);
                }
            }
        }
        key
    }
    /// Index of the entry under `key`, if there is one.
    fn position(&self, key: &TimerKey) -> (r: Option<usize>)
        requires
            self.wf(),
        ensures
            r matches Some(i) ==> i < self.entries().len() && self.entries()[i as int].key == *key,
            r is None ==> !has_key(self.entries(), *key),
    {
        let mut i: usize = 0;
        while i < self.wheel.len()
            invariant
                i <= self.wheel.len(),
                forall|j: int| 0 <= j < i ==> (#[trigger] self.wheel@[j]).key != *key,
            decreases self.wheel.len() - i,
        {
            if self.wheel[i].key == *key {
                return Some(i);
            }
            i = i + 1;
        }
        None
    }

    /// Stores `waker` as the continuation of the active entry under `key`.
    /// Nothing changes when the entry has fired or is gone.
    pub fn update_waker(&mut self, key: &TimerKey, waker: W)
        requires
            old(self).wf(),
        ensures
            final(self).wf(),
            final(self).next_seq() == old(self).next_seq(),
            final(self).entries() == with_continuation(old(self).entries(), *key, waker),
    {
        let ghost s = self.wheel@;
        match self.position(key) {
            Some(i) => {
                if let TimerState::Active(_) = &self.wheel[i].state {
                    self.wheel.set(i, TimerEntry { key: *key, state: TimerState::Active(Some(waker)) });
                    proof {
                        assert forall|j: int| 0 <= j < s.len() && j != i implies (#[trigger] s[j]).key != *key by {
                            if j < i {
                                assert(s[j].key.precedes(s[i as int].key));
                            } else {
                                assert(s[i as int].key.precedes(s[j].key));
                            }
                        }
                        assert(self.wheel@ =~= with_continuation(s, *key, waker));
                    }
                } else {
                    proof {
                        assert forall|j: int| 0 <= j < s.len() implies #[trigger] s[j] == with_continuation(s, *key, waker)[j] by {
                            if j < i {
                                assert(s[j].key.precedes(s[i as int].key));
                            } else if j > i {
                                assert(s[i as int].key.precedes(s[j].key));
                            }
                        }
                        assert(s =~= with_continuation(s, *key, waker));
                    }
                }
            },
            None => {
                assert(s =~= with_continuation(s, *key, waker));
            },
        }
    }

    /// Reports whether the entry under `key` has fired; if it has, the entry
    /// is removed. A key that is not in the wheel (cancelled, or already
    /// reported) is not completed.
    pub fn is_completed(&mut self, key: &TimerKey) -> (r: bool)
        requires
            old(self).wf(),
        ensures
            final(self).wf(),
            final(self).next_seq() == old(self).next_seq(),
            r == completed_in(old(self).entries(), *key),
            r ==> final(self).entries() == without(old(self).entries(), *key),
            !r ==> final(self).entries() == old(self).entries(),
    {
        let ghost s = self.wheel@;
        match self.position(key) {
            Some(i) => {
                if let TimerState::Completed = &self.wheel[i].state {
                    self.wheel.remove(i);
                    proof {
                        lemma_remove_is_without(s, i as int);
                        self.lemma_wf_after_remove(s, i as int);
                    }
                    true
                } else {
                    proof {
                        assert forall|j: int| 0 <= j < s.len() && (#[trigger] s[j]).key == *key implies j == i by {
                            if j < i {
                                assert(s[j].key.precedes(s[i as int].key));
                            } else if j > i {
                                assert(s[i as int].key.precedes(s[j].key));
                            }
                        }
                    }
                    false
                }
            },
            None => false,
        }
    }

    /// Removing one entry keeps the wheel well formed.
    proof fn lemma_wf_after_remove(&self, s: Seq<TimerEntry<W>>, i: int)
        requires
            sorted(s),
            forall|j: int| 0 <= j < s.len() ==> (#[trigger] s[j]).key.seq < self.next_seq(),
            0 <= i < s.len(),
            self.entries() == s.remove(i),
        ensures
            self.wf(),
    {
        let t = self.entries();
        assert forall|a: int, b: int| 0 <= a < b < t.len() implies (#[trigger] t[a].key).precedes(
            #[trigger] t[b].key,
        ) by {
            let a0 = if a < i { a } else { a + 1 };
            let b0 = if b < i { b } else { b + 1 };
            assert(s[a0].key.precedes(s[b0].key));
        }
        assert forall|j: int| 0 <= j < t.len() implies (#[trigger] t[j]).key.seq < self.next_seq() by {
            if j >= i {
                assert(t[j] == s[j + 1]);
            }
        }
    }

    /// Removes the entry under `key`, whether it is pending, fired or gone.
    pub fn cancel(&mut self, key: &TimerKey)
        requires
            old(self).wf(),
        ensures
            final(self).wf(),
            final(self).next_seq() == old(self).next_seq(),
            final(self).entries() == without(old(self).entries(), *key),
    {
        let ghost s = self.wheel@;
        match self.position(key) {
            Some(i) => {
                self.wheel.remove(i);
                proof {
                    lemma_remove_is_without(s, i as int);
                    self.lemma_wf_after_remove(s, i as int);
                }
            },
            None => {
                proof {
                    lemma_filter_keeps_all(s, |e: TimerEntry<W>| e.key != *key);
                }
            },
        }
    }

    /// Removes every entry due at `now` and returns the continuations they
    /// held, in ascending key order. Only the due entries are visited.
    pub fn take_due(&mut self, now: u64) -> (r: Vec<W>)
        requires
            old(self).wf(),
        ensures
            final(self).wf(),
            final(self).next_seq() == old(self).next_seq(),
            final(self).entries() == not_due(old(self).entries(), now),
            r@ == fired_continuations(old(self).entries(), now),
    {
        let ghost s = self.wheel@;
        let mut n: usize = 0;
        while n < self.wheel.len() && self.wheel[n].key.deadline <= now
            invariant
                self.wheel@ == s,
                n <= s.len(),
                forall|j: int| 0 <= j < n ==> is_due(#[trigger] s[j], now),
            decreases s.len() - n,
        {
            n = n + 1;
        }
        proof {
            assert forall|j: int| n <= j < s.len() implies !is_due(#[trigger] s[j], now) by {
                if j > n {
                    assert(s[n as int].key.precedes(s[j].key));
                }
            }
            lemma_fired_prefix(s, now, n as int);
            lemma_not_due_is_suffix(s, now, n as int);
        }
        let mut due = self.wheel.split_off(n);
        core::mem::swap(&mut self.wheel, &mut due);
        proof {
            assert(self.wheel@ =~= s.skip(n as int));
            let t = self.wheel@;
            assert forall|a: int, b: int| 0 <= a < b < t.len() implies (#[trigger] t[a].key).precedes(
                #[trigger] t[b].key,
            ) by {
                assert(s[a + n].key.precedes(s[b + n].key));
            }
            assert forall|j: int| 0 <= j < t.len() implies (#[trigger] t[j]).key.seq < self.next_seq by {
                assert(t[j] == s[j + n]);
            }
        }
        let ghost head = due@;
        assert(head =~= s.take(n as int));
        let mut fired: Vec<W> = Vec::new();
        let mut i: usize = 0;
        while i < due.len()
            invariant
                due@.len() == head.len(),
                i <= head.len(),
                forall|j: int| 0 <= j < head.len() ==> is_due(#[trigger] head[j], now),
                forall|j: int| i <= j < head.len() ==> #[trigger] due@[j] == head[j],
                fired@ == fired_continuations(head.take(i as int), now),
            decreases head.len() - i,
        {
            let key = due[i].key;
            let mut entry = TimerEntry { key, state: TimerState::Completed };
            due.set_and_swap(i, &mut entry);
            proof {
                head.lemma_filter_map_take_succ(|e: TimerEntry<W>| fired_continuation(e, now), i as int);
            }
            match entry.state {
                TimerState::Active(Some(w)) => fired.push(w),
                _ => {},
            }
            i = i + 1;
        }
        proof {
            assert(head =~= s.take(n as int));
            assert(head.take(i as int) =~= head);
        }
        fired
    }

    /// Fires every entry due at `now`, in ascending key order: each becomes
    /// completed, and the continuations they held are returned in that order.
    /// Only the due entries are visited.
    pub fn wake(&mut self, now: u64) -> (r: Vec<W>)
        requires
            old(self).wf(),
        ensures
            final(self).wf(),
            final(self).next_seq() == old(self).next_seq(),
            final(self).entries() == expired(old(self).entries(), now),
            r@ == fired_continuations(old(self).entries(), now),
    {
        let ghost s = self.wheel@;
        let mut fired: Vec<W> = Vec::new();
        let mut i: usize = 0;
        while i < self.wheel.len() && self.wheel[i].key.deadline <= now
            invariant
                self.wheel@.len() == s.len(),
                self.next_seq == old(self).next_seq,
                i <= s.len(),
                sorted(s),
                forall|j: int| 0 <= j < s.len() ==> (#[trigger] s[j]).key.seq < self.next_seq,
                forall|j: int| 0 <= j < i ==> is_due(#[trigger] s[j], now),
                forall|j: int| 0 <= j < i ==> #[trigger] self.wheel@[j] == expired(s, now)[j],
                forall|j: int| i <= j < s.len() ==> #[trigger] self.wheel@[j] == s[j],
                fired@ == fired_continuations(s.take(i as int), now),
            decreases s.len() - i,
        {
            let key = self.wheel[i].key;
            let mut entry = TimerEntry { key, state: TimerState::Completed };
            self.wheel.set_and_swap(i, &mut entry);
            proof {
                s.lemma_filter_map_take_succ(|e: TimerEntry<W>| fired_continuation(e, now), i as int);
            }
            match entry.state {
                TimerState::Active(Some(w)) => fired.push(w),
                _ => {},
            }
            i = i + 1;
        }
        proof {
            assert forall|j: int| i <= j < s.len() implies !is_due(#[trigger] s[j], now) by {
                if j > i {
                    assert(s[i as int].key.precedes(s[j].key));
                }
            }
            lemma_fired_prefix(s, now, i as int);
            assert(self.wheel@ =~= expired(s, now));
            let t = self.wheel@;
            assert forall|a: int, b: int| 0 <= a < b < t.len() implies (#[trigger] t[a].key).precedes(
                #[trigger] t[b].key,
            ) by {
                assert(s[a].key.precedes(s[b].key));
            }
            assert forall|j: int| 0 <= j < t.len() implies (#[trigger] t[j]).key.seq < self.next_seq by {
                assert(t[j].key == s[j].key);
            }
        }
        fired
    }
}

/// What firing a prefix of the wheel resumes is a prefix of what firing the
/// whole wheel resumes.
proof fn lemma_fired_take_is_prefix<W>(s: Seq<TimerEntry<W>>, now: u64, k: int)
    requires
        0 <= k <= s.len(),
    ensures
        fired_continuations(s.take(k), now).len() <= fired_continuations(s, now).len(),
        forall|t: int|
            0 <= t < fired_continuations(s.take(k), now).len() ==> #[trigger] fired_continuations(s, now)[t]
                == fired_continuations(s.take(k), now)[t],
    decreases s.len() - k,
{
    if k < s.len() {
        s.lemma_filter_map_take_succ(|e: TimerEntry<W>| fired_continuation(e, now), k);
        lemma_fired_take_is_prefix(s, now, k + 1);
    } else {
        assert(s.take(k) =~= s);
    }
}

/// Timers that share a deadline fire in the order they were added. `add`
/// hands out increasing sequence numbers, so of two such keys the one added
/// first has the smaller sequence number; at any `now` at or past the
/// deadline both are due, it comes first in the wheel, and its continuation
/// is resumed before the other's.
pub proof fn lemma_equal_deadlines_fire_in_order<W>(
    rt: TimerRuntime<W>,
    a: TimerKey,
    b: TimerKey,
    wa: W,
    wb: W,
    now: u64,
)
    requires
        rt.wf(),
        a.deadline == b.deadline,
        a.seq < b.seq,
        a.deadline <= now,
        rt.entries().contains(TimerEntry { key: a, state: TimerState::Active(Some(wa)) }),
        rt.entries().contains(TimerEntry { key: b, state: TimerState::Active(Some(wb)) }),
    ensures
        exists|i: int, j: int|
            0 <= i < j < fired_continuations(rt.entries(), now).len()
                && fired_continuations(rt.entries(), now)[i] == wa
                && fired_continuations(rt.entries(), now)[j] == wb,
{
    let s = rt.entries();
    let f = |e: TimerEntry<W>| fired_continuation(e, now);
    let i = choose|i: int| 0 <= i < s.len() && s[i] == TimerEntry { key: a, state: TimerState::Active(Some(wa)) };
    let j = choose|j: int| 0 <= j < s.len() && s[j] == TimerEntry { key: b, state: TimerState::Active(Some(wb)) };
    assert(i < j) by {
        if j < i {
            assert(s[j].key.precedes(s[i].key));
        }
    }
    s.lemma_filter_map_take_succ(f, i);
    s.lemma_filter_map_take_succ(f, j);
    lemma_fired_take_is_prefix(s, now, i + 1);
    lemma_fired_take_is_prefix(s, now, j + 1);
    lemma_fired_take_is_prefix(s.take(j), now, i + 1);
    assert(s.take(j).take(i + 1) =~= s.take(i + 1));
    let ia = fired_continuations(s.take(i), now).len() as int;
    let ib = fired_continuations(s.take(j), now).len() as int;
    assert(fired_continuations(s, now)[ia] == wa);
    assert(fired_continuations(s, now)[ib] == wb);
}

/// A cancelled timer never fires. After `cancel(k)` the key is gone and no
/// later operation brings it back: `is_completed(k)` reports false,
/// `update_waker(k, _)` changes nothing, expiring keeps it absent, and adding
/// only inserts keys with other sequence numbers. So none of the
/// continuations it held is ever returned by `wake`.
pub proof fn lemma_cancelled_never_fires<W>(s: Seq<TimerEntry<W>>, k: TimerKey, w: W, now: u64, other: TimerKey, p: int)
    requires
        sorted(s),
        other.seq != k.seq,
        0 <= p <= without(s, k).len(),
    ensures
        !has_key(without(s, k), k),
        !completed_in(without(s, k), k),
        with_continuation(without(s, k), k, w) == without(s, k),
        !has_key(expired(without(s, k), now), k),
        !has_key(without(s, k).insert(p, fresh_entry::<W>(other)), k),
        forall|e: TimerEntry<W>| #[trigger] without(s, k).contains(e) ==> e.key != k,
{
    let t = without(s, k);
    let pred = |e: TimerEntry<W>| e.key != k;
    assert forall|i: int| 0 <= i < t.len() implies (#[trigger] t[i]).key != k by {
        s.lemma_filter_pred(pred, i);
    }
    assert(with_continuation(t, k, w) =~= t);
    let u = t.insert(p, fresh_entry::<W>(other));
    assert forall|i: int| 0 <= i < u.len() implies (#[trigger] u[i]).key != k by {
        if i > p {
            assert(u[i] == t[i - 1]);
        } else if i < p {
            assert(u[i] == t[i]);
        }
    }
}

/// One operation on a timer runtime, as the operations' contracts relate the
/// state before and after it: `add` or `schedule` insert an entry under the
/// next sequence number; `update_waker`, `is_completed`, `cancel`, `wake` and
/// `take_due` keep the counter and change the entries as their contracts say.
pub open spec fn wheel_step<W>(a: TimerRuntime<W>, b: TimerRuntime<W>) -> bool {
    ||| (b.next_seq() == a.next_seq() + 1 && exists|p: int, e: TimerEntry<W>|
        0 <= p <= a.entries().len() && e.key.seq == a.next_seq() && #[trigger] a.entries().insert(p, e)
            == b.entries())
    ||| (b.next_seq() == a.next_seq() && {
        ||| b.entries() == a.entries()
        ||| exists|k: TimerKey, w: W| #[trigger] with_continuation(a.entries(), k, w) == b.entries()
        ||| exists|k: TimerKey| #[trigger] without(a.entries(), k) == b.entries()
        ||| exists|now: u64| #[trigger] expired(a.entries(), now) == b.entries()
        ||| exists|now: u64| #[trigger] not_due(a.entries(), now) == b.entries()
    })
}

/// No single operation brings back a key that is gone, as long as its
/// sequence number was handed out already.
proof fn lemma_step_keeps_key_gone<W>(a: TimerRuntime<W>, b: TimerRuntime<W>, k: TimerKey)
    requires
        wheel_step(a, b),
        !has_key(a.entries(), k),
        k.seq < a.next_seq(),
    ensures
        !has_key(b.entries(), k),
        k.seq < b.next_seq(),
{
    let s = a.entries();
    let t = b.entries();
    if has_key(t, k) {
        let j = choose|j: int| 0 <= j < t.len() && (#[trigger] t[j]).key == k;
        if b.next_seq() == a.next_seq() + 1 && exists|p: int, e: TimerEntry<W>|
            0 <= p <= s.len() && e.key.seq == a.next_seq() && #[trigger] s.insert(p, e) == t {
            let (p, e) = choose|p: int, e: TimerEntry<W>|
                0 <= p <= s.len() && e.key.seq == a.next_seq() && #[trigger] s.insert(p, e) == t;
            if j < p {
                assert(t[j] == s[j]);
            } else if j > p {
                assert(t[j] == s[j - 1]);
            }
        } else if t == s {
            assert(s[j].key == k);
        } else if exists|kk: TimerKey, w: W| #[trigger] with_continuation(s, kk, w) == t {
            assert(s[j].key == k);
        } else if exists|kk: TimerKey| #[trigger] without(s, kk) == t {
            let kk = choose|kk: TimerKey| #[trigger] without(s, kk) == t;
            let pred = |e: TimerEntry<W>| e.key != kk;
            assert(s.filter(pred).contains(t[j]));
            s.lemma_filter_contains_rev(pred, t[j]);
        } else if exists|now: u64| #[trigger] expired(s, now) == t {
            assert(s[j].key == k);
        } else {
            let now = choose|now: u64| #[trigger] not_due(s, now) == t;
            let pred = |e: TimerEntry<W>| !is_due(e, now);
            assert(s.filter(pred).contains(t[j]));
            s.lemma_filter_contains_rev(pred, t[j]);
        }
    }
}

/// A cancelled timer never fires, in any interleaving. Take a run of a
/// timer runtime that starts right after `cancel(k)` (so `k` is gone) for a
/// key it handed out, and goes on by any operations in any order: `k` is
/// absent from every later state, so `is_completed(k)` is false throughout
/// and no `wake` or `take_due` of the run returns a continuation stored
/// under `k`.
pub proof fn lemma_cancelled_never_fires_in_any_run<W>(run: Seq<TimerRuntime<W>>, k: TimerKey)
    requires
        run.len() > 0,
        forall|i: int| 0 <= i < run.len() - 1 ==> wheel_step(#[trigger] run[i], run[i + 1]),
        !has_key(run[0].entries(), k),
        k.seq < run[0].next_seq(),
    ensures
        forall|i: int| 0 <= i < run.len() ==> !has_key(#[trigger] run[i].entries(), k),
        forall|i: int| 0 <= i < run.len() ==> !completed_in(#[trigger] run[i].entries(), k),
    decreases run.len(),
{
    if run.len() > 1 {
        let prefix = run.drop_last();
        assert forall|i: int| 0 <= i < prefix.len() - 1 implies wheel_step(#[trigger] prefix[i], prefix[i + 1]) by {
            assert(wheel_step(run[i], run[i + 1]));
        }
        lemma_cancelled_never_fires_in_any_run(prefix, k);
        let n = run.len() - 1;
        assert(!has_key(prefix[n - 1].entries(), k));
        lemma_seq_keeps_growing(run, n - 1);
        assert(wheel_step(run[n - 1], run[n]));
        lemma_step_keeps_key_gone(run[n - 1], run[n], k);
        assert forall|i: int| 0 <= i < run.len() implies !has_key(#[trigger] run[i].entries(), k) by {
            if i < n {
                assert(run[i] == prefix[i]);
            }
        }
    }
    assert forall|i: int| 0 <= i < run.len() implies !completed_in(#[trigger] run[i].entries(), k) by {
        assert(!has_key(run[i].entries(), k));
    }
}

/// Along a run, the sequence counter never goes down.
proof fn lemma_seq_keeps_growing<W>(run: Seq<TimerRuntime<W>>, i: int)
    requires
        0 <= i < run.len(),
        forall|j: int| 0 <= j < run.len() - 1 ==> wheel_step(#[trigger] run[j], run[j + 1]),
    ensures
        run[0].next_seq() <= run[i].next_seq(),
    decreases i,
{
    if i > 0 {
        lemma_seq_keeps_growing(run, i - 1);
        assert(wheel_step(run[i - 1], run[i]));
    }
}

} // verus!
