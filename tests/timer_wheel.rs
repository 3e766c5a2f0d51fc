use axtask::time::{sleep, sleep_until, check_timer_events};
use axtask::timer_wheel::{TimerKey, TimerRuntime, TimerState};

#[test]
fn add_rejects_deadline_not_in_future() {
    let mut rt: TimerRuntime<u32> = TimerRuntime::new();
    assert_eq!(rt.add(5, 5), None);
    assert_eq!(rt.add(4, 5), None);
    assert_eq!(rt.add(6, 5), Some(TimerKey { deadline: 6, seq: 0 }));
    assert_eq!(rt.add(6, 5), Some(TimerKey { deadline: 6, seq: 1 }));
}

#[test]
fn equal_deadlines_fire_in_registration_order() {
    let mut rt: TimerRuntime<u32> = TimerRuntime::new();
    let k1 = rt.add(100, 0).unwrap();
    let k2 = rt.add(100, 0).unwrap();
    let k3 = rt.add(50, 0).unwrap();
    let k4 = rt.add(100, 0).unwrap();
    rt.update_waker(&k4, 4);
    rt.update_waker(&k2, 2);
    rt.update_waker(&k1, 1);
    rt.update_waker(&k3, 3);
    assert_eq!(rt.wake(100), vec![3, 1, 2, 4]);
}

#[test]
fn wake_fires_only_due_entries() {
    let mut rt: TimerRuntime<u32> = TimerRuntime::new();
    let a = rt.add(10, 0).unwrap();
    let b = rt.add(20, 0).unwrap();
    rt.update_waker(&a, 1);
    rt.update_waker(&b, 2);
    assert_eq!(rt.wake(9), Vec::<u32>::new());
    assert_eq!(rt.wake(15), vec![1]);
    assert!(rt.is_completed(&a));
    assert!(!rt.is_completed(&b));
    assert_eq!(rt.wake(20), vec![2]);
    assert!(rt.is_completed(&b));
}

#[test]
fn is_completed_removes_the_entry() {
    let mut rt: TimerRuntime<u32> = TimerRuntime::new();
    let a = rt.add(10, 0).unwrap();
    assert!(!rt.is_completed(&a));
    assert_eq!(rt.wake(10), Vec::<u32>::new());
    assert!(rt.is_completed(&a));
    assert!(!rt.is_completed(&a));
}

#[test]
fn entry_without_continuation_still_completes() {
    let mut rt: TimerRuntime<u32> = TimerRuntime::new();
    let a = rt.add(10, 0).unwrap();
    let b = rt.add(10, 0).unwrap();
    rt.update_waker(&b, 7);
    assert_eq!(rt.wake(30), vec![7]);
    assert!(rt.is_completed(&a));
    assert!(rt.is_completed(&b));
}

#[test]
fn update_waker_replaces_continuation() {
    let mut rt: TimerRuntime<u32> = TimerRuntime::new();
    let a = rt.add(10, 0).unwrap();
    rt.update_waker(&a, 1);
    rt.update_waker(&a, 2);
    assert_eq!(rt.wake(10), vec![2]);
}

#[test]
fn update_waker_after_firing_changes_nothing() {
    let mut rt: TimerRuntime<u32> = TimerRuntime::new();
    let a = rt.add(10, 0).unwrap();
    assert_eq!(rt.wake(10), Vec::<u32>::new());
    rt.update_waker(&a, 5);
    assert_eq!(rt.wake(11), Vec::<u32>::new());
    assert!(rt.is_completed(&a));
}

#[test]
fn cancelled_entry_never_fires() {
    let mut rt: TimerRuntime<u32> = TimerRuntime::new();
    let a = rt.add(10, 0).unwrap();
    let b = rt.add(10, 0).unwrap();
    rt.update_waker(&a, 1);
    rt.update_waker(&b, 2);
    rt.cancel(&a);
    assert!(!rt.is_completed(&a));
    rt.update_waker(&a, 3);
    assert_eq!(rt.wake(10), vec![2]);
    assert!(!rt.is_completed(&a));
    rt.cancel(&a);
    assert_eq!(rt.wake(100), Vec::<u32>::new());
}

#[test]
fn cancel_after_firing_removes_the_entry() {
    let mut rt: TimerRuntime<u32> = TimerRuntime::new();
    let a = rt.add(10, 0).unwrap();
    rt.update_waker(&a, 1);
    assert_eq!(rt.wake(10), vec![1]);
    rt.cancel(&a);
    assert!(!rt.is_completed(&a));
}

#[test]
fn schedule_and_take_due() {
    let mut rt: TimerRuntime<u32> = TimerRuntime::new();
    let k = rt.schedule(30, 3);
    assert_eq!(k, TimerKey { deadline: 30, seq: 0 });
    rt.schedule(10, 1);
    rt.schedule(30, 4);
    rt.schedule(0, 0);
    assert_eq!(rt.take_due(10), vec![0, 1]);
    assert_eq!(rt.take_due(10), Vec::<u32>::new());
    assert_eq!(rt.take_due(40), vec![3, 4]);
    assert!(!rt.is_completed(&k));
}

#[test]
fn default_state_is_active_without_continuation() {
    let s: TimerState<u32> = TimerState::default();
    assert!(matches!(s, TimerState::Active(None)));
}

#[test]
fn sleeps_resolve_in_deadline_order_and_cancel_is_idempotent() {
    let mut rt: TimerRuntime<&str> = TimerRuntime::new();
    let long = sleep(&mut rt, 10_000_000, 0).unwrap();
    let short = sleep(&mut rt, 5_000_000, 0).unwrap();
    assert!(!long.poll(&mut rt, "long"));
    assert!(!short.poll(&mut rt, "short"));
    assert_eq!(check_timer_events(&mut rt, 5_000_000), vec!["short"]);
    assert!(short.poll(&mut rt, "short"));
    assert!(!long.poll(&mut rt, "long"));
    long.cancel(&mut rt);
    long.cancel(&mut rt);
    assert_eq!(check_timer_events(&mut rt, 20_000_000), Vec::<&str>::new());
    assert!(!long.poll(&mut rt, "long"));
}

#[test]
fn sleep_until_reached_deadline_is_immediate() {
    let mut rt: TimerRuntime<u32> = TimerRuntime::new();
    assert!(sleep_until(&mut rt, 7, 7).is_none());
    assert!(sleep(&mut rt, 0, 7).is_none());
    let f = sleep_until(&mut rt, 8, 7).unwrap();
    assert_eq!(f.key(), TimerKey { deadline: 8, seq: 0 });
}

#[test]
fn empty_wheel_fires_nothing() {
    let mut rt: TimerRuntime<u32> = TimerRuntime::new();
    assert!(rt.has_capacity());
    assert_eq!(rt.wake(u64::MAX), Vec::<u32>::new());
    assert_eq!(rt.take_due(u64::MAX), Vec::<u32>::new());
    assert!(!rt.is_completed(&TimerKey { deadline: 0, seq: 0 }));
}

#[test]
fn largest_deadline_fires_only_at_largest_time() {
    let mut rt: TimerRuntime<u32> = TimerRuntime::new();
    let k = rt.add(u64::MAX, 0).unwrap();
    rt.update_waker(&k, 1);
    assert_eq!(rt.wake(u64::MAX - 1), Vec::<u32>::new());
    assert_eq!(rt.wake(u64::MAX), vec![1]);
}
