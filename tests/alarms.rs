use axtask::alarm::Alarms;
use axtask::timer_wheel::TimerRuntime;
use axtask::timers::{check_events, register_timer_callback};
use std::cell::Cell;

#[test]
fn alarm_unblocks_task_when_due() {
    let mut al = Alarms::new(2);
    let t = al.add_task();
    assert_eq!(al.ticket(t), 0);
    assert_eq!(al.set_alarm(1, t, 100), 1);
    assert_eq!(al.on_tick(0, 200), Vec::<usize>::new());
    assert_eq!(al.on_tick(1, 99), Vec::<usize>::new());
    assert_eq!(al.on_tick(1, 100), vec![t]);
    assert_eq!(al.on_tick(1, 300), Vec::<usize>::new());
}

#[test]
fn rearmed_task_ignores_stale_alarm() {
    let mut al = Alarms::new(1);
    let t = al.add_task();
    assert_eq!(al.set_alarm(0, t, 100), 1);
    assert_eq!(al.set_alarm(0, t, 200), 2);
    assert_eq!(al.ticket(t), 2);
    assert_eq!(al.on_tick(0, 150), Vec::<usize>::new());
    assert_eq!(al.on_tick(0, 250), vec![t]);
}

#[test]
fn alarms_fire_in_deadline_order() {
    let mut al = Alarms::new(1);
    let a = al.add_task();
    let b = al.add_task();
    let c = al.add_task();
    al.set_alarm(0, c, 30);
    al.set_alarm(0, a, 10);
    al.set_alarm(0, b, 10);
    assert_eq!(al.on_tick(0, 30), vec![a, b, c]);
}

#[test]
fn tick_runs_callbacks_then_fires_timers() {
    let seen: Cell<u64> = Cell::new(0);
    let count: Cell<u32> = Cell::new(0);
    let mut callbacks: Vec<Box<dyn Fn(u64) + '_>> = Vec::new();
    register_timer_callback(&mut callbacks, Box::new(|now| seen.set(now)));
    register_timer_callback(&mut callbacks, Box::new(|_| count.set(count.get() + 1)));
    let mut rt: TimerRuntime<u32> = TimerRuntime::new();
    let k = rt.add(10, 0).unwrap();
    rt.update_waker(&k, 9);
    assert_eq!(check_events(&callbacks, &mut rt, 5), Vec::<u32>::new());
    assert_eq!(seen.get(), 5);
    assert_eq!(check_events(&callbacks, &mut rt, 12), vec![9]);
    assert_eq!(seen.get(), 12);
    assert_eq!(count.get(), 2);
}

#[test]
fn alarm_preconditions_are_reported() {
    let mut al = Alarms::new(2);
    assert_eq!(al.cpus(), 2);
    assert_eq!(al.tasks(), 0);
    assert!(!al.can_set_alarm(0, 0));
    let t = al.add_task();
    assert_eq!(al.tasks(), 1);
    assert!(al.can_set_alarm(1, t));
    assert!(!al.can_set_alarm(2, t));
}

#[test]
fn tasks_on_other_cores_are_not_disturbed() {
    let mut al = Alarms::new(2);
    let a = al.add_task();
    let b = al.add_task();
    al.set_alarm(0, a, 10);
    al.set_alarm(1, b, 10);
    assert_eq!(al.on_tick(0, 10), vec![a]);
    assert_eq!(al.on_tick(1, 10), vec![b]);
}

#[test]
fn alarm_moved_to_another_core_keeps_only_newest() {
    let mut al = Alarms::new(2);
    let t = al.add_task();
    al.set_alarm(0, t, 10);
    al.set_alarm(1, t, 20);
    assert_eq!(al.on_tick(0, 30), Vec::<usize>::new());
    assert_eq!(al.on_tick(1, 30), vec![t]);
}
