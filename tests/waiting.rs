use axerrno::{AxError, AxResult};
use axpoll::IoEvents;
use axtask::irq::IrqWakers;
use axtask::poll::{classify, PollPhase, PollStep, Poller, Probe};
use axtask::time::{timeout_at_step, timeout_deadline, Elapsed};
use axtask::wait_queue::{
    released_any, wait_deadline, wait_timed_out, wait_timeout_until_step, wait_until_step, TimedWaitStep, WaitPhase,
    WaitQueue, WaitStep,
};
use futures_util::FutureExt;

#[test]
fn notify_one_releases_exactly_one_listener() {
    let wq = WaitQueue::new();
    let mut first = wq.event().listen();
    let mut second = wq.event().listen();
    assert!((&mut first).now_or_never().is_none());
    assert!((&mut second).now_or_never().is_none());
    assert!(wq.notify_one());
    assert!((&mut first).now_or_never().is_some());
    assert!((&mut second).now_or_never().is_none());
    wq.notify_all();
    assert!((&mut second).now_or_never().is_some());
}

#[test]
fn notify_one_without_listeners_reports_none() {
    let wq = WaitQueue::new();
    assert!(!wq.notify_one());
    wq.notify_all();
    let mut late = wq.event().listen();
    assert!((&mut late).now_or_never().is_none());
}

#[test]
fn wait_until_returns_at_once_when_condition_holds() {
    assert!(matches!(wait_until_step(WaitPhase::Unregistered, true), WaitStep::Done));
    assert!(matches!(wait_until_step(WaitPhase::Registered, true), WaitStep::Done));
}

#[test]
fn wait_until_registers_before_suspending() {
    assert!(matches!(wait_until_step(WaitPhase::Unregistered, false), WaitStep::Register));
    assert!(matches!(wait_until_step(WaitPhase::Registered, false), WaitStep::Suspend));
}

#[test]
fn timed_wait_checks_condition_then_deadline() {
    let deadline = wait_deadline(100, 50);
    assert_eq!(deadline, 150);
    assert!(matches!(wait_timeout_until_step(true, 200, deadline), TimedWaitStep::Satisfied));
    assert!(matches!(wait_timeout_until_step(false, 150, deadline), TimedWaitStep::TimedOut));
    assert!(matches!(wait_timeout_until_step(false, 149, deadline), TimedWaitStep::Listen));
    assert!(wait_timed_out::<(), Elapsed>(&Err(Elapsed::new())));
    assert!(!wait_timed_out::<(), Elapsed>(&Ok(())));
}

#[test]
fn timeout_deadline_adds_duration() {
    assert_eq!(timeout_deadline(Some(10), 5), Some(15));
    assert_eq!(timeout_deadline(None, 5), None);
    assert_eq!(timeout_deadline(Some(u64::MAX), 5), None);
}

#[test]
fn timeout_prefers_the_operation() {
    assert_eq!(timeout_at_step(Some(10), Some(3), true), Some(Ok(3)));
    assert_eq!(timeout_at_step(Some(10), Some(3), false), Some(Ok(3)));
    assert_eq!(timeout_at_step(Some(10), None::<u32>, true), Some(Err(Elapsed::new())));
    assert_eq!(timeout_at_step(Some(10), None::<u32>, false), None);
}

#[test]
fn timeout_without_deadline_awaits_operation() {
    assert_eq!(timeout_at_step(None, None::<u32>, true), None);
    assert_eq!(timeout_at_step(None, Some(4), true), Some(Ok(4)));
}

#[test]
fn elapsed_is_a_timeout() {
    assert_eq!(AxError::from(Elapsed::new()), AxError::TimedOut);
    assert_eq!(Elapsed::new().message(), "deadline elapsed");
}

#[test]
fn classify_sorts_probe_results() {
    assert!(matches!(classify::<u32>(Ok(1)), Probe::Ready(1)));
    assert!(matches!(classify::<u32>(Err(AxError::WouldBlock)), Probe::WouldBlock(AxError::WouldBlock)));
    assert!(matches!(classify::<u32>(Err(AxError::NotFound)), Probe::Failed(AxError::NotFound)));
}

fn step_of(poller: &Poller<'_, u8, fn() -> AxResult<u32>>, phase: PollPhase, r: AxResult<u32>) -> PollStep<u32> {
    poller.step(phase, r)
}

fn probe() -> AxResult<u32> {
    Ok(0)
}

#[test]
fn poller_fast_path_and_retry() {
    let source: u8 = 0;
    let poller: Poller<'_, u8, fn() -> AxResult<u32>> = Poller::new(&source, IoEvents::IN, probe);
    assert!(!poller.is_non_blocking());
    assert!(matches!(step_of(&poller, PollPhase::Probe, Ok(5)), PollStep::Done(Ok(5))));
    assert!(matches!(
        step_of(&poller, PollPhase::Probe, Err(AxError::BadState)),
        PollStep::Done(Err(AxError::BadState))
    ));
    assert!(matches!(step_of(&poller, PollPhase::Probe, Err(AxError::WouldBlock)), PollStep::RegisterAndRetry));
    assert!(matches!(step_of(&poller, PollPhase::Recheck, Err(AxError::WouldBlock)), PollStep::Pending));
    assert!(matches!(step_of(&poller, PollPhase::Recheck, Ok(6)), PollStep::Done(Ok(6))));
    assert!(matches!(
        step_of(&poller, PollPhase::Recheck, Err(AxError::Io)),
        PollStep::Done(Err(AxError::Io))
    ));
}

#[test]
fn non_blocking_poller_returns_would_block() {
    let source: u8 = 0;
    let poller: Poller<'_, u8, fn() -> AxResult<u32>> =
        Poller::new(&source, IoEvents::OUT, probe as fn() -> AxResult<u32>).non_blocking(true);
    assert!(poller.is_non_blocking());
    assert_eq!(poller.events().bits(), IoEvents::OUT.bits());
    assert!(matches!(
        step_of(&poller, PollPhase::Probe, Err(AxError::WouldBlock)),
        PollStep::Done(Err(AxError::WouldBlock))
    ));
}

#[test]
fn irq_registry_installs_handler_on_first_use_only() {
    let waker = futures_util::task::noop_waker();
    let mut reg = IrqWakers::new();
    assert!(reg.register_irq_waker(3, &waker));
    assert!(!reg.register_irq_waker(3, &waker));
    assert!(reg.register_irq_waker(4, &waker));
    let set = reg.take(3);
    assert!(set.is_some());
    assert_eq!(set.unwrap().wake(), 2);
    assert!(reg.take(3).is_none());
    assert!(!reg.register_irq_waker(3, &waker));
    assert!(reg.take(4).is_some());
}

#[test]
fn irq_handler_wakes_every_registered_waker() {
    let waker = futures_util::task::noop_waker();
    let mut reg = IrqWakers::new();
    for _ in 0..3 {
        reg.register_irq_waker(7, &waker);
    }
    reg.register_irq_waker(8, &waker);
    assert_eq!(reg.handle_irq(7), 3);
    assert_eq!(reg.handle_irq(7), 0);
    assert_eq!(reg.handle_irq(8), 1);
    assert_eq!(reg.handle_irq(9), 0);
}

#[test]
fn irq_wait_set_is_capped_at_capacity() {
    let waker = futures_util::task::noop_waker();
    let mut reg = IrqWakers::new();
    for _ in 0..70 {
        reg.register_irq_waker(1, &waker);
    }
    assert_eq!(reg.handle_irq(1), 64);
}

#[test]
fn released_any_reads_the_notified_count() {
    assert!(released_any(1));
    assert!(!released_any(0));
    let wq = WaitQueue::new();
    let mut l = wq.event().listen();
    assert_eq!(wq.notify(5), 1);
    assert_eq!(wq.notify(5), 0);
    assert!((&mut l).now_or_never().is_some());
}
