//! Suspension and timed wake-up for a cooperative kernel scheduler: a timer
//! wheel, ticketed per-core alarms, wait queues, a polling bridge and the
//! deadline race that composes them.

pub mod alarm;
pub mod irq;
pub mod poll;
pub mod time;
pub mod timer_wheel;
pub mod timers;
pub mod wait_queue;
