//! Scheduler state-machine behavior.

use financial_data::scheduler::{ChannelSignal, Scheduler, SchedulerDirective, SchedulerPhase,
    SECONDS_PER_DAY};

#[test]
fn successful_tick_advances_exactly_one_day() {
    let mut s = Scheduler::new(1_000_000, 1);
    assert_eq!(s.phase, SchedulerPhase::Idle);
    assert!(s.begin_tick_if_due(1_000_000));
    assert_eq!(s.phase, SchedulerPhase::Running);
    s.finish_tick(true);
    assert_eq!(s.phase, SchedulerPhase::Idle);
    assert_eq!(s.next_due_at, 1_000_000 + SECONDS_PER_DAY);
}

#[test]
fn failed_tick_leaves_due_time_for_retry() {
    let mut s = Scheduler::new(1_000_000, 1);
    assert!(s.begin_tick_if_due(1_000_005));
    s.finish_tick(false);
    assert_eq!(s.next_due_at, 1_000_000);
    // the same tick is due again at the next poll
    assert!(s.begin_tick_if_due(1_000_010));
}

#[test]
fn tick_not_due_before_due_time() {
    let mut s = Scheduler::new(1_000_000, 1);
    assert!(!s.begin_tick_if_due(999_999));
    assert_eq!(s.phase, SchedulerPhase::Idle);
}

#[test]
fn cancellation_waits_for_running_tick() {
    let mut s = Scheduler::new(1_000_000, 1);
    assert!(s.begin_tick_if_due(1_000_000));
    // a stop signal is pending, but it is only sampled between ticks:
    // the in-flight tick finishes first, with its outcome fully applied
    s.finish_tick(true);
    assert_eq!(s.phase, SchedulerPhase::Idle);
    assert_eq!(s.next_due_at, 1_000_000 + SECONDS_PER_DAY);
    let directive = s.observe_channel(ChannelSignal::Stop);
    assert_eq!(directive, SchedulerDirective::ShutDown);
    assert_eq!(s.phase, SchedulerPhase::Stopped);
    assert_eq!(s.next_due_at, 1_000_000 + SECONDS_PER_DAY);
}

#[test]
fn empty_channel_continues_polling() {
    let mut s = Scheduler::new(1_000_000, 1);
    let directive = s.observe_channel(ChannelSignal::Empty);
    assert_eq!(directive, SchedulerDirective::Continue);
    assert_eq!(s.phase, SchedulerPhase::Idle);
}

#[test]
fn closed_channel_is_fatal() {
    let mut s = Scheduler::new(1_000_000, 1);
    let directive = s.observe_channel(ChannelSignal::Closed);
    assert_eq!(directive, SchedulerDirective::Fatal);
    assert_eq!(s.phase, SchedulerPhase::Stopped);
}
