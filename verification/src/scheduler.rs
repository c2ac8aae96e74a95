//! The ingestion scheduler, as a state machine.
//!
//! The scheduler owns the ingestion cadence: it polls on a short interval,
//! runs one fetch-and-upsert tick whenever the due time has passed, advances
//! the due time by one period only on success (so a failed tick is retried
//! at the next poll), and honours a cooperative cancellation signal that is
//! sampled only between ticks — never mid-tick. The hosting process drives
//! the loop: it performs the tick and the channel read, and feeds their
//! outcomes back as events.

use vstd::prelude::*;

verus! {

/// Whole seconds in one day, the default scheduling period.
pub const SECONDS_PER_DAY: i64 = 86400;

/// Where the scheduler stands.
#[derive(Clone, Copy, PartialEq, Eq, Structural, Debug)]
pub enum SchedulerPhase {
    /// Waiting for the next due time.
    Idle,
    /// A fetch-and-upsert tick is in flight.
    Running,
    /// Terminal: a stop was requested, or the cancellation channel broke.
    Stopped,
}

/// What the scheduler read from the cancellation channel at one poll.
#[derive(Clone, Copy, PartialEq, Eq, Structural, Debug)]
pub enum ChannelSignal {
    /// A graceful stop was requested.
    Stop,
    /// No signal yet.
    Empty,
    /// The sender vanished without signalling: a fatal condition.
    Closed,
}

/// What the hosting loop must do next.
#[derive(Clone, Copy, PartialEq, Eq, Structural, Debug)]
pub enum SchedulerDirective {
    /// Sleep one polling interval, then poll again.
    Continue,
    /// Stop gracefully and report success.
    ShutDown,
    /// Stop and report the broken cancellation channel.
    Fatal,
}

/// The scheduler state: the phase and the next due time, in whole seconds.
#[derive(Clone, Copy, PartialEq, Eq, Structural, Debug)]
pub struct Scheduler {
    pub phase: SchedulerPhase,
    pub next_due_at: i64,
    pub period_seconds: i64,
}

/// The state after a tick ends: back to `Idle`, the due time advanced by
/// one period exactly when the tick succeeded.
pub open spec fn spec_finish_tick(s: Scheduler, success: bool) -> Scheduler {
    Scheduler {
        phase: SchedulerPhase::Idle,
        next_due_at: if success {
            (s.next_due_at + s.period_seconds) as i64
        } else {
            s.next_due_at
        },
        period_seconds: s.period_seconds,
    }
}

/// The state and directive after one channel poll: a stop request or a
/// broken channel ends the scheduler, silence continues it.
pub open spec fn spec_observe_channel(s: Scheduler, signal: ChannelSignal) -> (Scheduler,
    SchedulerDirective) {
    match signal {
        ChannelSignal::Stop => (
            Scheduler { phase: SchedulerPhase::Stopped, ..s },
            SchedulerDirective::ShutDown,
        ),
        ChannelSignal::Empty => (s, SchedulerDirective::Continue),
        ChannelSignal::Closed => (
            Scheduler { phase: SchedulerPhase::Stopped, ..s },
            SchedulerDirective::Fatal,
        ),
    }
}

impl Scheduler {
    /// A fresh scheduler: idle, due at `start`, one period per `days` days.
    pub fn new(start: i64, days: i64) -> (s: Scheduler)
        requires
            0 <= days <= i64::MAX / SECONDS_PER_DAY,
        ensures
            s.phase is Idle,
            s.next_due_at == start,
            s.period_seconds == days * SECONDS_PER_DAY,
    {
        Scheduler { phase: SchedulerPhase::Idle, next_due_at: start, period_seconds: days * SECONDS_PER_DAY }
    }

    /// One poll of the clock: exactly when the due time has passed, the
    /// scheduler enters `Running` and the caller must run a tick.
    pub fn begin_tick_if_due(&mut self, now: i64) -> (due: bool)
        requires
            old(self).phase is Idle,
        ensures
            due == (now >= old(self).next_due_at),
            final(self).next_due_at == old(self).next_due_at,
            final(self).period_seconds == old(self).period_seconds,
            due ==> final(self).phase is Running,
            !due ==> final(self).phase is Idle,
    {
        if now >= self.next_due_at {
            self.phase = SchedulerPhase::Running;
            true
        } else {
            false
        }
    }

    /// The in-flight tick ended: back to `Idle`; the due time advances by
    /// one period exactly when the tick succeeded, so a failed tick is
    /// retried at the next poll.
    pub fn finish_tick(&mut self, success: bool)
        requires
            old(self).phase is Running,
            old(self).period_seconds >= 0,
            old(self).next_due_at + old(self).period_seconds <= i64::MAX,
        ensures
            *final(self) == spec_finish_tick(*old(self), success),
            final(self).phase is Idle,
            success ==> final(self).next_due_at == old(self).next_due_at + old(
                self,
            ).period_seconds,
            !success ==> final(self).next_due_at == old(self).next_due_at,
    {
        self.phase = SchedulerPhase::Idle;
        if success {
            self.next_due_at = self.next_due_at + self.period_seconds;
        }
    }

    /// One poll of the cancellation channel, taken only between ticks: a
    /// stop request or a broken channel moves to `Stopped` (the latter as a
    /// fatal condition); silence leaves the scheduler idle.
    pub fn observe_channel(&mut self, signal: ChannelSignal) -> (directive: SchedulerDirective)
        requires
            old(self).phase is Idle,
        ensures
            (*final(self), directive) == spec_observe_channel(*old(self), signal),
            final(self).next_due_at == old(self).next_due_at,
            final(self).period_seconds == old(self).period_seconds,
            signal is Stop ==> final(self).phase is Stopped && directive is ShutDown,
            signal is Empty ==> final(self).phase is Idle && directive is Continue,
            signal is Closed ==> final(self).phase is Stopped && directive is Fatal,
    {
        match signal {
            ChannelSignal::Stop => {
                self.phase = SchedulerPhase::Stopped;
                SchedulerDirective::ShutDown
            },
            ChannelSignal::Empty => SchedulerDirective::Continue,
            ChannelSignal::Closed => {
                self.phase = SchedulerPhase::Stopped;
                SchedulerDirective::Fatal
            },
        }
    }
}

/// Law: a cancellation signal pending while a tick runs takes effect only
/// after the tick finishes. The scheduler first returns to `Idle` with the
/// tick's outcome fully applied — the due time advanced exactly on success —
/// and only the following channel poll moves it to `Stopped`; the in-flight
/// tick is never cut short.
pub proof fn lemma_cancellation_waits_for_tick(s: Scheduler, success: bool)
    requires
        s.phase is Running,
        s.period_seconds >= 0,
        s.next_due_at + s.period_seconds <= i64::MAX,
    ensures
        ({
            let after_tick = spec_finish_tick(s, success);
            let (stopped, directive) = spec_observe_channel(after_tick, ChannelSignal::Stop);
            &&& after_tick.phase is Idle
            &&& stopped.phase is Stopped
            &&& directive is ShutDown
            &&& success ==> stopped.next_due_at == s.next_due_at + s.period_seconds
            &&& !success ==> stopped.next_due_at == s.next_due_at
        }),
{
}

} // verus!
