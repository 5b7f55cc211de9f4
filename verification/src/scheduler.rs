//! The order of the stages within a tick, the pacing between ticks, and the
//! way a shutdown request ends the loop.

use vstd::prelude::*;

verus! {

pub const NANOS_PER_SECOND: u64 = 1_000_000_000;

/// What the loop does next.
#[derive(Clone, Copy, PartialEq, Eq, Structural, Debug)]
pub enum Phase {
    /// Drain the pending connections.
    Accept,
    /// One read attempt on every connection.
    Read,
    /// Append the staged messages to the queues.
    Broadcast,
    /// Flush the queues.
    Write,
    /// Remove the flagged entities.
    Sweep,
    /// Sleep out the rest of the tick period.
    Sleep,
    /// Close every connection: the last step of a shutdown.
    Close,
    /// The loop has ended.
    Stopped,
}

/// What a [`Scheduler`] is.
pub struct SchedulerView {
    /// The length of a tick in nanoseconds.
    pub period: u64,
    /// The stage to run now.
    pub phase: Phase,
    /// A shutdown has been requested.
    pub stopping: bool,
    /// The final flush is under way.
    pub draining: bool,
}

/// The tick period for a rate in ticks per second.
pub open spec fn period_for(rate: u32) -> u64
    recommends
        rate > 0,
{
    (NANOS_PER_SECOND / (rate as u64)) as u64
}

/// How long to sleep when `elapsed` nanoseconds of a tick of `period`
/// nanoseconds are gone: the rest of the period, or nothing if the tick
/// overran.
pub open spec fn pause_for(period: u64, elapsed: u64) -> u64 {
    if elapsed >= period {
        0
    } else {
        (period - elapsed) as u64
    }
}

/// The scheduler after the current stage is done. Within a tick the stages
/// follow each other in their fixed order. A shutdown request takes effect
/// where a tick ends: queued data is flushed once more, every connection is
/// closed, and the loop stops.
pub open spec fn advanced(s: SchedulerView) -> SchedulerView {
    match s.phase {
        Phase::Accept => SchedulerView { phase: Phase::Read, ..s },
        Phase::Read => SchedulerView { phase: Phase::Broadcast, ..s },
        Phase::Broadcast => SchedulerView { phase: Phase::Write, ..s },
        Phase::Write => if s.draining {
            SchedulerView { phase: Phase::Close, ..s }
        } else {
            SchedulerView { phase: Phase::Sweep, ..s }
        },
        Phase::Sweep => if s.stopping {
            SchedulerView { phase: Phase::Write, draining: true, ..s }
        } else {
            SchedulerView { phase: Phase::Sleep, ..s }
        },
        Phase::Sleep => if s.stopping {
            SchedulerView { phase: Phase::Write, draining: true, ..s }
        } else {
            SchedulerView { phase: Phase::Accept, ..s }
        },
        Phase::Close => SchedulerView { phase: Phase::Stopped, ..s },
        Phase::Stopped => s,
    }
}

/// The final flush is only ever under way after a shutdown request, and
/// leads from the write stage to the close and the stop.
pub open spec fn valid(s: SchedulerView) -> bool {
    s.draining ==> s.stopping && (s.phase == Phase::Write || s.phase == Phase::Close || s.phase
        == Phase::Stopped)
}

/// The scheduler after `steps` stages.
pub open spec fn advanced_by(s: SchedulerView, steps: nat) -> SchedulerView
    decreases steps,
{
    if steps == 0 {
        s
    } else {
        advanced(advanced_by(s, (steps - 1) as nat))
    }
}

/// Drives the loop: names the stage to run and the time to sleep.
pub struct Scheduler {
    period: u64,
    phase: Phase,
    stopping: bool,
    draining: bool,
}

impl View for Scheduler {
    type V = SchedulerView;

    closed spec fn view(&self) -> SchedulerView {
        SchedulerView {
            period: self.period,
            phase: self.phase,
            stopping: self.stopping,
            draining: self.draining,
        }
    }
}

impl Scheduler {
    /// What holds of every scheduler that this module hands out.
    pub open spec fn wf(&self) -> bool {
        valid(self@)
    }

    /// A scheduler for `rate` ticks per second, about to accept. There is
    /// none for a rate of zero.
    pub fn new(rate: u32) -> (scheduler: Option<Scheduler>)
        ensures
            scheduler.is_some() == (rate > 0),
            scheduler matches Some(s) ==> s.wf() && s@ == (SchedulerView {
                period: period_for(rate),
                phase: Phase::Accept,
                stopping: false,
                draining: false,
            }),
    {
        if rate == 0 {
            None
        } else {
            Some(Scheduler::with_period(NANOS_PER_SECOND / (rate as u64)))
        }
    }

    /// A scheduler whose ticks last `period` nanoseconds, about to accept.
    pub fn with_period(period: u64) -> (scheduler: Scheduler)
        ensures
            scheduler.wf(),
            scheduler@ == (SchedulerView {
                period,
                phase: Phase::Accept,
                stopping: false,
                draining: false,
            }),
    {
        Scheduler { period, phase: Phase::Accept, stopping: false, draining: false }
    }

    /// The length of a tick in nanoseconds.
    pub fn period(&self) -> (nanos: u64)
        ensures
            nanos == self@.period,
    {
        self.period
    }

    /// The stage to run now.
    pub fn phase(&self) -> (phase: Phase)
        ensures
            phase == self@.phase,
    {
        self.phase
    }

    /// Whether a shutdown has been requested.
    pub fn is_stopping(&self) -> (b: bool)
        ensures
            b == self@.stopping,
    {
        self.stopping
    }

    /// Whether the loop has ended.
    pub fn is_stopped(&self) -> (b: bool)
        ensures
            b == (self@.phase == Phase::Stopped),
    {
        self.phase == Phase::Stopped
    }

    /// Asks the loop to end. The tick in progress runs to its end first.
    pub fn request_shutdown(&mut self)
        ensures
            final(self)@ == (SchedulerView { stopping: true, ..old(self)@ }),
            old(self).wf() ==> final(self).wf(),
    {
        self.stopping = true;
    }

    /// Marks the current stage as done and names the next one.
    pub fn advance(&mut self) -> (next: Phase)
        ensures
            final(self)@ == advanced(old(self)@),
            next == final(self)@.phase,
            old(self).wf() ==> final(self).wf(),
    {
        match self.phase {
            Phase::Accept => {
                self.phase = Phase::Read;
            },
            Phase::Read => {
                self.phase = Phase::Broadcast;
            },
            Phase::Broadcast => {
                self.phase = Phase::Write;
            },
            Phase::Write => {
                if self.draining {
                    self.phase = Phase::Close;
                } else {
                    self.phase = Phase::Sweep;
                }
            },
            Phase::Sweep => {
                if self.stopping {
                    self.draining = true;
                    self.phase = Phase::Write;
                } else {
                    self.phase = Phase::Sleep;
                }
            },
            Phase::Sleep => {
                if self.stopping {
                    self.draining = true;
                    self.phase = Phase::Write;
                } else {
                    self.phase = Phase::Accept;
                }
            },
            Phase::Close => {
                self.phase = Phase::Stopped;
            },
            Phase::Stopped => {},
        }
        self.phase
    }

    /// How many nanoseconds to sleep when the tick has taken `elapsed`
    /// nanoseconds so far.
    pub fn pause(&self, elapsed: u64) -> (nanos: u64)
        ensures
            nanos == pause_for(self@.period, elapsed),
    {
        if elapsed >= self.period {
            0
        } else {
            self.period - elapsed
        }
    }
}

/// A running scheduler goes through the six stages of a tick in their order
/// and is then back where the tick began.
pub proof fn law_tick_order(s: SchedulerView)
    requires
        s.phase == Phase::Accept,
        !s.stopping,
        !s.draining,
    ensures
        advanced_by(s, 1).phase == Phase::Read,
        advanced_by(s, 2).phase == Phase::Broadcast,
        advanced_by(s, 3).phase == Phase::Write,
        advanced_by(s, 4).phase == Phase::Sweep,
        advanced_by(s, 5).phase == Phase::Sleep,
        advanced_by(s, 6) == s,
{
    reveal_with_fuel(advanced_by, 7);
}

/// Once a shutdown is requested the loop never accepts again, and seven
/// stages later at the latest it has flushed, closed and stopped.
pub proof fn law_shutdown_stops(s: SchedulerView, steps: nat)
    requires
        valid(s),
        s.stopping,
        steps >= 1,
    ensures
        advanced_by(s, steps).phase != Phase::Accept,
        valid(advanced_by(s, steps)),
        steps >= 7 ==> advanced_by(s, steps).phase == Phase::Stopped,
    decreases steps,
{
    if steps <= 7 {
        reveal_with_fuel(advanced_by, 8);
    } else {
        law_shutdown_stops(s, (steps - 1) as nat);
    }
}

} // verus!
