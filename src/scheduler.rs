use vstd::prelude::*;

use crate::cron::{interval_matches, Moment};
use crate::events::{Event, EventView};

verus! {

/// Where the scheduler stands.
#[derive(Debug, Clone, Copy, PartialEq, Eq, Structural)]
pub enum SchedulerPhase {
    /// Waiting for the first minute boundary.
    Aligning,
    /// Ticking once a minute.
    Running,
    /// A shutdown signal came: no new work, waiting for the units in flight.
    Draining,
    /// The database resource is released.
    Terminated,
}

/// The decisions of the tick loop and of the shutdown coordinator. The
/// driver waits for timers and signals, performs the dispatches and the
/// release, and reports each unit that finishes.
#[derive(Debug, Clone, Copy, PartialEq, Eq, Structural)]
pub struct Scheduler {
    pub phase: SchedulerPhase,
    /// Units dispatched and not yet finished.
    pub in_flight: usize,
}

/// The positions, in order, of the events flagged to run at start-up.
pub open spec fn startup_indices(evs: Seq<EventView>) -> Seq<usize>
    decreases evs.len(),
{
    if evs.len() == 0 {
        Seq::empty()
    } else {
        let rest = startup_indices(evs.drop_last());
        if evs.last().interval.startup {
            rest.push((evs.len() - 1) as usize)
        } else {
            rest
        }
    }
}

/// The positions, in order, of the events whose schedule is due at `m`.
pub open spec fn due_indices(evs: Seq<EventView>, m: Moment) -> Seq<usize>
    decreases evs.len(),
{
    if evs.len() == 0 {
        Seq::empty()
    } else {
        let rest = due_indices(evs.drop_last(), m);
        if interval_matches(evs.last().interval, m) {
            rest.push((evs.len() - 1) as usize)
        } else {
            rest
        }
    }
}

pub open spec fn event_views(evs: Seq<Event>) -> Seq<EventView> {
    evs.map_values(|e: Event| e@)
}

proof fn lemma_indices_bounded(evs: Seq<EventView>, m: Moment)
    ensures
        startup_indices(evs).len() <= evs.len(),
        due_indices(evs, m).len() <= evs.len(),
    decreases evs.len(),
{
    if evs.len() > 0 {
        lemma_indices_bounded(evs.drop_last(), m);
    }
}

/// What the driver reports to the scheduler.
pub enum SchedulerInput {
    /// Start-up dispatch of this many flagged events.
    Startup(nat),
    /// The first minute boundary came.
    Aligned,
    /// A tick with this many due events.
    Tick(nat),
    /// A dispatched unit finished.
    UnitFinished,
    /// A shutdown signal came.
    Signal,
    /// The database resource was released.
    Released,
}

/// The scheduler after one input. Dispatch counts only at start-up, while
/// aligning, and at a tick, while running; a signal stops both; the release
/// ends the scheduler only once it drains with no unit in flight.
pub open spec fn scheduler_next(s: Scheduler, input: SchedulerInput) -> Scheduler {
    match input {
        SchedulerInput::Startup(k) => if s.phase == SchedulerPhase::Aligning {
            Scheduler { in_flight: (s.in_flight + k) as usize, ..s }
        } else {
            s
        },
        SchedulerInput::Aligned => if s.phase == SchedulerPhase::Aligning {
            Scheduler { phase: SchedulerPhase::Running, ..s }
        } else {
            s
        },
        SchedulerInput::Tick(k) => if s.phase == SchedulerPhase::Running {
            Scheduler { in_flight: (s.in_flight + k) as usize, ..s }
        } else {
            s
        },
        SchedulerInput::UnitFinished => if s.in_flight > 0 {
            Scheduler { in_flight: (s.in_flight - 1) as usize, ..s }
        } else {
            s
        },
        SchedulerInput::Signal => if s.phase == SchedulerPhase::Aligning || s.phase
            == SchedulerPhase::Running {
            Scheduler { phase: SchedulerPhase::Draining, ..s }
        } else {
            s
        },
        SchedulerInput::Released => if s.phase == SchedulerPhase::Draining && s.in_flight == 0 {
            Scheduler { phase: SchedulerPhase::Terminated, ..s }
        } else {
            s
        },
    }
}

/// The scheduler after a run of inputs, in order.
pub open spec fn scheduler_after(s: Scheduler, inputs: Seq<SchedulerInput>) -> Scheduler
    decreases inputs.len(),
{
    if inputs.len() == 0 {
        s
    } else {
        scheduler_next(scheduler_after(s, inputs.drop_last()), inputs.last())
    }
}

/// How many of the inputs report a finished unit.
pub open spec fn finished_count(inputs: Seq<SchedulerInput>) -> nat
    decreases inputs.len(),
{
    if inputs.len() == 0 {
        0
    } else {
        finished_count(inputs.drop_last()) + if inputs.last() is UnitFinished {
            1nat
        } else {
            0nat
        }
    }
}

/// Once a shutdown signal has come, whatever follows dispatches nothing
/// new, and the scheduler reaches its end only after as many units have
/// finished as were in flight when the signal came.
pub proof fn lemma_shutdown_waits_for_units(s: Scheduler, inputs: Seq<SchedulerInput>)
    requires
        s.phase == SchedulerPhase::Draining,
    ensures
        scheduler_after(s, inputs).in_flight + finished_count(inputs) >= s.in_flight,
        scheduler_after(s, inputs).in_flight <= s.in_flight,
        scheduler_after(s, inputs).phase == SchedulerPhase::Draining || scheduler_after(
            s,
            inputs,
        ).phase == SchedulerPhase::Terminated,
        scheduler_after(s, inputs).phase == SchedulerPhase::Terminated ==> finished_count(inputs)
            >= s.in_flight,
    decreases inputs.len(),
{
    if inputs.len() > 0 {
        lemma_shutdown_waits_for_units(s, inputs.drop_last());
        lemma_terminated_stays_empty(s, inputs.drop_last());
    }
}

/// The end is final: once released, the scheduler stays released, so the
/// release of the database happens at most once.
pub proof fn lemma_release_once(s: Scheduler, inputs: Seq<SchedulerInput>, i: int, j: int)
    requires
        0 <= i <= j <= inputs.len(),
        scheduler_after(s, inputs.take(i)).phase == SchedulerPhase::Terminated,
    ensures
        scheduler_after(s, inputs.take(j)).phase == SchedulerPhase::Terminated,
    decreases j - i,
{
    if j > i {
        lemma_release_once(s, inputs, i, j - 1);
        assert(inputs.take(j).drop_last() =~= inputs.take(j - 1));
    }
}

/// A scheduler that reached its end holds no unit in flight.
proof fn lemma_terminated_stays_empty(s: Scheduler, inputs: Seq<SchedulerInput>)
    requires
        s.phase == SchedulerPhase::Draining,
    ensures
        scheduler_after(s, inputs).phase == SchedulerPhase::Terminated ==> scheduler_after(
            s,
            inputs,
        ).in_flight == 0,
    decreases inputs.len(),
{
    if inputs.len() > 0 {
        lemma_terminated_stays_empty(s, inputs.drop_last());
    }
}

impl Scheduler {
    /// Nothing runs once the resource is released.
    pub open spec fn wf(&self) -> bool {
        self.phase == SchedulerPhase::Terminated ==> self.in_flight == 0
    }

    /// A scheduler waiting for the first minute boundary.
    pub fn new() -> (r: Scheduler)
        ensures
            r.wf(),
            r.phase == SchedulerPhase::Aligning,
            r.in_flight == 0,
    {
        Scheduler { phase: SchedulerPhase::Aligning, in_flight: 0 }
    }

    /// The events to dispatch at start-up, during the alignment wait: every
    /// event flagged `@startup`, in file order. Nothing once a shutdown has
    /// begun.
    pub fn startup(&mut self, events: &Vec<Event>) -> (r: Vec<usize>)
        requires
            old(self).wf(),
            old(self).in_flight + events@.len() <= usize::MAX,
        ensures
            final(self).wf(),
            final(self).phase == old(self).phase,
            old(self).phase == SchedulerPhase::Aligning ==> r@ == startup_indices(
                event_views(events@),
            ),
            old(self).phase != SchedulerPhase::Aligning ==> r@.len() == 0,
            final(self).in_flight == old(self).in_flight + r@.len(),
            *final(self) == scheduler_next(*old(self), SchedulerInput::Startup(r@.len())),
    {
        let mut r: Vec<usize> = Vec::new();
        if self.phase != SchedulerPhase::Aligning {
            return r;
        }
        let ghost evs = event_views(events@);
        let mut i: usize = 0;
        assert(evs.take(0) =~= Seq::<EventView>::empty());
        while i < events.len()
            invariant
                i <= events.len(),
                evs == event_views(events@),
                evs.len() == events@.len(),
                r@ == startup_indices(evs.take(i as int)),
            decreases events.len() - i,
        {
            assert(evs.take(i + 1).drop_last() =~= evs.take(i as int));
            assert(evs.take(i + 1).last() == events@[i as int]@);
            if events[i].interval.startup {
                r.push(i);
            }
            i += 1;
        }
        assert(evs.take(events.len() as int) =~= evs);
        proof {
            lemma_indices_bounded(evs, Moment { minute: 0, hour: 0, day: 1, month: 1, weekday: 1 });
        }
        self.in_flight = self.in_flight + r.len();
        r
    }

    /// The first minute boundary has come: the steady tick begins, unless a
    /// shutdown has begun.
    pub fn aligned(&mut self)
        requires
            old(self).wf(),
        ensures
            final(self).wf(),
            final(self).in_flight == old(self).in_flight,
            old(self).phase == SchedulerPhase::Aligning ==> final(self).phase
                == SchedulerPhase::Running,
            old(self).phase != SchedulerPhase::Aligning ==> final(self).phase == old(self).phase,
            *final(self) == scheduler_next(*old(self), SchedulerInput::Aligned),
    {
        if self.phase == SchedulerPhase::Aligning {
            self.phase = SchedulerPhase::Running;
        }
    }

    /// One tick: every event due at the single reading `now`, in file order,
    /// while running; nothing in any other phase.
    pub fn tick(&mut self, events: &Vec<Event>, now: &Moment) -> (r: Vec<usize>)
        requires
            old(self).wf(),
            old(self).in_flight + events@.len() <= usize::MAX,
            forall|i: int| 0 <= i < events@.len() ==> (#[trigger] events@[i]).wf(),
        ensures
            final(self).wf(),
            final(self).phase == old(self).phase,
            old(self).phase == SchedulerPhase::Running ==> r@ == due_indices(
                event_views(events@),
                *now,
            ),
            old(self).phase != SchedulerPhase::Running ==> r@.len() == 0,
            final(self).in_flight == old(self).in_flight + r@.len(),
            *final(self) == scheduler_next(*old(self), SchedulerInput::Tick(r@.len())),
    {
        let mut r: Vec<usize> = Vec::new();
        if self.phase != SchedulerPhase::Running {
            return r;
        }
        let ghost evs = event_views(events@);
        let mut i: usize = 0;
        assert(evs.take(0) =~= Seq::<EventView>::empty());
        while i < events.len()
            invariant
                i <= events.len(),
                evs == event_views(events@),
                evs.len() == events@.len(),
                forall|k: int| 0 <= k < events@.len() ==> (#[trigger] events@[k]).wf(),
                r@ == due_indices(evs.take(i as int), *now),
            decreases events.len() - i,
        {
            assert(evs.take(i + 1).drop_last() =~= evs.take(i as int));
            assert(evs.take(i + 1).last() == events@[i as int]@);
            assert(events@[i as int].wf());
            if events[i].interval.match_time(now) {
                r.push(i);
            }
            i += 1;
        }
        assert(evs.take(events.len() as int) =~= evs);
        proof {
            lemma_indices_bounded(evs, *now);
        }
        self.in_flight = self.in_flight + r.len();
        r
    }

    /// A dispatched unit finished, whether it succeeded or failed.
    pub fn unit_finished(&mut self)
        requires
            old(self).wf(),
            old(self).in_flight > 0,
        ensures
            final(self).wf(),
            final(self).phase == old(self).phase,
            final(self).in_flight == old(self).in_flight - 1,
            *final(self) == scheduler_next(*old(self), SchedulerInput::UnitFinished),
    {
        self.in_flight = self.in_flight - 1;
    }

    /// A shutdown signal came: ticking and dispatch stop; the units in flight
    /// are left to finish.
    pub fn signal(&mut self)
        requires
            old(self).wf(),
        ensures
            final(self).wf(),
            final(self).in_flight == old(self).in_flight,
            old(self).phase == SchedulerPhase::Aligning || old(self).phase
                == SchedulerPhase::Running ==> final(self).phase == SchedulerPhase::Draining,
            old(self).phase == SchedulerPhase::Draining || old(self).phase
                == SchedulerPhase::Terminated ==> final(self).phase == old(self).phase,
            *final(self) == scheduler_next(*old(self), SchedulerInput::Signal),
    {
        if self.phase == SchedulerPhase::Aligning || self.phase == SchedulerPhase::Running {
            self.phase = SchedulerPhase::Draining;
        }
    }

    /// Whether the database resource may be released now: a shutdown has
    /// begun and every dispatched unit has finished.
    pub fn may_release(&self) -> (r: bool)
        ensures
            r == (self.phase == SchedulerPhase::Draining && self.in_flight == 0),
    {
        self.phase == SchedulerPhase::Draining && self.in_flight == 0
    }

    /// The database resource was released.
    pub fn released(&mut self)
        requires
            old(self).wf(),
            old(self).phase == SchedulerPhase::Draining,
            old(self).in_flight == 0,
        ensures
            final(self).wf(),
            final(self).phase == SchedulerPhase::Terminated,
            final(self).in_flight == 0,
            *final(self) == scheduler_next(*old(self), SchedulerInput::Released),
    {
        self.phase = SchedulerPhase::Terminated;
    }
}

/// The skew added to the wait for the first tick, in milliseconds.
pub const ALIGN_SKEW_MS: u64 = 2;

/// Nanoseconds in a minute.
pub const MINUTE_NS: u64 = 60_000_000_000;

/// The nanoseconds left until the next minute boundary, given the second
/// and the nanosecond within it.
pub open spec fn remaining_ns(second: u32, nanosecond: u32) -> int {
    let elapsed = second * 1_000_000_000int + nanosecond;
    if elapsed < MINUTE_NS {
        MINUTE_NS - elapsed
    } else {
        0
    }
}

/// The wait until the next minute boundary, in milliseconds: the time left,
/// rounded up to a whole millisecond, plus a small skew, so that the first
/// tick never comes early.
pub fn millis_to_next_minute(second: u32, nanosecond: u32) -> (r: u64)
    ensures
        r == (remaining_ns(second, nanosecond) + 999_999) / 1_000_000 + ALIGN_SKEW_MS,
        r * 1_000_000 >= remaining_ns(second, nanosecond) + ALIGN_SKEW_MS * 1_000_000,
{
    let elapsed: u64 = (second as u64) * 1_000_000_000 + nanosecond as u64;
    let remaining: u64 = if elapsed < MINUTE_NS {
        MINUTE_NS - elapsed
    } else {
        0
    };
    let r = (remaining + 999_999) / 1_000_000 + ALIGN_SKEW_MS;
    assert(r * 1_000_000 >= remaining + ALIGN_SKEW_MS * 1_000_000) by (nonlinear_arith)
        requires
            r == (remaining + 999_999) / 1_000_000 + ALIGN_SKEW_MS,
            ALIGN_SKEW_MS == 2,
    {}
    r
}

} // verus!
