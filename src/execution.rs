use vstd::prelude::*;

use std::collections::VecDeque;

verus! {

// ---------------------------------------------------------------------------
// One execution of an event: a transaction around its statements.
// ---------------------------------------------------------------------------

/// What the driver of a unit does next.
#[derive(Debug, Clone, Copy, PartialEq, Eq, Structural)]
pub enum UnitAction {
    /// Open a transaction.
    Begin,
    /// Run the statement at this position, inside the transaction.
    Execute(usize),
    /// Commit the transaction.
    Commit,
    /// Stop: `true` once the transaction committed; `false` when a step
    /// failed, and the transaction is dropped uncommitted, which rolls it
    /// back.
    Finish(bool),
}

/// Where a unit stands.
#[derive(Debug, Clone, Copy, PartialEq, Eq, Structural)]
pub enum UnitPhase {
    Beginning,
    Executing(usize),
    Committing,
    Done(bool),
}

/// The decisions of one execution unit over an event of `statements`
/// statements. The driver performs each action and reports whether it
/// succeeded.
#[derive(Debug, Clone, Copy, PartialEq, Eq, Structural)]
pub struct UnitRun {
    pub statements: usize,
    pub phase: UnitPhase,
}

/// The action that goes with a phase.
pub open spec fn action_of(phase: UnitPhase) -> UnitAction {
    match phase {
        UnitPhase::Beginning => UnitAction::Begin,
        UnitPhase::Executing(i) => UnitAction::Execute(i),
        UnitPhase::Committing => UnitAction::Commit,
        UnitPhase::Done(ok) => UnitAction::Finish(ok),
    }
}

/// The phase after the current step reported `ok`: statements run in order
/// while each succeeds; the commit comes only after the last one; any
/// failure ends the unit uncommitted.
pub open spec fn unit_next(n: nat, phase: UnitPhase, ok: bool) -> UnitPhase {
    match phase {
        UnitPhase::Beginning => if !ok {
            UnitPhase::Done(false)
        } else if n == 0 {
            UnitPhase::Committing
        } else {
            UnitPhase::Executing(0)
        },
        UnitPhase::Executing(i) => if !ok {
            UnitPhase::Done(false)
        } else if i + 1 >= n {
            UnitPhase::Committing
        } else {
            UnitPhase::Executing((i + 1) as usize)
        },
        UnitPhase::Committing => UnitPhase::Done(ok),
        UnitPhase::Done(b) => UnitPhase::Done(b),
    }
}

/// The phase after the reports `outcomes`, in order, from the start.
pub open spec fn unit_after(n: nat, outcomes: Seq<bool>) -> UnitPhase
    decreases outcomes.len(),
{
    if outcomes.len() == 0 {
        UnitPhase::Beginning
    } else {
        unit_next(n, unit_after(n, outcomes.drop_last()), outcomes.last())
    }
}

impl UnitRun {
    pub open spec fn wf(&self) -> bool {
        match self.phase {
            UnitPhase::Executing(i) => i < self.statements,
            _ => true,
        }
    }

    /// A unit about to open its transaction.
    pub fn new(statements: usize) -> (r: UnitRun)
        ensures
            r.wf(),
            r.statements == statements,
            r.phase == UnitPhase::Beginning,
    {
        UnitRun { statements, phase: UnitPhase::Beginning }
    }

    /// The action to perform now.
    pub fn action(&self) -> (r: UnitAction)
        ensures
            r == action_of(self.phase),
    {
        match self.phase {
            UnitPhase::Beginning => UnitAction::Begin,
            UnitPhase::Executing(i) => UnitAction::Execute(i),
            UnitPhase::Committing => UnitAction::Commit,
            UnitPhase::Done(ok) => UnitAction::Finish(ok),
        }
    }

    /// Takes the report on the current action and returns the next one.
    pub fn advance(&mut self, ok: bool) -> (r: UnitAction)
        requires
            old(self).wf(),
        ensures
            final(self).wf(),
            final(self).statements == old(self).statements,
            final(self).phase == unit_next(old(self).statements as nat, old(self).phase, ok),
            r == action_of(final(self).phase),
    {
        self.phase = match self.phase {
            UnitPhase::Beginning => if !ok {
                UnitPhase::Done(false)
            } else if self.statements == 0 {
                UnitPhase::Committing
            } else {
                UnitPhase::Executing(0)
            },
            UnitPhase::Executing(i) => if !ok {
                UnitPhase::Done(false)
            } else if i + 1 >= self.statements {
                UnitPhase::Committing
            } else {
                UnitPhase::Executing(i + 1)
            },
            UnitPhase::Committing => UnitPhase::Done(ok),
            UnitPhase::Done(b) => UnitPhase::Done(b),
        };
        self.action()
    }
}

/// Where a unit stands after a run of reports: while it executes statement
/// `i`, the transaction and the `i` statements before it succeeded; once it
/// commits, or has committed, the transaction and all `n` statements
/// succeeded.
pub proof fn lemma_unit_progress(n: nat, outcomes: Seq<bool>)
    requires
        n <= usize::MAX,
    ensures
        unit_after(n, outcomes) matches UnitPhase::Executing(i) ==> i < n,
        unit_after(n, outcomes) is Beginning ==> outcomes.len() == 0,
        unit_after(n, outcomes) matches UnitPhase::Executing(i) ==> outcomes.len() == i + 1
            && forall|j: int| 0 <= j < outcomes.len() ==> #[trigger] outcomes[j],
        unit_after(n, outcomes) is Committing ==> outcomes.len() == n + 1 && forall|j: int|
            0 <= j < outcomes.len() ==> #[trigger] outcomes[j],
        unit_after(n, outcomes) == UnitPhase::Done(true) ==> outcomes.len() >= n + 2 && forall|
            j: int,
        |
            0 <= j <= n ==> #[trigger] outcomes[j],
    decreases outcomes.len(),
{
    if outcomes.len() > 0 {
        let init = outcomes.drop_last();
        lemma_unit_progress(n, init);
        assert forall|j: int| 0 <= j < init.len() implies init[j] == outcomes[j] by {}
    }
}

/// A unit whose statement at position `k` fails never commits: at no point
/// of its run does it ask for a commit or report one.
pub proof fn lemma_failed_statement_never_commits(n: nat, outcomes: Seq<bool>, k: nat)
    requires
        n <= usize::MAX,
        k < n,
        k + 1 < outcomes.len(),
        !outcomes[k as int + 1],
    ensures
        forall|m: int|
            0 <= m <= outcomes.len() ==> !(#[trigger] unit_after(n, outcomes.take(m)) is Committing)
                && unit_after(n, outcomes.take(m)) != UnitPhase::Done(true),
{
    assert forall|m: int| 0 <= m <= outcomes.len() implies !(#[trigger] unit_after(
        n,
        outcomes.take(m),
    ) is Committing) && unit_after(n, outcomes.take(m)) != UnitPhase::Done(true) by {
        let p = outcomes.take(m);
        lemma_unit_progress(n, p);
        if unit_after(n, p) is Committing || unit_after(n, p) == UnitPhase::Done(true) {
            assert(p[k as int + 1] == outcomes[k as int + 1]);
        }
    }
}

// ---------------------------------------------------------------------------
// The serialized path: one queue, one consumer, one transaction at a time.
// ---------------------------------------------------------------------------

/// A dispatched event waiting in the queue: its position in the event list,
/// and when it was queued, in milliseconds.
#[derive(Debug, Clone, Copy, PartialEq, Eq, Structural)]
pub struct EventTask {
    pub event: usize,
    pub queued_at: i64,
}

/// The number of tasks the queue holds: five minutes of worst-case backlog,
/// at one dispatch round a minute.
pub open spec fn capacity_for(n_events: nat) -> nat {
    5 * if n_events > 1 {
        n_events
    } else {
        1
    }
}

/// Whether the database driver takes one writer at a time.
pub open spec fn serialized_driver(driver: Seq<char>) -> bool {
    driver == "sqlite"@
}

/// A bounded first-in first-out queue of tasks with a single consumer,
/// which runs at most one task at a time.
///
/// The queue is a plain value, which the driver guards with a lock, rather
/// than an asynchronous channel: what a channel holds changes under the
/// other tasks that share it, while its handle stays the same value, so no
/// contract over one handle could say what it holds; and a channel's
/// waiting send can only be awaited. Here the producer is handed its task
/// back when the queue is full and waits itself.
pub struct EventQueue {
    pending: VecDeque<EventTask>,
    capacity: usize,
    active: Option<EventTask>,
    /// Every task the queue accepted, in order.
    accepted: Ghost<Seq<EventTask>>,
    /// Every task the consumer took, in order.
    started: Ghost<Seq<EventTask>>,
}

impl EventQueue {
    pub closed spec fn spec_pending(&self) -> Seq<EventTask> {
        self.pending@
    }

    pub closed spec fn spec_capacity(&self) -> nat {
        self.capacity as nat
    }

    pub closed spec fn spec_active(&self) -> Option<EventTask> {
        self.active
    }

    pub closed spec fn spec_accepted(&self) -> Seq<EventTask> {
        self.accepted@
    }

    pub closed spec fn spec_started(&self) -> Seq<EventTask> {
        self.started@
    }

    /// What was taken and what waits make up what was accepted, in order;
    /// the task running is the one taken last; the queue keeps to its bound.
    pub closed spec fn wf(&self) -> bool {
        &&& self.accepted@ == self.started@ + self.pending@
        &&& self.pending@.len() <= self.capacity
        &&& self.capacity >= 1
        &&& (self.active matches Some(t) ==> self.started@.len() > 0 && self.started@.last()
            == t)
    }

    /// A queue for the driver `driver` with `n_events` events, where that
    /// driver takes one writer at a time; none otherwise.
    pub fn new(driver: &str, n_events: usize) -> (r: Option<EventQueue>)
        requires
            n_events <= usize::MAX / 5,
        ensures
            r is Some <==> serialized_driver(driver@),
            r matches Some(q) ==> {
                &&& q.wf()
                &&& q.spec_capacity() == capacity_for(n_events as nat)
                &&& q.spec_pending().len() == 0
                &&& q.spec_active() is None
                &&& q.spec_accepted().len() == 0
                &&& q.spec_started().len() == 0
            },
    {
        if !crate::text::same_chars(&crate::text::chars_of(driver), &crate::text::chars_of("sqlite")) {
            return None;
        }
        let capacity = 5 * if n_events > 1 {
            n_events
        } else {
            1
        };
        let q = EventQueue {
            pending: VecDeque::new(),
            capacity,
            active: None,
            accepted: Ghost(Seq::empty()),
            started: Ghost(Seq::empty()),
        };
        assert(q.started@ + q.pending@ =~= Seq::<EventTask>::empty());
        Some(q)
    }

    /// The bound on waiting tasks.
    pub fn capacity(&self) -> (r: usize)
        ensures
            r == self.spec_capacity(),
    {
        self.capacity
    }

    /// Puts `task` at the back of the queue; hands it back when the queue is
    /// full, so that the producer waits and tries again: no task is dropped.
    pub fn try_enqueue(&mut self, task: EventTask) -> (r: Result<(), EventTask>)
        requires
            old(self).wf(),
        ensures
            final(self).wf(),
            final(self).spec_capacity() == old(self).spec_capacity(),
            final(self).spec_active() == old(self).spec_active(),
            final(self).spec_started() == old(self).spec_started(),
            r is Ok <==> old(self).spec_pending().len() < old(self).spec_capacity(),
            r is Ok ==> final(self).spec_pending() == old(self).spec_pending().push(task)
                && final(self).spec_accepted() == old(self).spec_accepted().push(task),
            r matches Err(t) ==> t == task && final(self).spec_pending() == old(self).spec_pending() && final(self).spec_accepted() == old(self).spec_accepted(),
    {
        if self.pending.len() >= self.capacity {
            return Err(task);
        }
        self.pending.push_back(task);
        self.accepted = Ghost(self.accepted@.push(task));
        assert(self.started@ + self.pending@ =~= self.accepted@);
        Ok(())
    }

    /// The consumer takes the front task, unless one is still running or
    /// none waits.
    pub fn start_next(&mut self) -> (r: Option<EventTask>)
        requires
            old(self).wf(),
        ensures
            final(self).wf(),
            final(self).spec_capacity() == old(self).spec_capacity(),
            final(self).spec_accepted() == old(self).spec_accepted(),
            r is Some <==> old(self).spec_active() is None && old(self).spec_pending().len() > 0,
            r matches Some(t) ==> {
                &&& t == old(self).spec_pending()[0]
                &&& final(self).spec_pending() == old(self).spec_pending().drop_first()
                &&& final(self).spec_started() == old(self).spec_started().push(t)
                &&& final(self).spec_active() == Some(t)
            },
            r is None ==> final(self).spec_pending() == old(self).spec_pending() && final(self).spec_started() == old(self).spec_started() && final(self).spec_active() == old(self).spec_active(),
    {
        if self.active.is_some() {
            return None;
        }
        match self.pending.pop_front() {
            None => None,
            Some(t) => {
                self.started = Ghost(self.started@.push(t));
                self.active = Some(t);
                assert(self.started@ + self.pending@ =~= self.accepted@);
                Some(t)
            },
        }
    }

    /// The running task has finished, whatever its outcome.
    pub fn finish_active(&mut self)
        requires
            old(self).wf(),
        ensures
            final(self).wf(),
            final(self).spec_active() is None,
            final(self).spec_capacity() == old(self).spec_capacity(),
            final(self).spec_pending() == old(self).spec_pending(),
            final(self).spec_accepted() == old(self).spec_accepted(),
            final(self).spec_started() == old(self).spec_started(),
    {
        self.active = None;
    }

    /// Whether a task is running.
    pub fn is_busy(&self) -> (r: bool)
        ensures
            r == self.spec_active() is Some,
    {
        self.active.is_some()
    }

    /// The number of tasks waiting.
    pub fn len(&self) -> (r: usize)
        ensures
            r == self.spec_pending().len(),
    {
        self.pending.len()
    }
}

/// The consumer runs tasks in the order in which they were queued, one at a
/// time: what it took is the front of what was accepted, what waits is the
/// rest, and the task running is the last one taken.
pub proof fn lemma_queue_order(q: EventQueue)
    requires
        q.wf(),
    ensures
        q.spec_started() == q.spec_accepted().take(q.spec_started().len() as int),
        q.spec_pending() == q.spec_accepted().skip(q.spec_started().len() as int),
        q.spec_active() matches Some(t) ==> t == q.spec_started().last(),
{
    assert(q.spec_started() =~= q.spec_accepted().take(q.spec_started().len() as int));
    assert(q.spec_pending() =~= q.spec_accepted().skip(q.spec_started().len() as int));
}

} // verus!
