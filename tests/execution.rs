use my_timers::cron::{CronInterval, Moment};
use my_timers::events::parse;
use my_timers::execution::{EventQueue, EventTask, UnitAction, UnitRun};
use my_timers::scheduler::{millis_to_next_minute, Scheduler, SchedulerPhase};

fn task(event: usize) -> EventTask {
    EventTask { event, queued_at: 1000 + event as i64 }
}

#[test]
fn queue_only_for_single_writer_driver() {
    assert!(EventQueue::new("mysql", 3).is_none());
    assert!(EventQueue::new("postgres", 3).is_none());
    assert_eq!(EventQueue::new("sqlite", 0).unwrap().capacity(), 5);
    assert_eq!(EventQueue::new("sqlite", 1).unwrap().capacity(), 5);
    assert_eq!(EventQueue::new("sqlite", 3).unwrap().capacity(), 15);
}

#[test]
fn three_due_events_run_one_at_a_time_in_order() {
    let mut q = EventQueue::new("sqlite", 3).unwrap();
    for i in 0..3 {
        assert!(q.try_enqueue(task(i)).is_ok());
    }
    let mut order = Vec::new();
    while let Some(t) = q.start_next() {
        assert!(q.is_busy());
        assert!(q.start_next().is_none());
        order.push(t.event);
        q.finish_active();
    }
    assert_eq!(order, vec![0, 1, 2]);
    assert_eq!(q.len(), 0);
}

#[test]
fn full_queue_hands_the_task_back() {
    let mut q = EventQueue::new("sqlite", 1).unwrap();
    for i in 0..5 {
        assert!(q.try_enqueue(task(i)).is_ok());
    }
    assert_eq!(q.try_enqueue(task(9)), Err(task(9)));
    assert_eq!(q.start_next(), Some(task(0)));
    assert!(q.try_enqueue(task(9)).is_ok());
    assert_eq!(q.len(), 5);
}

#[test]
fn unit_commits_after_every_statement() {
    let mut u = UnitRun::new(2);
    assert_eq!(u.action(), UnitAction::Begin);
    assert_eq!(u.advance(true), UnitAction::Execute(0));
    assert_eq!(u.advance(true), UnitAction::Execute(1));
    assert_eq!(u.advance(true), UnitAction::Commit);
    assert_eq!(u.advance(true), UnitAction::Finish(true));
}

#[test]
fn second_statement_failure_never_commits() {
    let mut u = UnitRun::new(3);
    let mut actions = vec![u.action()];
    actions.push(u.advance(true));
    actions.push(u.advance(true));
    actions.push(u.advance(false));
    actions.push(u.advance(true));
    assert_eq!(
        actions,
        vec![
            UnitAction::Begin,
            UnitAction::Execute(0),
            UnitAction::Execute(1),
            UnitAction::Finish(false),
            UnitAction::Finish(false),
        ]
    );
    assert!(!actions.contains(&UnitAction::Commit));
}

#[test]
fn failed_begin_or_commit() {
    let mut u = UnitRun::new(1);
    assert_eq!(u.advance(false), UnitAction::Finish(false));
    let mut u = UnitRun::new(0);
    assert_eq!(u.advance(true), UnitAction::Commit);
    assert_eq!(u.advance(false), UnitAction::Finish(false));
}

#[test]
fn scheduler_drains_before_release() {
    let evs = parse("boot: 0 0 1 1 * @startup\n\tS1;\n\nhourly: 0 * * * *\n\tS2;\n").unwrap();
    let mut s = Scheduler::new();
    assert_eq!(s.startup(&evs), vec![0]);
    assert_eq!(s.in_flight, 1);
    s.aligned();
    assert_eq!(s.phase, SchedulerPhase::Running);
    let now = Moment { minute: 0, hour: 7, day: 3, month: 4, weekday: 2 };
    assert_eq!(s.tick(&evs, &now), vec![1]);
    assert_eq!(s.in_flight, 2);
    s.signal();
    assert_eq!(s.phase, SchedulerPhase::Draining);
    assert!(s.tick(&evs, &now).is_empty());
    assert!(s.startup(&evs).is_empty());
    assert!(!s.may_release());
    s.unit_finished();
    assert!(!s.may_release());
    s.unit_finished();
    assert!(s.may_release());
    s.released();
    assert_eq!(s.phase, SchedulerPhase::Terminated);
}

#[test]
fn tick_uses_one_reading_for_all_events() {
    let evs = parse("a: 30 * * * *\n\tS;\n\nb: 30 9 * * *\n\tS;\n\nc: 31 * * * *\n\tS;\n").unwrap();
    let mut s = Scheduler::new();
    s.aligned();
    let now = Moment { minute: 30, hour: 9, day: 1, month: 1, weekday: 1 };
    assert_eq!(s.tick(&evs, &now), vec![0, 1]);
}

#[test]
fn no_ticks_before_alignment() {
    let evs = parse("a: * * * * *\n\tS;\n").unwrap();
    let mut s = Scheduler::new();
    let now = Moment { minute: 1, hour: 1, day: 1, month: 1, weekday: 1 };
    assert!(s.tick(&evs, &now).is_empty());
    let _ = CronInterval::minute_range();
}

#[test]
fn wait_to_next_minute() {
    assert_eq!(millis_to_next_minute(0, 0), 60_002);
    assert_eq!(millis_to_next_minute(30, 500_000), 30_002);
    assert_eq!(millis_to_next_minute(59, 999_999_999), 3);
    assert_eq!(millis_to_next_minute(59, 1_500_000_000), 2);
}
