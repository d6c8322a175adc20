use ebbinghaus_memory_service::models::{
    initial_schedule, Memory, MemoryWithUser, Phase, Schedule, ScheduleWithMemoryAndUser, User,
};
use ebbinghaus_memory_service::phase::Phases;
use ebbinghaus_memory_service::scheduler::{
    delivery_for, is_due, Scheduler, Step, TransitionError,
};

fn table() -> Scheduler {
    Scheduler::new(
        Phases::new(vec![
            Phase { id: 1, number: 1, seconds_to_wait: 60 },
            Phase { id: 2, number: 2, seconds_to_wait: 3600 },
        ])
        .unwrap(),
    )
}

fn schedule(phase_number: i32, next_run: Option<i64>) -> Schedule {
    Schedule { id: 11, memory_id: 22, phase_number, next_run }
}

fn persisted(step: Step) -> Schedule {
    match step {
        Step::Persist(s) => s,
        other => panic!("expected a new state, got {:?}", other),
    }
}

#[test]
fn new_schedule_starts_at_phase_one_due_now() {
    let s = initial_schedule(5, 1234);
    assert_eq!(s.memory_id, 5);
    assert_eq!(s.phase_number, 1);
    assert_eq!(s.next_run, Some(1234));
}

#[test]
fn due_only_with_a_run_at_or_before_now() {
    assert!(is_due(&schedule(1, Some(10)), 10));
    assert!(is_due(&schedule(1, Some(9)), 10));
    assert!(!is_due(&schedule(1, Some(11)), 10));
    assert!(!is_due(&schedule(1, None), i64::MAX));
}

#[test]
fn success_adds_next_wait_to_previous_run() {
    let sch = table();
    let next = persisted(sch.on_delivery(&schedule(1, Some(100)), true));
    assert_eq!(next, Schedule { id: 11, memory_id: 22, phase_number: 2, next_run: Some(3700) });
}

#[test]
fn late_tick_does_not_drift() {
    let sch = table();
    let s = schedule(1, Some(100));
    assert!(is_due(&s, 5000));
    let next = persisted(sch.on_delivery(&s, true));
    assert_eq!(next.next_run, Some(3700));
}

#[test]
fn success_at_last_phase_completes() {
    let sch = table();
    let next = persisted(sch.on_delivery(&schedule(2, Some(3600)), true));
    assert_eq!(next.phase_number, 3);
    assert_eq!(next.next_run, None);
    assert!(!is_due(&next, i64::MAX));
}

#[test]
fn failure_leaves_schedule_for_retry() {
    let sch = table();
    let s = schedule(2, Some(60));
    assert_eq!(sch.on_delivery(&s, false), Step::Retry);
    assert!(is_due(&s, 61));
}

#[test]
fn complete_schedule_is_not_advanced() {
    let sch = table();
    assert_eq!(sch.advance(&schedule(3, None)), Err(TransitionError::AlreadyComplete));
    assert_eq!(
        sch.on_delivery(&schedule(3, None), true),
        Step::Stuck(TransitionError::AlreadyComplete)
    );
}

#[test]
fn largest_phase_number_completes() {
    let sch = Scheduler::new(
        Phases::new(vec![
            Phase { id: 1, number: i32::MAX - 1, seconds_to_wait: 60 },
            Phase { id: 2, number: i32::MAX, seconds_to_wait: 3600 },
        ])
        .unwrap(),
    );
    let s = schedule(i32::MAX - 1, Some(0));
    let s = persisted(sch.on_delivery(&s, true));
    assert_eq!((s.phase_number, s.next_run), (i32::MAX, Some(3600)));
    let s = persisted(sch.on_delivery(&s, true));
    assert_eq!((s.phase_number, s.next_run), (i32::MAX, None));
    assert!(!is_due(&s, i64::MAX));
}

#[test]
fn largest_phase_number_completes_with_any_table() {
    let sch = table();
    assert_eq!(
        sch.advance(&schedule(i32::MAX, Some(0))),
        Ok(Schedule { id: 11, memory_id: 22, phase_number: i32::MAX, next_run: None })
    );
}

#[test]
fn run_time_past_the_limit_is_held_at_the_limit() {
    let sch = table();
    let next = sch.advance(&schedule(1, Some(i64::MAX - 10))).unwrap();
    assert_eq!((next.phase_number, next.next_run), (2, Some(i64::MAX)));
}

#[test]
fn run_time_below_the_limit_is_held_at_the_limit() {
    let sch = Scheduler::new(
        Phases::new(vec![
            Phase { id: 1, number: 1, seconds_to_wait: 0 },
            Phase { id: 2, number: 2, seconds_to_wait: -10 },
        ])
        .unwrap(),
    );
    let next = sch.advance(&schedule(1, Some(i64::MIN + 5))).unwrap();
    assert_eq!(next.next_run, Some(i64::MIN));
}

#[test]
fn run_time_at_the_limit_fits() {
    let sch = table();
    let next = sch.advance(&schedule(1, Some(i64::MAX - 3600))).unwrap();
    assert_eq!(next.next_run, Some(i64::MAX));
}

#[test]
fn scenario_two_phases_from_creation_to_completion() {
    let sch = table();
    let created = initial_schedule(22, 0);
    let mut s = Schedule {
        id: 11,
        memory_id: created.memory_id,
        phase_number: created.phase_number,
        next_run: created.next_run,
    };
    assert_eq!((s.phase_number, s.next_run), (1, Some(0)));

    assert!(is_due(&s, 0));
    s = persisted(sch.on_delivery(&s, true));
    assert_eq!((s.phase_number, s.next_run), (2, Some(3600)));

    assert!(!is_due(&s, 60));
    assert!(is_due(&s, 3600));
    s = persisted(sch.on_delivery(&s, true));
    assert_eq!(s.next_run, None);

    assert!(!is_due(&s, 3660));
}

#[test]
fn scenario_failed_delivery_is_retried_on_a_later_tick() {
    let sch = table();
    let s = schedule(2, Some(60));
    assert!(is_due(&s, 60));
    assert_eq!(sch.on_delivery(&s, false), Step::Retry);
    assert_eq!((s.phase_number, s.next_run), (2, Some(60)));
    assert!(is_due(&s, 61));
    let next = persisted(sch.on_delivery(&s, true));
    assert_eq!(next.next_run, None);
}

fn item(topic: Option<&str>) -> ScheduleWithMemoryAndUser {
    ScheduleWithMemoryAndUser {
        schedule: schedule(1, Some(0)),
        memory_with_user: MemoryWithUser {
            memory: Memory {
                id: 22,
                user_id: 3,
                topic: topic.map(|t| t.to_string()),
                text: "some text".to_string(),
            },
            user: User { id: 3, email: "vasia@ya.ru".to_string() },
        },
    }
}

#[test]
fn delivery_carries_address_topic_and_text() {
    let d = delivery_for(&item(Some("words")));
    assert_eq!(d.address, "vasia@ya.ru");
    assert_eq!(d.subject, "words");
    assert_eq!(d.text, "some text");
}

#[test]
fn delivery_without_topic_has_empty_subject() {
    let d = delivery_for(&item(None));
    assert_eq!(d.subject, "");
}
