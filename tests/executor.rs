use scheduler::codec::{ScheduleType, Task};
use scheduler::executor::{check_is_need_to_stop, Executor, Step};

fn task(kind: ScheduleType, duration: u64) -> Task {
    Task {
        id: "t1".to_string(),
        content: "ping".to_string(),
        schedule_type: kind,
        duration,
        slot: 0,
    }
}

fn fire_at(step: Step) -> Option<(u64, u64)> {
    match step {
        Step::Fire(e) => Some((e.boundary, e.at)),
        _ => None,
    }
}

#[test]
fn one_shot_left_running_fires_once() {
    let mut e = Executor::new(task(ScheduleType::OneShot, 5), 100);
    assert_eq!(e.next_boundary(), Some(105));
    assert_eq!(e.on_boundary(104, true), Step::Wait);
    assert_eq!(e.fired(), 0);
    let s = e.on_boundary(106, true);
    assert_eq!(fire_at(s), Some((105, 106)));
    assert!(e.is_terminal());
    assert_eq!(e.on_boundary(200, true), Step::Wait);
    assert_eq!(e.fired(), 1);
    assert_eq!(e.next_boundary(), None);
}

#[test]
fn one_shot_event_carries_task_fields() {
    let mut e = Executor::new(task(ScheduleType::OneShot, 5), 0);
    match e.on_boundary(5, true) {
        Step::Fire(ev) => {
            assert_eq!(ev.id, "t1");
            assert_eq!(ev.content, "ping");
            assert_eq!(ev.schedule_type, ScheduleType::OneShot);
            assert_eq!(ev.boundary, 5);
            assert_eq!(ev.at, 5);
        }
        other => panic!("expected a firing, got {:?}", other),
    }
}

#[test]
fn one_shot_stopped_before_boundary_never_fires() {
    let mut e = Executor::new(task(ScheduleType::OneShot, 5), 0);
    assert_eq!(e.on_boundary(3, false), Step::Wait);
    assert_eq!(e.on_boundary(5, false), Step::Halt);
    assert!(e.is_terminal());
    assert_eq!(e.on_boundary(10, true), Step::Wait);
    assert_eq!(e.fired(), 0);
}

#[test]
fn repeated_fires_on_successive_boundaries() {
    let mut e = Executor::new(task(ScheduleType::Repeated, 2), 10);
    let mut seen = Vec::new();
    for now in 10..17 {
        if let Some(f) = fire_at(e.on_boundary(now, true)) {
            seen.push(f);
        }
    }
    assert_eq!(seen, vec![(12, 12), (14, 14), (16, 16)]);
    assert_eq!(e.next_boundary(), Some(18));
    assert_eq!(e.on_boundary(18, false), Step::Halt);
    assert_eq!(e.on_boundary(20, true), Step::Wait);
    assert_eq!(e.fired(), 3);
}

#[test]
fn late_wake_up_takes_one_boundary_at_a_time() {
    let mut e = Executor::new(task(ScheduleType::Repeated, 2), 0);
    assert_eq!(fire_at(e.on_boundary(7, true)), Some((2, 7)));
    assert_eq!(fire_at(e.on_boundary(7, true)), Some((4, 7)));
    assert_eq!(e.next_boundary(), Some(6));
}

#[test]
fn cancel_ends_at_once() {
    let mut e = Executor::new(task(ScheduleType::Repeated, 2), 0);
    assert!(fire_at(e.on_boundary(2, true)).is_some());
    e.cancel();
    assert!(e.is_terminal());
    assert_eq!(e.on_boundary(4, true), Step::Wait);
    assert_eq!(e.fired(), 1);
}

#[test]
fn boundary_beyond_clock_is_none() {
    let mut e = Executor::new(task(ScheduleType::Repeated, u64::MAX), 1);
    assert_eq!(e.next_boundary(), None);
    assert_eq!(e.on_boundary(u64::MAX, true), Step::Wait);
    let mut e = Executor::new(task(ScheduleType::Repeated, u64::MAX), 0);
    assert_eq!(fire_at(e.on_boundary(u64::MAX, true)), Some((u64::MAX, u64::MAX)));
    assert_eq!(e.next_boundary(), None);
}

#[test]
fn status_check_fails_safe() {
    assert!(!check_is_need_to_stop(&Some("RUNNING".to_string())));
    assert!(check_is_need_to_stop(&Some("STOPPED".to_string())));
    assert!(check_is_need_to_stop(&Some("running".to_string())));
    assert!(check_is_need_to_stop(&None));
}
