use scheduler::codec::{
    encode_control, encode_task, parse_running_task, parser_task, ControlAction, ControlEvent,
    ScheduleType, Task,
};
use scheduler::record::store_fields;
use scheduler::dispatcher::{Config, Dispatcher};
use scheduler::executor::{check_is_need_to_stop, Executor, Step};

#[test]
fn one_shot_ping_fires_once_after_five_seconds() {
    let created = Task {
        id: "job-1".to_string(),
        content: "ping".to_string(),
        schedule_type: ScheduleType::OneShot,
        duration: 5,
        slot: 0,
    };
    let todo = vec![encode_task(&created)];
    let mut d: Dispatcher<u8> = Dispatcher::new(Config::default());
    // One tick, within the ten-second period: decode, store, register.
    let tick = 10u64;
    let t = parser_task(&todo[0]).unwrap();
    let fields = store_fields(&t);
    assert!(fields.contains(&("status".to_string(), "RUNNING".to_string())));
    let mut exec = Executor::new(t.clone(), tick);
    assert_eq!(d.install(&t, 1), None);
    assert!(d.is_registered(&"job-1".to_string()));
    let status = Some("RUNNING".to_string());
    let mut events = Vec::new();
    for now in tick..tick + 20 {
        match exec.on_boundary(now, !check_is_need_to_stop(&status)) {
            Step::Fire(e) => events.push(e),
            Step::Halt => panic!("a running task does not halt"),
            Step::Wait => {}
        }
    }
    assert_eq!(events.len(), 1);
    assert_eq!(events[0].at, tick + 5);
    assert_eq!(events[0].content, "ping");
    assert!(exec.is_terminal());
}

#[test]
fn repeated_task_stops_within_one_period_of_delete() {
    let t = Task {
        id: "job-2".to_string(),
        content: "tick".to_string(),
        schedule_type: ScheduleType::Repeated,
        duration: 2,
        slot: 3,
    };
    let mut d: Dispatcher<u8> = Dispatcher::new(Config::default());
    let t0 = 0u64;
    let mut exec = Executor::new(parser_task(&encode_task(&t)).unwrap(), t0);
    d.install(&t, 4);
    let mut status = Some("RUNNING".to_string());
    assert!(matches!(exec.on_boundary(2, !check_is_need_to_stop(&status)), Step::Fire(_)));
    // The delete arrives at time 3.
    let entry = encode_control(&ControlEvent {
        target_id: "job-2".to_string(),
        action: ControlAction::Delete,
    });
    let plan = d.control(&parse_running_task(&entry).unwrap());
    assert_eq!(plan.stop_id, "job-2");
    assert_eq!(plan.cancel, Some(4));
    status = Some("STOPPED".to_string());
    assert_eq!(exec.on_boundary(4, !check_is_need_to_stop(&status)), Step::Halt);
    assert!(exec.is_terminal());
    for now in 5..20 {
        assert_eq!(exec.on_boundary(now, true), Step::Wait);
    }
    assert_eq!(exec.fired(), 1);
}
