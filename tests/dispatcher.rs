use scheduler::codec::{parser_task, ControlAction, ControlEvent, ScheduleType, Task};
use scheduler::dispatcher::{Config, Dispatcher};
use scheduler::registry::TaskRegistry;

fn task(id: &str, content: &str, duration: u64) -> Task {
    Task {
        id: id.to_string(),
        content: content.to_string(),
        schedule_type: ScheduleType::Repeated,
        duration,
        slot: 1,
    }
}

#[test]
fn default_config() {
    let c = Config::default();
    assert_eq!(c.period, 10);
    assert_eq!(c.todo_channel, "todo-list");
    assert_eq!(c.control_channel, "running-list");
}

#[test]
fn registry_insert_replaces_and_remove_takes() {
    let mut r: TaskRegistry<u32> = TaskRegistry::new();
    let a = "a".to_string();
    let b = "b".to_string();
    assert_eq!(r.insert(a.clone(), 1), None);
    assert_eq!(r.insert(b.clone(), 2), None);
    assert_eq!(r.insert(a.clone(), 3), Some(1));
    assert_eq!(r.get(&a), Some(&3));
    assert_eq!(r.get(&b), Some(&2));
    assert_eq!(r.remove(&a), Some(3));
    assert_eq!(r.remove(&a), None);
    assert!(!r.contains(&a));
    assert!(r.contains(&b));
}

#[test]
fn install_supersedes_prior_handle() {
    let mut d: Dispatcher<u32> = Dispatcher::new(Config::default());
    assert_eq!(d.install(&task("x", "c", 2), 7), None);
    assert_eq!(d.install(&task("x", "c2", 2), 8), Some(7));
    assert!(d.is_registered(&"x".to_string()));
}

#[test]
fn delete_twice_has_no_second_effect() {
    let mut d: Dispatcher<u32> = Dispatcher::new(Config::default());
    d.install(&task("x", "c", 2), 7);
    let ev = ControlEvent { target_id: "x".to_string(), action: ControlAction::Delete };
    let p1 = d.control(&ev);
    assert_eq!(p1.stop_id, "x");
    assert_eq!(p1.cancel, Some(7));
    assert_eq!(p1.requeue, None);
    let p2 = d.control(&ev);
    assert_eq!(p2.stop_id, "x");
    assert_eq!(p2.cancel, None);
    assert_eq!(p2.requeue, None);
    assert!(!d.is_registered(&"x".to_string()));
}

#[test]
fn delete_of_unknown_id_is_harmless() {
    let mut d: Dispatcher<u32> = Dispatcher::new(Config::default());
    let ev = ControlEvent { target_id: "nope".to_string(), action: ControlAction::Delete };
    let p = d.control(&ev);
    assert_eq!(p.cancel, None);
    assert_eq!(p.requeue, None);
}

#[test]
fn update_requeues_new_version_under_target_id() {
    let mut d: Dispatcher<u32> = Dispatcher::new(Config::default());
    d.install(&task("x", "old", 2), 7);
    let ev = ControlEvent {
        target_id: "x".to_string(),
        action: ControlAction::Update(task("ignored", "new", 4)),
    };
    let p = d.control(&ev);
    assert_eq!(p.cancel, Some(7));
    assert_eq!(p.requeue.as_deref(), Some("x::new::Repeated::4::1"));
    assert!(!d.is_registered(&"x".to_string()));
    let next = parser_task(p.requeue.as_deref().unwrap()).unwrap();
    assert_eq!(next, task("x", "new", 4));
    assert_eq!(d.install(&next, 9), None);
    assert!(d.is_registered(&"x".to_string()));
}
