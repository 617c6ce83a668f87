use scheduler::codec::{
    encode_control, encode_task, parse_running_task, parser_task, schedule_type_from_text,
    schedule_type_text, ControlAction, ControlEvent, FormatError, ScheduleType, Status, Task,
};
use scheduler::jobs::{create_task, duration_from_request, new_task};
use scheduler::record::{record_from_fields, status_text, store_fields};

fn task(id: &str, content: &str, kind: ScheduleType, duration: u64, slot: i64) -> Task {
    Task {
        id: id.to_string(),
        content: content.to_string(),
        schedule_type: kind,
        duration,
        slot,
    }
}

#[test]
fn encode_task_exact_text() {
    let t = task("a1", "ping", ScheduleType::OneShot, 5, 3);
    assert_eq!(encode_task(&t), "a1::ping::OneShot::5::3");
    let t = task("b", "x y", ScheduleType::Repeated, 120, -7);
    assert_eq!(encode_task(&t), "b::x y::Repeated::120::-7");
}

#[test]
fn decode_task_fields() {
    let t = parser_task("a1::ping::OneShot::5::3").unwrap();
    assert_eq!(t, task("a1", "ping", ScheduleType::OneShot, 5, 3));
    let t = parser_task("id::c::Repeated::007::-0").unwrap();
    assert_eq!(t, task("id", "c", ScheduleType::Repeated, 7, 0));
}

#[test]
fn round_trip_on_sample_tasks() {
    let samples = vec![
        task("", "", ScheduleType::OneShot, 1, 0),
        task("x", ":lead", ScheduleType::Repeated, u64::MAX, i64::MIN),
        task("9f1c-42", "a:b|c", ScheduleType::OneShot, 42, i64::MAX),
        task("k", "héllo wörld", ScheduleType::Repeated, 10, -1),
    ];
    for t in samples {
        assert_eq!(parser_task(&encode_task(&t)), Ok(t));
    }
}

#[test]
fn content_with_delimiter_does_not_survive() {
    let t = task("a", "x::y", ScheduleType::OneShot, 5, 0);
    assert_eq!(parser_task(&encode_task(&t)), Err(FormatError));
    let t = task("a", "x:", ScheduleType::OneShot, 5, 0);
    assert_ne!(parser_task(&encode_task(&t)), Ok(t));
}

#[test]
fn decode_rejects_wrong_field_count() {
    assert_eq!(parser_task("a::b::OneShot::5"), Err(FormatError));
    assert_eq!(parser_task("a::b::OneShot::5::1::extra"), Err(FormatError));
    assert_eq!(parser_task(""), Err(FormatError));
}

#[test]
fn decode_rejects_bad_integers() {
    assert_eq!(parser_task("a::b::OneShot::five::1"), Err(FormatError));
    assert_eq!(parser_task("a::b::OneShot::5::"), Err(FormatError));
    assert_eq!(parser_task("a::b::OneShot::-5::1"), Err(FormatError));
    assert_eq!(parser_task("a::b::OneShot::18446744073709551616::1"), Err(FormatError));
    assert_eq!(parser_task("a::b::OneShot::5::9223372036854775808"), Err(FormatError));
    assert_eq!(parser_task("a::b::OneShot::0::1"), Err(FormatError));
}

#[test]
fn decode_integer_limits() {
    let t = parser_task("a::b::OneShot::18446744073709551615::-9223372036854775808").unwrap();
    assert_eq!(t.duration, u64::MAX);
    assert_eq!(t.slot, i64::MIN);
}

#[test]
fn decode_rejects_unknown_schedule_type() {
    assert_eq!(parser_task("a::b::Daily::5::1"), Err(FormatError));
    assert_eq!(parser_task("a::b::oneshot::5::1"), Err(FormatError));
}

#[test]
fn control_events_encode_exactly() {
    let del = ControlEvent { target_id: "a1".to_string(), action: ControlAction::Delete };
    assert_eq!(encode_control(&del), "a1|delete");
    let upd = ControlEvent {
        target_id: "a1".to_string(),
        action: ControlAction::Update(task("a1", "pong", ScheduleType::Repeated, 3, 2)),
    };
    assert_eq!(encode_control(&upd), "a1|update|a1::pong::Repeated::3::2");
}

#[test]
fn control_events_decode() {
    let e = parse_running_task("a1|delete").unwrap();
    assert_eq!(e, ControlEvent { target_id: "a1".to_string(), action: ControlAction::Delete });
    let e = parse_running_task("a1|update|zz::pong::Repeated::3::2").unwrap();
    assert_eq!(e.target_id, "a1");
    assert_eq!(
        e.action,
        ControlAction::Update(task("zz", "pong", ScheduleType::Repeated, 3, 2))
    );
}

#[test]
fn control_decode_rejects_malformed() {
    assert_eq!(parse_running_task("a1"), Err(FormatError));
    assert_eq!(parse_running_task("a1|remove"), Err(FormatError));
    assert_eq!(parse_running_task("a1|delete|x"), Err(FormatError));
    assert_eq!(parse_running_task("a1|update"), Err(FormatError));
    assert_eq!(parse_running_task("a1|update|a::b::OneShot::x::1"), Err(FormatError));
    assert_eq!(parse_running_task("a1|update|a::b|c::OneShot::5::1"), Err(FormatError));
}

#[test]
fn store_fields_are_written_running() {
    let t = task("a1", "ping", ScheduleType::OneShot, 5, -2);
    let f = store_fields(&t);
    let expect: Vec<(String, String)> = vec![
        ("id", "a1"),
        ("content", "ping"),
        ("schedule_type", "OneShot"),
        ("duration", "5"),
        ("status", "RUNNING"),
        ("slot", "-2"),
    ]
    .into_iter()
    .map(|(a, b)| (a.to_string(), b.to_string()))
    .collect();
    assert_eq!(f, expect);
}

#[test]
fn record_reads_back_in_any_order() {
    let t = task("a1", "ping", ScheduleType::Repeated, 5, 4);
    let mut f = store_fields(&t);
    f.reverse();
    assert_eq!(record_from_fields(&f), Ok((t.clone(), Status::Running)));
    for p in f.iter_mut() {
        if p.0 == "status" {
            p.1 = status_text(Status::Stopped);
        }
    }
    assert_eq!(record_from_fields(&f), Ok((t, Status::Stopped)));
}

#[test]
fn record_rejects_missing_or_bad_fields() {
    let t = task("a1", "ping", ScheduleType::Repeated, 5, 4);
    let mut f = store_fields(&t);
    f.retain(|p| p.0 != "slot");
    assert_eq!(record_from_fields(&f), Err(FormatError));
    let mut f = store_fields(&t);
    f[4].1 = "PAUSED".to_string();
    assert_eq!(record_from_fields(&f), Err(FormatError));
}

#[test]
fn new_task_validates_request() {
    let t = new_task("i".to_string(), "c".to_string(), "Repeated", 30, 1).unwrap();
    assert_eq!(t, task("i", "c", ScheduleType::Repeated, 30, 1));
    assert_eq!(new_task("i".to_string(), "c".to_string(), "Weekly", 30, 1), Err(FormatError));
    assert_eq!(new_task("i".to_string(), "c".to_string(), "OneShot", 0, 1), Err(FormatError));
    assert_eq!(new_task("i".to_string(), "c".to_string(), "OneShot", -4, 1), Err(FormatError));
}

#[test]
fn with_changes_replaces_given_fields() {
    let t = task("i", "c", ScheduleType::OneShot, 5, 9);
    let u = t.with_changes(Some("d".to_string()), None, Some(8));
    assert_eq!(u, task("i", "d", ScheduleType::OneShot, 8, 9));
    let u = t.with_changes(None, Some(ScheduleType::Repeated), None);
    assert_eq!(u, task("i", "c", ScheduleType::Repeated, 5, 9));
}

#[test]
fn created_tasks_get_delimiter_free_ids() {
    let t = create_task("hello".to_string(), "OneShot", 5, 2).unwrap();
    assert_eq!(t.id.len(), 36);
    assert!(t.id.chars().all(|c| c.is_ascii_hexdigit() || c == '-'));
    assert_eq!(t.content, "hello");
    assert_eq!(parser_task(&encode_task(&t)), Ok(t.clone()));
    let u = create_task("hello".to_string(), "OneShot", 5, 2).unwrap();
    assert_ne!(t.id, u.id);
    assert!(create_task("x".to_string(), "Never", 5, 2).is_err());
    assert!(create_task("x".to_string(), "Repeated", 0, 2).is_err());
}

#[test]
fn request_helpers() {
    assert_eq!(schedule_type_from_text("Repeated"), Some(ScheduleType::Repeated));
    assert_eq!(schedule_type_from_text("repeated"), None);
    assert_eq!(schedule_type_text(ScheduleType::OneShot), "OneShot");
    assert_eq!(duration_from_request(7), Some(7));
    assert_eq!(duration_from_request(0), None);
    assert_eq!(duration_from_request(-1), None);
}

#[test]
fn control_round_trip_on_sample_events() {
    let events = vec![
        ControlEvent { target_id: "a-1".to_string(), action: ControlAction::Delete },
        ControlEvent {
            target_id: "a-1".to_string(),
            action: ControlAction::Update(task("a-1", "new text", ScheduleType::OneShot, 9, -3)),
        },
        ControlEvent { target_id: String::new(), action: ControlAction::Delete },
    ];
    for e in events {
        assert_eq!(parse_running_task(&encode_control(&e)), Ok(e));
    }
}
