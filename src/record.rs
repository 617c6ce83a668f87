//! The field set the store keeps for each task, written when the task is
//! dispatched and read back by the API layer.

use vstd::prelude::*;
use crate::codec::{
    schedule_name, schedule_name_chars, task_from_fields, task_of_fields, FormatError, Status,
    Task, TaskView,
};
use crate::decimal::{dec_of, dec_of_signed, push_signed, push_unsigned};
use crate::text::{chars_of, same_chars, string_of, views};

verus! {

broadcast use vstd::string::group_string_axioms;

/// The text the store keeps for a status.
pub open spec fn status_name(s: Status) -> Seq<char> {
    match s {
        Status::Running => "RUNNING"@,
        Status::Stopped => "STOPPED"@,
    }
}

/// The field set the store keeps for a task, in the order written.
pub open spec fn record_fields(t: TaskView, s: Status) -> Seq<(Seq<char>, Seq<char>)> {
    seq![
        ("id"@, t.id),
        ("content"@, t.content),
        ("schedule_type"@, schedule_name(t.schedule_type)),
        ("duration"@, dec_of(t.duration as nat)),
        ("status"@, status_name(s)),
        ("slot"@, dec_of_signed(t.slot as int)),
    ]
}

/// The views of a list of string pairs.
pub open spec fn pair_views(v: Seq<(String, String)>) -> Seq<(Seq<char>, Seq<char>)> {
    v.map_values(|p: (String, String)| (p.0@, p.1@))
}

/// The store text of a status.
pub fn status_text(s: Status) -> (r: String)
    ensures
        r@ == status_name(s),
{
    match s {
        Status::Running => "RUNNING".to_string(),
        Status::Stopped => "STOPPED".to_string(),
    }
}

/// The field set that a dispatched task is written with: all its fields,
/// with status running.
pub fn store_fields(task: &Task) -> (r: Vec<(String, String)>)
    ensures
        pair_views(r@) == record_fields(task@, Status::Running),
{
    let name = schedule_name_chars(task.schedule_type);
    let mut duration: Vec<char> = Vec::new();
    push_unsigned(&mut duration, task.duration);
    let mut slot: Vec<char> = Vec::new();
    push_signed(&mut slot, task.slot);
    let r = vec![
        ("id".to_string(), task.id.clone()),
        ("content".to_string(), task.content.clone()),
        ("schedule_type".to_string(), string_of(&name)),
        ("duration".to_string(), string_of(&duration)),
        ("status".to_string(), status_text(Status::Running)),
        ("slot".to_string(), string_of(&slot)),
    ];
    assert(duration@ =~= dec_of(task.duration as nat));
    assert(slot@ =~= dec_of_signed(task.slot as int));
    assert(pair_views(r@) =~= record_fields(task@, Status::Running));
    r
}

/// The value of the first field named `name`, if any.
pub open spec fn field_value(fields: Seq<(Seq<char>, Seq<char>)>, name: Seq<char>) -> Option<Seq<char>>
    decreases fields.len(),
{
    if fields.len() == 0 {
        None
    } else if fields[0].0 == name {
        Some(fields[0].1)
    } else {
        field_value(fields.drop_first(), name)
    }
}

pub open spec fn status_of(s: Seq<char>) -> Option<Status> {
    if s == status_name(Status::Running) {
        Some(Status::Running)
    } else if s == status_name(Status::Stopped) {
        Some(Status::Stopped)
    } else {
        None
    }
}

/// The task and status that a stored field set denotes: every field present,
/// and each one well-formed as in the wire format.
pub open spec fn record_of(fields: Seq<(Seq<char>, Seq<char>)>) -> Option<(TaskView, Status)> {
    let id = field_value(fields, "id"@);
    let content = field_value(fields, "content"@);
    let kind = field_value(fields, "schedule_type"@);
    let duration = field_value(fields, "duration"@);
    let status = field_value(fields, "status"@);
    let slot = field_value(fields, "slot"@);
    if id is Some && content is Some && kind is Some && duration is Some && status is Some
        && slot is Some {
        match task_of_fields(seq![id->0, content->0, kind->0, duration->0, slot->0]) {
            Some(t) => match status_of(status->0) {
                Some(st) => Some((t, st)),
                None => None,
            },
            None => None,
        }
    } else {
        None
    }
}

fn lookup_field(fields: &Vec<(String, String)>, name: &String) -> (r: Option<Vec<char>>)
    ensures
        match r {
            Some(v) => field_value(pair_views(fields@), name@) == Some(v@),
            None => field_value(pair_views(fields@), name@) is None,
        },
{
    let ghost all = pair_views(fields@);
    let mut i: usize = 0;
    assert(all.subrange(0, all.len() as int) =~= all);
    while i < fields.len()
        invariant
            i <= fields@.len(),
            all == pair_views(fields@),
            field_value(all, name@) == field_value(all.subrange(i as int, all.len() as int), name@),
        decreases fields@.len() - i,
    {
        let ghost rest = all.subrange(i as int, all.len() as int);
        assert(rest[0] == (fields@[i as int].0@, fields@[i as int].1@));
        assert(rest.drop_first() =~= all.subrange(i + 1, all.len() as int));
        if fields[i].0 == *name {
            return Some(chars_of(fields[i].1.as_str()));
        }
        i = i + 1;
    }
    None
}

fn status_from_chars(s: &Vec<char>) -> (r: Option<Status>)
    ensures
        r == status_of(s@),
{
    let running = chars_of(status_text(Status::Running).as_str());
    let stopped = chars_of(status_text(Status::Stopped).as_str());
    if same_chars(s, &running) {
        Some(Status::Running)
    } else if same_chars(s, &stopped) {
        Some(Status::Stopped)
    } else {
        None
    }
}

/// Reads a task and its status back from the field set the store keeps.
pub fn record_from_fields(fields: &Vec<(String, String)>) -> (r: Result<(Task, Status), FormatError>)
    ensures
        match r {
            Ok((t, s)) => record_of(pair_views(fields@)) == Some((t@, s)),
            Err(_) => record_of(pair_views(fields@)) is None,
        },
{
    let id = lookup_field(fields, &"id".to_string());
    let content = lookup_field(fields, &"content".to_string());
    let kind = lookup_field(fields, &"schedule_type".to_string());
    let duration = lookup_field(fields, &"duration".to_string());
    let status = lookup_field(fields, &"status".to_string());
    let slot = lookup_field(fields, &"slot".to_string());
    match (id, content, kind, duration, status, slot) {
        (Some(id), Some(content), Some(kind), Some(duration), Some(status), Some(slot)) => {
            let parts = vec![id, content, kind, duration, slot];
            assert(views(parts@) =~= seq![id@, content@, kind@, duration@, slot@]);
            let t = task_from_fields(&parts)?;
            match status_from_chars(&status) {
                Some(st) => Ok((t, st)),
                None => Err(FormatError),
            }
        },
        _ => Err(FormatError),
    }
}

} // verus!
