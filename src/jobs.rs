//! Jobs as clients submit and change them: a new job gets a fresh id and
//! becomes a task; a change replaces some of a task's fields.

use vstd::prelude::*;
use crate::codec::{
    colon_free, event_delim, lemma_colon_free_safe, schedule_from_chars, schedule_of, wire_safe,
    FormatError, ScheduleType, Task, TaskView,
};
use crate::text::{chars_of, contains, occurs_at};

verus! {

/// A character of a UUID in hyphenated lowercase form.
pub open spec fn is_uuid_char(c: char) -> bool {
    ('0' <= c <= '9') || ('a' <= c <= 'f') || c == '-'
}

/// Relies on `uuid::Uuid::new_v4` and its `Display`: a random version-4 UUID
/// written in hyphenated lowercase form, 36 characters of hex digits and
/// hyphens.
#[verifier::external_body]
fn fresh_id() -> (r: String)
    ensures
        r@.len() == 36,
        forall|i: int| 0 <= i < r@.len() ==> is_uuid_char(#[trigger] r@[i]),
{
    uuid::Uuid::new_v4().to_string()
}

proof fn lemma_uuid_text_safe(s: Seq<char>)
    requires
        forall|i: int| 0 <= i < s.len() ==> is_uuid_char(#[trigger] s[i]),
    ensures
        wire_safe(s),
        !contains(s, event_delim()),
{
    assert(colon_free(s));
    lemma_colon_free_safe(s);
    assert forall|j: int| !occurs_at(s, event_delim(), j) by {
        if occurs_at(s, event_delim(), j) {
            assert(s.subrange(j, j + 1)[0] == s[j]);
        }
    }
}

/// A task for a newly submitted job, under a fresh id that holds neither
/// delimiter. Fails unless the schedule type is `OneShot` or `Repeated` and
/// the duration is positive.
pub fn create_task(content: String, schedule_type: &str, duration: i64, slot: i64) -> (r: Result<
    Task,
    FormatError,
>)
    ensures
        match r {
            Ok(t) => {
                &&& schedule_of(schedule_type@) == Some(t.schedule_type)
                &&& duration > 0
                &&& t.content@ == content@
                &&& t.duration == duration
                &&& t.slot == slot
                &&& t.id@.len() == 36
                &&& wire_safe(t.id@)
                &&& !contains(t.id@, event_delim())
            },
            Err(_) => schedule_of(schedule_type@) is None || duration <= 0,
        },
{
    let id = fresh_id();
    proof {
        lemma_uuid_text_safe(id@);
    }
    new_task(id, content, schedule_type, duration, slot)
}

/// The duration a request gives, if it is positive.
pub fn duration_from_request(d: i64) -> (r: Option<u64>)
    ensures
        r == (if d > 0 {
            Some(d as u64)
        } else {
            None
        }),
{
    if d > 0 {
        Some(d as u64)
    } else {
        None
    }
}

/// A task from the fields of a request: fails unless the schedule type is
/// `OneShot` or `Repeated` and the duration is positive.
pub fn new_task(id: String, content: String, schedule_type: &str, duration: i64, slot: i64) -> (r:
    Result<Task, FormatError>)
    ensures
        match r {
            Ok(t) => {
                &&& schedule_of(schedule_type@) == Some(t.schedule_type)
                &&& duration > 0
                &&& t@ == (TaskView {
                    id: id@,
                    content: content@,
                    schedule_type: t.schedule_type,
                    duration: duration as u64,
                    slot,
                })
            },
            Err(_) => schedule_of(schedule_type@) is None || duration <= 0,
        },
{
    let kind = match schedule_from_chars(&chars_of(schedule_type)) {
        Some(k) => k,
        None => return Err(FormatError),
    };
    if duration <= 0 {
        return Err(FormatError);
    }
    Ok(Task { id, content, schedule_type: kind, duration: duration as u64, slot })
}

impl Task {
    /// The task with the given fields replaced.
    pub fn with_changes(&self, content: Option<String>, schedule_type: Option<ScheduleType>, duration:
        Option<u64>) -> (r: Task)
        ensures
            r.id@ == self.id@,
            r.slot == self.slot,
            r.content@ == (match content {
                Some(c) => c@,
                None => self.content@,
            }),
            r.schedule_type == (match schedule_type {
                Some(k) => k,
                None => self.schedule_type,
            }),
            r.duration == (match duration {
                Some(d) => d,
                None => self.duration,
            }),
    {
        Task {
            id: self.id.clone(),
            content: match content {
                Some(c) => c,
                None => self.content.clone(),
            },
            schedule_type: match schedule_type {
                Some(k) => k,
                None => self.schedule_type,
            },
            duration: match duration {
                Some(d) => d,
                None => self.duration,
            },
            slot: self.slot,
        }
    }
}

} // verus!
