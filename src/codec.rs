//! The wire encoding of task records and control events, and its decoding.
//!
//! A task travels as `{id}::{content}::{schedule_type}::{duration}::{slot}`;
//! a control event as `{id}|delete` or `{id}|update|{task encoding}`. Fields
//! are found by splitting on the delimiter left to right, so a field that
//! holds the delimiter does not survive the trip (it is not escaped).

use vstd::prelude::*;
use crate::decimal::{
    dec_of, dec_of_signed, is_digit, lemma_dec_of, lemma_signed_round_trip,
    lemma_unsigned_round_trip, parse_signed, parse_unsigned, push_signed, push_unsigned,
    signed_of, unsigned_of,
};
use crate::text::{
    chars_of, contains, lemma_split_first, lemma_split_single, occurs_at, push_str_chars,
    same_chars, split, split_on, string_of, views,
};

verus! {

/// How a task is scheduled: fire once after its duration, or every duration.
#[derive(Clone, Copy, Debug, PartialEq, Eq, Structural)]
pub enum ScheduleType {
    OneShot,
    Repeated,
}

/// The status flag the store keeps for each task.
#[derive(Clone, Copy, Debug, PartialEq, Eq, Structural)]
pub enum Status {
    Running,
    Stopped,
}

/// A task as it travels through the todo channel.
#[derive(Clone, Debug, PartialEq, Eq)]
pub struct Task {
    pub id: String,
    pub content: String,
    pub schedule_type: ScheduleType,
    /// Seconds between the start and the firing, or between firings.
    pub duration: u64,
    /// An index into the API layer's own records, passed through untouched.
    pub slot: i64,
}

/// The mathematical value of a [`Task`].
pub struct TaskView {
    pub id: Seq<char>,
    pub content: Seq<char>,
    pub schedule_type: ScheduleType,
    pub duration: u64,
    pub slot: i64,
}

impl View for Task {
    type V = TaskView;

    open spec fn view(&self) -> TaskView {
        TaskView {
            id: self.id@,
            content: self.content@,
            schedule_type: self.schedule_type,
            duration: self.duration,
            slot: self.slot,
        }
    }
}

/// What a control event asks for.
#[derive(Clone, Debug, PartialEq, Eq)]
pub enum ControlAction {
    /// Stop the task.
    Delete,
    /// Stop the task and start it again with these fields.
    Update(Task),
}

/// A stop or update request against a dispatched task.
#[derive(Clone, Debug, PartialEq, Eq)]
pub struct ControlEvent {
    pub target_id: String,
    pub action: ControlAction,
}

pub enum ControlActionView {
    Delete,
    Update(TaskView),
}

pub struct ControlEventView {
    pub target_id: Seq<char>,
    pub action: ControlActionView,
}

impl View for ControlEvent {
    type V = ControlEventView;

    open spec fn view(&self) -> ControlEventView {
        ControlEventView {
            target_id: self.target_id@,
            action: match self.action {
                ControlAction::Delete => ControlActionView::Delete,
                ControlAction::Update(t) => ControlActionView::Update(t@),
            },
        }
    }
}

/// A wire entry that does not decode.
#[derive(Clone, Copy, Debug, PartialEq, Eq, Structural)]
pub struct FormatError;

/// The delimiter between the fields of a task.
pub open spec fn field_delim() -> Seq<char> {
    seq![':', ':']
}

/// The delimiter between the parts of a control event.
pub open spec fn event_delim() -> Seq<char> {
    seq!['|']
}

pub open spec fn schedule_name(k: ScheduleType) -> Seq<char> {
    match k {
        ScheduleType::OneShot => seq!['O', 'n', 'e', 'S', 'h', 'o', 't'],
        ScheduleType::Repeated => seq!['R', 'e', 'p', 'e', 'a', 't', 'e', 'd'],
    }
}

pub open spec fn schedule_of(s: Seq<char>) -> Option<ScheduleType> {
    if s == schedule_name(ScheduleType::OneShot) {
        Some(ScheduleType::OneShot)
    } else if s == schedule_name(ScheduleType::Repeated) {
        Some(ScheduleType::Repeated)
    } else {
        None
    }
}

pub open spec fn delete_word() -> Seq<char> {
    seq!['d', 'e', 'l', 'e', 't', 'e']
}

pub open spec fn update_word() -> Seq<char> {
    seq!['u', 'p', 'd', 'a', 't', 'e']
}

/// The wire text of a task.
pub open spec fn task_wire(t: TaskView) -> Seq<char> {
    t.id + field_delim() + t.content + field_delim() + schedule_name(t.schedule_type)
        + field_delim() + dec_of(t.duration as nat) + field_delim() + dec_of_signed(t.slot as int)
}

/// The task that five wire fields denote: a known schedule type, a positive
/// duration and a slot that fit their integer types.
pub open spec fn task_of_fields(f: Seq<Seq<char>>) -> Option<TaskView> {
    if f.len() == 5 && schedule_of(f[2]) is Some && unsigned_of(f[3]) is Some
        && unsigned_of(f[3])->0 > 0 && signed_of(f[4]) is Some {
        Some(
            TaskView {
                id: f[0],
                content: f[1],
                schedule_type: schedule_of(f[2])->0,
                duration: unsigned_of(f[3])->0,
                slot: signed_of(f[4])->0,
            },
        )
    } else {
        None
    }
}

/// The task that a wire entry denotes, if any.
pub open spec fn task_of_wire(s: Seq<char>) -> Option<TaskView> {
    task_of_fields(split(s, field_delim()))
}

/// The wire text of a control event.
pub open spec fn control_wire(e: ControlEventView) -> Seq<char> {
    match e.action {
        ControlActionView::Delete => e.target_id + event_delim() + delete_word(),
        ControlActionView::Update(t) => e.target_id + event_delim() + update_word() + event_delim()
            + task_wire(t),
    }
}

/// The control event that a wire entry denotes, if any: two parts ending in
/// `delete`, or three parts with `update` in the middle and a task last.
pub open spec fn control_of_wire(s: Seq<char>) -> Option<ControlEventView> {
    let f = split(s, event_delim());
    if f.len() == 2 && f[1] == delete_word() {
        Some(ControlEventView { target_id: f[0], action: ControlActionView::Delete })
    } else if f.len() == 3 && f[1] == update_word() && task_of_wire(f[2]) is Some {
        Some(
            ControlEventView {
                target_id: f[0],
                action: ControlActionView::Update(task_of_wire(f[2])->0),
            },
        )
    } else {
        None
    }
}

pub(crate) fn schedule_name_chars(k: ScheduleType) -> (r: Vec<char>)
    ensures
        r@ == schedule_name(k),
{
    let r = match k {
        ScheduleType::OneShot => vec!['O', 'n', 'e', 'S', 'h', 'o', 't'],
        ScheduleType::Repeated => vec!['R', 'e', 'p', 'e', 'a', 't', 'e', 'd'],
    };
    assert(r@ =~= schedule_name(k));
    r
}

pub(crate) fn schedule_from_chars(s: &Vec<char>) -> (r: Option<ScheduleType>)
    ensures
        r == schedule_of(s@),
{
    if same_chars(s, &schedule_name_chars(ScheduleType::OneShot)) {
        Some(ScheduleType::OneShot)
    } else if same_chars(s, &schedule_name_chars(ScheduleType::Repeated)) {
        Some(ScheduleType::Repeated)
    } else {
        None
    }
}

fn push_task_wire(out: &mut Vec<char>, t: &Task)
    ensures
        final(out)@ == old(out)@ + task_wire(t@),
{
    push_str_chars(out, t.id.as_str());
    out.push(':');
    out.push(':');
    push_str_chars(out, t.content.as_str());
    out.push(':');
    out.push(':');
    let mut name = schedule_name_chars(t.schedule_type);
    out.append(&mut name);
    out.push(':');
    out.push(':');
    push_unsigned(out, t.duration);
    out.push(':');
    out.push(':');
    push_signed(out, t.slot);
    assert(final(out)@ =~= old(out)@ + task_wire(t@));
}

/// Encodes a task for the todo channel.
pub fn encode_task(t: &Task) -> (r: String)
    ensures
        r@ == task_wire(t@),
{
    let mut out: Vec<char> = Vec::new();
    push_task_wire(&mut out, t);
    assert(out@ =~= task_wire(t@));
    string_of(&out)
}

/// Encodes a control event for the control channel.
pub fn encode_control(e: &ControlEvent) -> (r: String)
    ensures
        r@ == control_wire(e@),
{
    let mut out: Vec<char> = Vec::new();
    push_str_chars(&mut out, e.target_id.as_str());
    out.push('|');
    match &e.action {
        ControlAction::Delete => {
            let mut w = vec!['d', 'e', 'l', 'e', 't', 'e'];
            out.append(&mut w);
        },
        ControlAction::Update(t) => {
            let mut w = vec!['u', 'p', 'd', 'a', 't', 'e'];
            out.append(&mut w);
            out.push('|');
            push_task_wire(&mut out, t);
        },
    }
    assert(out@ =~= control_wire(e@));
    string_of(&out)
}

pub(crate) fn task_from_fields(f: &Vec<Vec<char>>) -> (r: Result<Task, FormatError>)
    ensures
        match r {
            Ok(t) => task_of_fields(views(f@)) == Some(t@),
            Err(_) => task_of_fields(views(f@)) is None,
        },
{
    if f.len() != 5 {
        return Err(FormatError);
    }
    let schedule_type = match schedule_from_chars(&f[2]) {
        Some(k) => k,
        None => return Err(FormatError),
    };
    let duration = match parse_unsigned(&f[3]) {
        Some(d) => d,
        None => return Err(FormatError),
    };
    if duration == 0 {
        return Err(FormatError);
    }
    let slot = match parse_signed(&f[4]) {
        Some(x) => x,
        None => return Err(FormatError),
    };
    let t = Task {
        id: string_of(&f[0]),
        content: string_of(&f[1]),
        schedule_type,
        duration,
        slot,
    };
    assert(views(f@)[0] == f@[0]@ && views(f@)[1] == f@[1]@);
    Ok(t)
}

/// Decodes a todo-channel entry into a task. Fails when the entry does not
/// split into exactly five fields, when the schedule type is unknown, or when
/// the duration is not a positive `u64` or the slot not an `i64`.
pub fn parser_task(task: &str) -> (r: Result<Task, FormatError>)
    ensures
        match r {
            Ok(t) => task_of_wire(task@) == Some(t@),
            Err(_) => task_of_wire(task@) is None,
        },
{
    let cs = chars_of(task);
    let delim = vec![':', ':'];
    assert(delim@ =~= field_delim());
    let fields = split_on(&cs, &delim);
    task_from_fields(&fields)
}

/// Decodes a control-channel entry. Fails unless the entry is `{id}|delete`,
/// or `{id}|update|{task}` where the task decodes.
pub fn parse_running_task(task: &str) -> (r: Result<ControlEvent, FormatError>)
    ensures
        match r {
            Ok(e) => control_of_wire(task@) == Some(e@),
            Err(_) => control_of_wire(task@) is None,
        },
{
    let cs = chars_of(task);
    let delim = vec!['|'];
    assert(delim@ =~= event_delim());
    let parts = split_on(&cs, &delim);
    let ghost f = views(parts@);
    let delete = vec!['d', 'e', 'l', 'e', 't', 'e'];
    let update = vec!['u', 'p', 'd', 'a', 't', 'e'];
    assert(delete@ =~= delete_word());
    assert(update@ =~= update_word());
    if parts.len() == 2 && same_chars(&parts[1], &delete) {
        assert(f[1] == parts@[1]@);
        let e = ControlEvent { target_id: string_of(&parts[0]), action: ControlAction::Delete };
        assert(f[0] == parts@[0]@);
        return Ok(e);
    }
    if parts.len() == 3 && same_chars(&parts[1], &update) {
        assert(f[0] == parts@[0]@ && f[1] == parts@[1]@ && f[2] == parts@[2]@);
        let inner = string_of(&parts[2]);
        match parser_task(inner.as_str()) {
            Ok(t) => {
                let e = ControlEvent {
                    target_id: string_of(&parts[0]),
                    action: ControlAction::Update(t),
                };
                return Ok(e);
            },
            Err(_) => return Err(FormatError),
        }
    }
    proof {
        if parts.len() == 2 {
            assert(f[1] == parts@[1]@);
        }
        if parts.len() == 3 {
            assert(f[1] == parts@[1]@);
        }
    }
    Err(FormatError)
}

/// The schedule type a request names, if it names one.
pub fn schedule_type_from_text(s: &str) -> (r: Option<ScheduleType>)
    ensures
        r == schedule_of(s@),
{
    schedule_from_chars(&chars_of(s))
}

/// The name of a schedule type, as the wire and the store write it.
pub fn schedule_type_text(k: ScheduleType) -> (r: String)
    ensures
        r@ == schedule_name(k),
{
    string_of(&schedule_name_chars(k))
}

/// Whether a free-text field survives the wire: it holds no `::` and does
/// not end in `:` (which would join the delimiter after it).
pub open spec fn wire_safe(f: Seq<char>) -> bool {
    !contains(f, field_delim()) && !(f.len() > 0 && f.last() == ':')
}

pub open spec fn colon_free(f: Seq<char>) -> bool {
    forall|i: int| 0 <= i < f.len() ==> f[i] != ':'
}

pub proof fn lemma_colon_free_safe(f: Seq<char>)
    requires
        colon_free(f),
    ensures
        wire_safe(f),
{
    assert forall|j: int| !occurs_at(f, field_delim(), j) by {
        if occurs_at(f, field_delim(), j) {
            assert(f.subrange(j, j + 2)[0] == f[j]);
        }
    }
}

proof fn lemma_no_early_delim(f: Seq<char>, rest: Seq<char>)
    requires
        wire_safe(f),
    ensures
        forall|j: int| 0 <= j < f.len() ==> !occurs_at(f + field_delim() + rest, field_delim(), j),
{
    let d = field_delim();
    let s = f + d + rest;
    assert forall|j: int| 0 <= j < f.len() implies !occurs_at(s, d, j) by {
        if occurs_at(s, d, j) {
            let w = s.subrange(j, j + 2);
            assert(w[0] == s[j] && w[1] == s[j + 1]);
            if j + 2 <= f.len() {
                assert(f.subrange(j, j + 2) =~= w);
                assert(occurs_at(f, d, j));
            } else {
                assert(s[j] == f.last());
            }
        }
    }
}

proof fn lemma_split_safe_field(f: Seq<char>, rest: Seq<char>)
    requires
        wire_safe(f),
    ensures
        split(f + field_delim() + rest, field_delim()) == seq![f] + split(rest, field_delim()),
{
    lemma_no_early_delim(f, rest);
    lemma_split_first(f, field_delim(), rest);
}

proof fn lemma_digits_colon_free(n: nat)
    ensures
        colon_free(dec_of(n)),
        colon_free(dec_of_signed(n as int)),
        colon_free(dec_of_signed(-(n as int))),
{
    lemma_dec_of(n);
    let s = dec_of(n);
    assert forall|i: int| 0 <= i < s.len() implies s[i] != ':' by {
        assert(is_digit(s[i]));
    }
    let m = dec_of_signed(-(n as int));
    if n > 0 {
        assert forall|i: int| 0 <= i < m.len() implies m[i] != ':' by {
            if i > 0 {
                assert(m[i] == s[i - 1]);
            }
        }
    }
}

proof fn lemma_five_fields(a: Seq<char>, b: Seq<char>, c: Seq<char>, e: Seq<char>, g: Seq<char>)
    requires
        wire_safe(a),
        wire_safe(b),
        wire_safe(c),
        wire_safe(e),
        !contains(g, field_delim()),
    ensures
        split(a + field_delim() + b + field_delim() + c + field_delim() + e + field_delim() + g, field_delim())
            == seq![a, b, c, e, g],
{
    let d = field_delim();
    let r3 = e + d + g;
    let r2 = c + d + r3;
    let r1 = b + d + r2;
    assert(a + d + b + d + c + d + e + d + g =~= a + d + r1);
    lemma_split_single(g, d);
    lemma_split_safe_field(e, g);
    assert(split(r3, d) =~= seq![e, g]);
    lemma_split_safe_field(c, r3);
    assert(split(r2, d) =~= seq![c, e, g]);
    lemma_split_safe_field(b, r2);
    assert(split(r1, d) =~= seq![b, c, e, g]);
    lemma_split_safe_field(a, r1);
    assert(split(a + d + r1, d) =~= seq![a, b, c, e, g]);
}

/// The generated fields of a task's wire text are wire-safe.
proof fn lemma_generated_fields_safe(t: TaskView)
    ensures
        wire_safe(schedule_name(t.schedule_type)),
        wire_safe(dec_of(t.duration as nat)),
        !contains(dec_of_signed(t.slot as int), field_delim()),
{
    lemma_digits_colon_free(t.duration as nat);
    if t.slot < 0 {
        lemma_digits_colon_free((-t.slot) as nat);
    } else {
        lemma_digits_colon_free(t.slot as nat);
    }
    assert(colon_free(schedule_name(t.schedule_type)));
    lemma_colon_free_safe(schedule_name(t.schedule_type));
    lemma_colon_free_safe(dec_of(t.duration as nat));
    lemma_colon_free_safe(dec_of_signed(t.slot as int));
}

/// Decoding the encoding of a task gives the task back, for every task
/// whose id and content are wire-safe and whose duration is positive.
pub proof fn lemma_task_round_trip(t: TaskView)
    requires
        wire_safe(t.id),
        wire_safe(t.content),
        t.duration > 0,
    ensures
        task_of_wire(task_wire(t)) == Some(t),
{
    lemma_generated_fields_safe(t);
    lemma_five_fields(
        t.id,
        t.content,
        schedule_name(t.schedule_type),
        dec_of(t.duration as nat),
        dec_of_signed(t.slot as int),
    );
    lemma_unsigned_round_trip(t.duration);
    lemma_signed_round_trip(t.slot);
    assert(schedule_name(ScheduleType::OneShot)[0] != schedule_name(ScheduleType::Repeated)[0]);
}

/// No character of `s` is the event delimiter.
pub open spec fn bar_free(s: Seq<char>) -> bool {
    forall|i: int| 0 <= i < s.len() ==> s[i] != '|'
}

proof fn lemma_bar_free_concat(a: Seq<char>, b: Seq<char>)
    requires
        bar_free(a),
        bar_free(b),
    ensures
        bar_free(a + b),
{
    assert forall|i: int| 0 <= i < (a + b).len() implies (a + b)[i] != '|' by {
        if i < a.len() {
            assert((a + b)[i] == a[i]);
        } else {
            assert((a + b)[i] == b[i - a.len()]);
        }
    }
}

proof fn lemma_bar_free_no_delim(s: Seq<char>)
    requires
        bar_free(s),
    ensures
        !contains(s, event_delim()),
        forall|r: Seq<char>, j: int| 0 <= j < s.len() ==> !occurs_at(s + event_delim() + r, event_delim(), j),
{
    assert forall|j: int| !occurs_at(s, event_delim(), j) by {
        if occurs_at(s, event_delim(), j) {
            assert(s.subrange(j, j + 1)[0] == s[j]);
        }
    }
    assert forall|r: Seq<char>, j: int| 0 <= j < s.len() implies !occurs_at(s + event_delim() + r, event_delim(), j) by {
        let w = s + event_delim() + r;
        if occurs_at(w, event_delim(), j) {
            assert(w.subrange(j, j + 1)[0] == w[j]);
            assert(w[j] == s[j]);
        }
    }
}

proof fn lemma_task_wire_bar_free(t: TaskView)
    requires
        bar_free(t.id),
        bar_free(t.content),
    ensures
        bar_free(task_wire(t)),
{
    let d = field_delim();
    let name = schedule_name(t.schedule_type);
    let du = dec_of(t.duration as nat);
    let sl = dec_of_signed(t.slot as int);
    lemma_dec_of(t.duration as nat);
    assert(bar_free(du)) by {
        assert forall|i: int| 0 <= i < du.len() implies du[i] != '|' by {
            assert(is_digit(du[i]));
        }
    }
    let m = if t.slot < 0 {
        (-t.slot) as nat
    } else {
        t.slot as nat
    };
    lemma_dec_of(m);
    assert(bar_free(sl)) by {
        assert forall|i: int| 0 <= i < sl.len() implies sl[i] != '|' by {
            if t.slot < 0 && i > 0 {
                assert(sl[i] == dec_of(m)[i - 1]);
                assert(is_digit(dec_of(m)[i - 1]));
            } else if t.slot >= 0 {
                assert(is_digit(dec_of(m)[i]));
            }
        }
    }
    assert(bar_free(d));
    assert(bar_free(name));
    lemma_bar_free_concat(t.id, d);
    lemma_bar_free_concat(t.id + d, t.content);
    lemma_bar_free_concat(t.id + d + t.content, d);
    lemma_bar_free_concat(t.id + d + t.content + d, name);
    lemma_bar_free_concat(t.id + d + t.content + d + name, d);
    lemma_bar_free_concat(t.id + d + t.content + d + name + d, du);
    lemma_bar_free_concat(t.id + d + t.content + d + name + d + du, d);
    lemma_bar_free_concat(t.id + d + t.content + d + name + d + du + d, sl);
}

proof fn lemma_two_parts(a: Seq<char>, c: Seq<char>)
    requires
        bar_free(a),
        bar_free(c),
    ensures
        split(a + event_delim() + c, event_delim()) == seq![a, c],
{
    let b = event_delim();
    lemma_bar_free_no_delim(a);
    lemma_bar_free_no_delim(c);
    lemma_split_first(a, b, c);
    lemma_split_single(c, b);
    assert(seq![a] + seq![c] =~= seq![a, c]);
}

proof fn lemma_three_parts(a: Seq<char>, c: Seq<char>, g: Seq<char>)
    requires
        bar_free(a),
        bar_free(c),
        bar_free(g),
    ensures
        split(a + event_delim() + c + event_delim() + g, event_delim()) == seq![a, c, g],
{
    let b = event_delim();
    lemma_bar_free_no_delim(a);
    lemma_two_parts(c, g);
    assert(a + b + c + b + g =~= a + b + (c + b + g));
    lemma_split_first(a, b, c + b + g);
    assert(seq![a] + seq![c, g] =~= seq![a, c, g]);
}

/// Decoding the encoding of a control event gives the event back, for every
/// event whose ids and content hold no `|`, and whose task, for an update,
/// would survive the wire on its own.
pub proof fn lemma_control_round_trip(e: ControlEventView)
    requires
        bar_free(e.target_id),
        e.action matches ControlActionView::Update(t) ==> {
            &&& bar_free(t.id)
            &&& bar_free(t.content)
            &&& wire_safe(t.id)
            &&& wire_safe(t.content)
            &&& t.duration > 0
        },
    ensures
        control_of_wire(control_wire(e)) == Some(e),
{
    match e.action {
        ControlActionView::Delete => {
            assert(bar_free(delete_word()));
            lemma_two_parts(e.target_id, delete_word());
        },
        ControlActionView::Update(t) => {
            assert(bar_free(update_word()));
            lemma_task_wire_bar_free(t);
            lemma_three_parts(e.target_id, update_word(), task_wire(t));
            lemma_task_round_trip(t);
            assert(update_word() != delete_word());
        },
    }
}

} // verus!
