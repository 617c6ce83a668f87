//! The per-task executor: a state machine that the runtime wakes at each
//! boundary of the task's period with what the status store said.
//!
//! A one-shot task is checked once, `duration` seconds after it started, and
//! fires if it is still running. A repeated task is checked every `duration`
//! seconds and fires at each check until a check finds it not running. The
//! executor's own check is the cooperative stop; [`Executor::cancel`] is the
//! explicit one.

use vstd::prelude::*;
use crate::codec::{ScheduleType, Status, Task};
use crate::record::{status_name, status_text};

verus! {

/// The mathematical state of an executor.
pub struct ExecModel {
    pub kind: ScheduleType,
    /// When the executor started, in seconds.
    pub start: int,
    /// The task's duration, in seconds.
    pub period: int,
    /// How many boundaries have been checked.
    pub checks: nat,
    /// How many side effects have fired.
    pub fired: nat,
    pub terminal: bool,
}

/// The next boundary at which the executor checks the status.
pub open spec fn due(m: ExecModel) -> int {
    m.start + (m.checks + 1) * m.period
}

/// The executor that a task starts as, at time `start`.
pub open spec fn initial(kind: ScheduleType, start: int, period: int) -> ExecModel {
    ExecModel { kind, start, period, checks: 0, fired: 0, terminal: false }
}

/// One wake-up at time `now` with the status read then: the next state, and
/// whether the side effect fires. Before the boundary, or once terminal,
/// nothing changes. At or after it, a status other than running ends the
/// executor without firing; running fires, and ends a one-shot executor.
pub open spec fn step_model(m: ExecModel, now: int, running: bool) -> (ExecModel, bool) {
    if m.terminal || now < due(m) {
        (m, false)
    } else if !running {
        (ExecModel { checks: m.checks + 1, terminal: true, ..m }, false)
    } else {
        (
            ExecModel {
                checks: m.checks + 1,
                fired: m.fired + 1,
                terminal: m.kind is OneShot,
                ..m
            },
            true,
        )
    }
}

/// Whether a status read calls for the executor to stop: anything but a
/// read that found the task running, a failed read included.
pub fn check_is_need_to_stop(status: &Option<String>) -> (r: bool)
    ensures
        r == !(status is Some && status->0@ == status_name(Status::Running)),
{
    match status {
        Some(s) => *s != status_text(Status::Running),
        None => true,
    }
}

/// One side effect of a task: who fired, and when.
#[derive(Clone, Debug, PartialEq, Eq)]
pub struct ExecutionEvent {
    pub id: String,
    pub content: String,
    pub schedule_type: ScheduleType,
    /// The boundary this firing belongs to.
    pub boundary: u64,
    /// The time of the wake-up that fired.
    pub at: u64,
}

/// What the runtime does after a wake-up.
#[derive(Clone, Debug, PartialEq, Eq)]
pub enum Step {
    /// Nothing: the boundary has not come, or the executor has ended.
    Wait,
    /// Emit the event.
    Fire(ExecutionEvent),
    /// The status was not running: the executor has ended without firing.
    Halt,
}

/// The executor of one task.
pub struct Executor {
    task: Task,
    started_at: u64,
    next_due: u128,
    checks: u64,
    fired: u64,
    terminal: bool,
}

impl View for Executor {
    type V = ExecModel;

    closed spec fn view(&self) -> ExecModel {
        ExecModel {
            kind: self.task.schedule_type,
            start: self.started_at as int,
            period: self.task.duration as int,
            checks: self.checks as nat,
            fired: self.fired as nat,
            terminal: self.terminal,
        }
    }
}

impl Executor {
    /// The executor's internal consistency.
    pub closed spec fn wf(&self) -> bool {
        &&& self.task.duration > 0
        &&& self.next_due == due(self@)
        &&& self.next_due <= u64::MAX + self.task.duration
        &&& self.checks < self.next_due
        &&& self.fired <= self.checks
    }

    /// The task this executor runs.
    pub closed spec fn task_view(&self) -> crate::codec::TaskView {
        self.task@
    }

    /// Starts the executor of `task` at time `started_at`.
    pub fn new(task: Task, started_at: u64) -> (r: Executor)
        requires
            task.duration > 0,
        ensures
            r.wf(),
            r@ == initial(task.schedule_type, started_at as int, task.duration as int),
            r.task_view() == task@,
    {
        let next_due = started_at as u128 + task.duration as u128;
        assert((0int + 1) * (task.duration as int) == task.duration as int) by (nonlinear_arith);
        Executor { task, started_at, next_due, checks: 0, fired: 0, terminal: false }
    }

    /// The next boundary, or `None` once the executor has ended or when the
    /// boundary lies beyond the `u64` clock.
    pub fn next_boundary(&self) -> (r: Option<u64>)
        requires
            self.wf(),
        ensures
            r == (if self@.terminal || due(self@) > u64::MAX {
                None
            } else {
                Some(due(self@) as u64)
            }),
    {
        if self.terminal || self.next_due > u64::MAX as u128 {
            None
        } else {
            Some(self.next_due as u64)
        }
    }

    /// Whether the executor has ended.
    pub fn is_terminal(&self) -> (r: bool)
        ensures
            r == self@.terminal,
    {
        self.terminal
    }

    /// How many side effects have fired.
    pub fn fired(&self) -> (r: u64)
        ensures
            r == self@.fired,
    {
        self.fired
    }

    /// Handles a wake-up at time `now`, where `running` is what the status
    /// check found.
    pub fn on_boundary(&mut self, now: u64, running: bool) -> (r: Step)
        requires
            old(self).wf(),
        ensures
            final(self).wf(),
            final(self).task_view() == old(self).task_view(),
            final(self)@ == step_model(old(self)@, now as int, running).0,
            step_model(old(self)@, now as int, running).1 <==> r is Fire,
            r is Halt <==> (!old(self)@.terminal && now >= due(old(self)@) && !running),
            r matches Step::Fire(e) ==> {
                &&& e.id@ == old(self).task_view().id
                &&& e.content@ == old(self).task_view().content
                &&& e.schedule_type == old(self)@.kind
                &&& e.boundary == due(old(self)@)
                &&& e.at == now
            },
    {
        if self.terminal || (now as u128) < self.next_due {
            return Step::Wait;
        }
        let boundary = self.next_due as u64;
        let ghost m = self@;
        proof {
            assert((m.checks + 2) * m.period == (m.checks + 1) * m.period + m.period)
                by (nonlinear_arith);
        }
        self.checks = self.checks + 1;
        self.next_due = self.next_due + self.task.duration as u128;
        if !running {
            self.terminal = true;
            return Step::Halt;
        }
        self.fired = self.fired + 1;
        self.terminal = match self.task.schedule_type {
            ScheduleType::OneShot => true,
            ScheduleType::Repeated => false,
        };
        Step::Fire(
            ExecutionEvent {
                id: self.task.id.clone(),
                content: self.task.content.clone(),
                schedule_type: self.task.schedule_type,
                boundary,
                at: now,
            },
        )
    }

    /// Ends the executor at once, whatever its state: the explicit stop that
    /// the dispatcher raises when its task is stopped or replaced.
    pub fn cancel(&mut self)
        requires
            old(self).wf(),
        ensures
            final(self).wf(),
            final(self).task_view() == old(self).task_view(),
            final(self)@ == (ExecModel { terminal: true, ..old(self)@ }),
    {
        self.terminal = true;
    }
}

/// One wake-up of an executor: when, and whether the status check found the
/// task running.
pub struct Observation {
    pub at: int,
    pub running: bool,
}

/// One firing: the boundary it belongs to and the time of the wake-up.
pub struct Firing {
    pub boundary: int,
    pub at: int,
}

/// The state after a sequence of wake-ups.
pub open spec fn run(m: ExecModel, obs: Seq<Observation>) -> ExecModel
    decreases obs.len(),
{
    if obs.len() == 0 {
        m
    } else {
        run(step_model(m, obs[0].at, obs[0].running).0, obs.drop_first())
    }
}

/// The firings, in order, of a sequence of wake-ups.
pub open spec fn fire_log(m: ExecModel, obs: Seq<Observation>) -> Seq<Firing>
    decreases obs.len(),
{
    if obs.len() == 0 {
        Seq::empty()
    } else {
        let (next, fired) = step_model(m, obs[0].at, obs[0].running);
        let rest = fire_log(next, obs.drop_first());
        if fired {
            seq![Firing { boundary: due(m), at: obs[0].at }] + rest
        } else {
            rest
        }
    }
}

/// Wake-ups at every boundary of the period, starting with the next one.
pub open spec fn punctual(m: ExecModel, obs: Seq<Observation>) -> bool {
    forall|i: int| 0 <= i < obs.len() ==> #[trigger] obs[i].at == m.start + (m.checks + i + 1) * m.period
}

proof fn lemma_due_initial(kind: ScheduleType, start: int, period: int)
    ensures
        due(initial(kind, start, period)) == start + period,
{
    assert((0int + 1) * period == period) by (nonlinear_arith);
}

/// An ended executor stays as it is and fires no more.
pub proof fn lemma_terminal_quiet(m: ExecModel, obs: Seq<Observation>)
    requires
        m.terminal,
    ensures
        run(m, obs) == m,
        fire_log(m, obs).len() == 0,
    decreases obs.len(),
{
    if obs.len() > 0 {
        lemma_terminal_quiet(m, obs.drop_first());
    }
}

/// The fired counter counts the firings.
pub proof fn lemma_fired_counts(m: ExecModel, obs: Seq<Observation>)
    ensures
        run(m, obs).fired == m.fired + fire_log(m, obs).len(),
    decreases obs.len(),
{
    if obs.len() > 0 {
        let next = step_model(m, obs[0].at, obs[0].running).0;
        lemma_fired_counts(next, obs.drop_first());
    }
}

/// The k-th firing belongs to the k-th boundary after the ones already
/// checked, and happens no earlier than that boundary.
pub proof fn lemma_firings_on_boundaries(m: ExecModel, obs: Seq<Observation>)
    ensures
        forall|k: int|
            0 <= k < fire_log(m, obs).len() ==> {
                &&& #[trigger] fire_log(m, obs)[k].boundary == m.start + (m.checks + k + 1) * m.period
                &&& fire_log(m, obs)[k].at >= fire_log(m, obs)[k].boundary
            },
    decreases obs.len(),
{
    if obs.len() > 0 {
        let (next, fired) = step_model(m, obs[0].at, obs[0].running);
        let tail = obs.drop_first();
        lemma_firings_on_boundaries(next, tail);
        let log = fire_log(m, obs);
        let rest = fire_log(next, tail);
        if !fired {
            assert(log == rest);
            if next.terminal {
                lemma_terminal_quiet(next, tail);
            }
        } else {
            assert(log == seq![Firing { boundary: due(m), at: obs[0].at }] + rest);
            assert forall|k: int| 0 <= k < log.len() implies {
                &&& #[trigger] log[k].boundary == m.start + (m.checks + k + 1) * m.period
                &&& log[k].at >= log[k].boundary
            } by {
                if k > 0 {
                    assert(log[k] == rest[k - 1]);
                    assert(next.checks + (k - 1) + 1 == m.checks + k + 1);
                    assert((next.checks + (k - 1) + 1) * m.period == (m.checks + k + 1) * m.period);
                } else {
                    assert(log[0] == Firing { boundary: due(m), at: obs[0].at });
                    assert((m.checks + k + 1) * m.period == (m.checks + 1) * m.period);
                }
            }
        }
    }
}

/// A firing needs a wake-up that found the task running: when every
/// wake-up from time `w` on finds it stopped, nothing fires from `w` on.
pub proof fn lemma_no_firing_after_stop(m: ExecModel, obs: Seq<Observation>, w: int)
    requires
        forall|i: int| 0 <= i < obs.len() && #[trigger] obs[i].at >= w ==> !obs[i].running,
    ensures
        forall|k: int| 0 <= k < fire_log(m, obs).len() ==> #[trigger] fire_log(m, obs)[k].at < w,
    decreases obs.len(),
{
    if obs.len() > 0 {
        let (next, fired) = step_model(m, obs[0].at, obs[0].running);
        let tail = obs.drop_first();
        assert forall|i: int| 0 <= i < tail.len() && #[trigger] tail[i].at >= w implies !tail[i].running by {
            assert(tail[i] == obs[i + 1]);
        }
        lemma_no_firing_after_stop(next, tail, w);
        let log = fire_log(m, obs);
        let rest = fire_log(next, tail);
        if !fired {
            assert(log == rest);
        } else {
            assert(log == seq![Firing { boundary: due(m), at: obs[0].at }] + rest);
            assert(obs[0].running);
            assert forall|k: int| 0 <= k < log.len() implies #[trigger] log[k].at < w by {
                if k > 0 {
                    assert(log[k] == rest[k - 1]);
                }
            }
        }
    }
}

/// When the first wake-up at or after the boundary finds the task stopped,
/// nothing fires.
proof fn lemma_stopped_at_boundary(m: ExecModel, obs: Seq<Observation>)
    requires
        forall|i: int| 0 <= i < obs.len() && #[trigger] obs[i].at >= due(m) ==> !obs[i].running,
        m.kind is OneShot,
    ensures
        fire_log(m, obs).len() == 0,
    decreases obs.len(),
{
    if obs.len() > 0 && !m.terminal {
        let (next, fired) = step_model(m, obs[0].at, obs[0].running);
        let tail = obs.drop_first();
        if obs[0].at < due(m) {
            assert forall|i: int| 0 <= i < tail.len() && #[trigger] tail[i].at >= due(m) implies !tail[i].running by {
                assert(tail[i] == obs[i + 1]);
            }
            lemma_stopped_at_boundary(next, tail);
        } else {
            lemma_terminal_quiet(next, tail);
        }
    } else if obs.len() > 0 {
        lemma_terminal_quiet(m, obs);
    }
}

proof fn lemma_one_shot_once(m: ExecModel, obs: Seq<Observation>)
    requires
        m.kind is OneShot,
        !m.terminal,
        forall|i: int| 0 <= i < obs.len() ==> #[trigger] obs[i].running,
        exists|i: int| 0 <= i < obs.len() && #[trigger] obs[i].at >= due(m),
    ensures
        fire_log(m, obs).len() == 1,
        fire_log(m, obs)[0].boundary == due(m),
        fire_log(m, obs)[0].at >= due(m),
        run(m, obs).terminal,
    decreases obs.len(),
{
    let (next, fired) = step_model(m, obs[0].at, obs[0].running);
    let tail = obs.drop_first();
    assert(obs[0].running);
    if obs[0].at < due(m) {
        let i = choose|i: int| 0 <= i < obs.len() && #[trigger] obs[i].at >= due(m);
        assert(tail[i - 1] == obs[i]);
        assert forall|j: int| 0 <= j < tail.len() implies #[trigger] tail[j].running by {
            assert(tail[j] == obs[j + 1]);
        }
        lemma_one_shot_once(next, tail);
    } else {
        lemma_terminal_quiet(next, tail);
    }
}

/// With wake-ups at every boundary, an executor that finds its task stopped
/// from time `w` on has ended by the first wake-up at or after `w`: one
/// period after the stop at the latest.
pub proof fn lemma_halts_after_stop(m: ExecModel, obs: Seq<Observation>, w: int)
    requires
        punctual(m, obs),
        forall|i: int| 0 <= i < obs.len() && #[trigger] obs[i].at >= w ==> !obs[i].running,
        exists|i: int| 0 <= i < obs.len() && #[trigger] obs[i].at >= w,
    ensures
        run(m, obs).terminal,
    decreases obs.len(),
{
    let (next, fired) = step_model(m, obs[0].at, obs[0].running);
    let tail = obs.drop_first();
    if m.terminal {
        lemma_terminal_quiet(m, obs);
    } else if next.terminal {
        lemma_terminal_quiet(next, tail);
    } else {
        assert(obs[0].at == m.start + (m.checks + 0 + 1) * m.period);
        assert(obs[0].at < w);
        let i = choose|i: int| 0 <= i < obs.len() && #[trigger] obs[i].at >= w;
        assert(tail[i - 1] == obs[i]);
        assert forall|j: int| 0 <= j < tail.len() implies #[trigger] tail[j].at == next.start + (next.checks + j + 1) * next.period by {
            assert(tail[j] == obs[j + 1]);
            assert(next.checks + j + 1 == m.checks + (j + 1) + 1);
        }
        assert forall|j: int| 0 <= j < tail.len() && #[trigger] tail[j].at >= w implies !tail[j].running by {
            assert(tail[j] == obs[j + 1]);
        }
        lemma_halts_after_stop(next, tail, w);
    }
}

/// A one-shot task left running fires exactly once, at its boundary
/// `start + period` or later, and then ends, as soon as some wake-up comes
/// at or after that boundary.
pub proof fn lemma_one_shot_fires_once(start: int, period: int, obs: Seq<Observation>)
    requires
        period > 0,
        forall|i: int| 0 <= i < obs.len() ==> #[trigger] obs[i].running,
        exists|i: int| 0 <= i < obs.len() && #[trigger] obs[i].at >= start + period,
    ensures
        fire_log(initial(ScheduleType::OneShot, start, period), obs).len() == 1,
        fire_log(initial(ScheduleType::OneShot, start, period), obs)[0].boundary == start + period,
        fire_log(initial(ScheduleType::OneShot, start, period), obs)[0].at >= start + period,
        run(initial(ScheduleType::OneShot, start, period), obs).terminal,
        run(initial(ScheduleType::OneShot, start, period), obs).fired == 1,
{
    let m = initial(ScheduleType::OneShot, start, period);
    lemma_due_initial(ScheduleType::OneShot, start, period);
    lemma_one_shot_once(m, obs);
    lemma_fired_counts(m, obs);
}

/// A one-shot task found stopped at its boundary never fires.
pub proof fn lemma_one_shot_stopped_never_fires(start: int, period: int, obs: Seq<Observation>)
    requires
        period > 0,
        forall|i: int| 0 <= i < obs.len() && #[trigger] obs[i].at >= start + period ==> !obs[i].running,
    ensures
        fire_log(initial(ScheduleType::OneShot, start, period), obs).len() == 0,
        run(initial(ScheduleType::OneShot, start, period), obs).fired == 0,
{
    let m = initial(ScheduleType::OneShot, start, period);
    lemma_due_initial(ScheduleType::OneShot, start, period);
    lemma_stopped_at_boundary(m, obs);
    lemma_fired_counts(m, obs);
}

/// A repeated task fires at the successive boundaries `start + period`,
/// `start + 2 * period`, ..., each firing no earlier than its boundary;
/// nothing fires from the moment every status check finds it stopped; and
/// with wake-ups at every boundary it has ended by the first boundary after
/// the stop.
pub proof fn lemma_repeated_firings(start: int, period: int, obs: Seq<Observation>, w: int)
    requires
        period > 0,
        forall|i: int| 0 <= i < obs.len() && #[trigger] obs[i].at >= w ==> !obs[i].running,
    ensures
        forall|k: int|
            #![trigger fire_log(initial(ScheduleType::Repeated, start, period), obs)[k]]
            0 <= k < fire_log(initial(ScheduleType::Repeated, start, period), obs).len() ==> {
                &&& fire_log(initial(ScheduleType::Repeated, start, period), obs)[k].boundary
                    == start + (k + 1) * period
                &&& fire_log(initial(ScheduleType::Repeated, start, period), obs)[k].at >= start + (k
                    + 1) * period
                &&& fire_log(initial(ScheduleType::Repeated, start, period), obs)[k].at < w
            },
        punctual(initial(ScheduleType::Repeated, start, period), obs) && (exists|i: int|
            0 <= i < obs.len() && #[trigger] obs[i].at >= w) ==> run(
            initial(ScheduleType::Repeated, start, period),
            obs,
        ).terminal,
{
    let m = initial(ScheduleType::Repeated, start, period);
    lemma_firings_on_boundaries(m, obs);
    lemma_no_firing_after_stop(m, obs, w);
    let log = fire_log(m, obs);
    assert forall|k: int| #![trigger log[k]] 0 <= k < log.len() implies {
        &&& log[k].boundary == start + (k + 1) * period
        &&& log[k].at >= start + (k + 1) * period
        &&& log[k].at < w
    } by {
        assert(log[k].boundary == m.start + (m.checks + k + 1) * m.period);
        assert(log[k].at >= log[k].boundary);
        assert(log[k].at < w);
        assert(m.checks + k + 1 == k + 1);
        assert((m.checks + k + 1) * period == (k + 1) * period);
    }
    if punctual(m, obs) && (exists|i: int| 0 <= i < obs.len() && #[trigger] obs[i].at >= w) {
        lemma_halts_after_stop(m, obs, w);
    }
}

} // verus!
