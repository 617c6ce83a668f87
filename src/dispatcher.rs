//! The dispatcher: the single owner of the task registry, and the place
//! where each drained queue entry turns into what the runtime must do.
//!
//! Each tick handles the todo channel first and the control channel second.
//! A todo entry becomes a task written to the store with status running and
//! a fresh executor; the handle of an executor it replaces is handed back to
//! be cancelled. A control entry stops its task: the status is set to
//! stopped, the task's executor is handed back to be cancelled, and an
//! update re-encodes the new version for the todo channel, so that it starts
//! on a later tick.

use vstd::prelude::*;
use crate::codec::{
    encode_task, task_of_wire, task_wire, wire_safe, ControlAction, ControlActionView,
    ControlEvent, ControlEventView, Status, Task, TaskView, lemma_task_round_trip,
};
use crate::executor::{due, step_model, ExecModel};
use crate::registry::TaskRegistry;

verus! {

broadcast use vstd::string::group_string_axioms;

/// The dispatcher's settings.
#[derive(Clone, Debug)]
pub struct Config {
    /// Seconds between ticks.
    pub period: u64,
    /// The channel of new and updated tasks.
    pub todo_channel: String,
    /// The channel of stop and update requests.
    pub control_channel: String,
}

impl Default for Config {
    /// A ten-second tick, with the channels `todo-list` and `running-list`.
    fn default() -> (r: Config)
        ensures
            r.period == 10,
            r.todo_channel@ == "todo-list"@,
            r.control_channel@ == "running-list"@,
    {
        Config {
            period: 10,
            todo_channel: "todo-list".to_string(),
            control_channel: "running-list".to_string(),
        }
    }
}

/// What the runtime does for one control event.
pub struct ControlPlan<H> {
    /// The task whose status is set to stopped.
    pub stop_id: String,
    /// The executor to cancel, if the task had one.
    pub cancel: Option<H>,
    /// The entry to push to the todo channel, for an update.
    pub requeue: Option<String>,
}

/// The task an update starts: the new fields under the target's id.
pub open spec fn replacement(target: Seq<char>, t: TaskView) -> TaskView {
    TaskView { id: target, ..t }
}

/// The todo entry that a control event pushes.
pub open spec fn requeue_of(e: ControlEventView) -> Option<Seq<char>> {
    match e.action {
        ControlActionView::Delete => None,
        ControlActionView::Update(t) => Some(task_wire(replacement(e.target_id, t))),
    }
}

/// The handle a control event cancels: the one its target has.
pub open spec fn cancel_of<H>(reg: Map<Seq<char>, H>, e: ControlEventView) -> Option<H> {
    if reg.contains_key(e.target_id) {
        Some(reg[e.target_id])
    } else {
        None
    }
}

/// The registry after a control event: its target has no handle.
pub open spec fn registry_after_control<H>(reg: Map<Seq<char>, H>, e: ControlEventView) -> Map<
    Seq<char>,
    H,
> {
    reg.remove(e.target_id)
}

/// The statuses in the store after a stop is written: a known id becomes
/// stopped; an unknown id is left alone.
pub open spec fn mark_stopped(store: Map<Seq<char>, Status>, id: Seq<char>) -> Map<Seq<char>, Status> {
    if store.contains_key(id) {
        store.insert(id, Status::Stopped)
    } else {
        store
    }
}

/// The dispatcher's state: its settings and the registry of running executors,
/// each known by a handle of type `H`.
pub struct Dispatcher<H> {
    registry: TaskRegistry<H>,
    config: Config,
}

impl<H> Dispatcher<H> {
    pub closed spec fn wf(&self) -> bool {
        self.registry.wf()
    }

    /// Which handle runs each task id.
    pub closed spec fn registry_view(&self) -> Map<Seq<char>, H> {
        self.registry@
    }

    pub closed spec fn config_view(&self) -> &Config {
        &self.config
    }

    /// A dispatcher with no executors.
    pub fn new(config: Config) -> (r: Dispatcher<H>)
        ensures
            r.wf(),
            r.registry_view() == Map::<Seq<char>, H>::empty(),
            r.config_view() == config,
    {
        Dispatcher { registry: TaskRegistry::new(), config }
    }

    /// The settings.
    pub fn config(&self) -> (r: &Config)
        ensures
            r == self.config_view(),
    {
        &self.config
    }

    /// Whether `id` has a running executor.
    pub fn is_registered(&self, id: &String) -> (r: bool)
        requires
            self.wf(),
        ensures
            r == self.registry_view().contains_key(id@),
    {
        self.registry.contains(id)
    }

    /// Records the executor just started for a task drained from the todo
    /// channel and written to the store. Hands back the handle of the
    /// executor it replaces, which the runtime cancels.
    pub fn install(&mut self, task: &Task, handle: H) -> (superseded: Option<H>)
        requires
            old(self).wf(),
        ensures
            final(self).wf(),
            final(self).config_view() == old(self).config_view(),
            final(self).registry_view() == old(self).registry_view().insert(task.id@, handle),
            superseded == (if old(self).registry_view().contains_key(task.id@) {
                Some(old(self).registry_view()[task.id@])
            } else {
                None
            }),
    {
        self.registry.insert(task.id.clone(), handle)
    }

    /// Decides what one control event causes: its target is stopped, its
    /// executor is taken out of the registry to be cancelled, and an update
    /// yields the todo entry of the new version, under the target's id.
    pub fn control(&mut self, event: &ControlEvent) -> (plan: ControlPlan<H>)
        requires
            old(self).wf(),
        ensures
            final(self).wf(),
            final(self).config_view() == old(self).config_view(),
            final(self).registry_view() == registry_after_control(
                old(self).registry_view(),
                event@,
            ),
            plan.stop_id@ == event.target_id@,
            plan.cancel == cancel_of(old(self).registry_view(), event@),
            plan.requeue is Some == requeue_of(event@) is Some,
            plan.requeue is Some ==> plan.requeue->0@ == requeue_of(event@)->0,
    {
        let cancel = self.registry.remove(&event.target_id);
        let requeue = match &event.action {
            ControlAction::Delete => None,
            ControlAction::Update(t) => {
                let next = Task {
                    id: event.target_id.clone(),
                    content: t.content.clone(),
                    schedule_type: t.schedule_type,
                    duration: t.duration,
                    slot: t.slot,
                };
                Some(encode_task(&next))
            },
        };
        ControlPlan { stop_id: event.target_id.clone(), cancel, requeue }
    }
}

/// A second delete of the same task has no effect beyond the first: it finds
/// no executor to cancel, requeues nothing, and leaves the registry and the
/// stored statuses as the first left them.
pub proof fn lemma_delete_twice<H>(
    reg: Map<Seq<char>, H>,
    store: Map<Seq<char>, Status>,
    id: Seq<char>,
)
    ensures
        ({
            let e = ControlEventView { target_id: id, action: ControlActionView::Delete };
            let after_first = registry_after_control(reg, e);
            &&& registry_after_control(after_first, e) == after_first
            &&& cancel_of(after_first, e) is None
            &&& requeue_of(e) is None
            &&& mark_stopped(mark_stopped(store, id), id) == mark_stopped(store, id)
        }),
{
    let e = ControlEventView { target_id: id, action: ControlActionView::Delete };
    let after_first = registry_after_control(reg, e);
    assert(after_first.remove(id) =~= after_first);
    if store.contains_key(id) {
        assert(store.insert(id, Status::Stopped).insert(id, Status::Stopped) =~= store.insert(
            id,
            Status::Stopped,
        ));
    }
}

/// An update replaces the executor of its task: the prior executor is
/// cancelled, and ends at its next boundary in any case, since the status it
/// reads there is stopped; the requeued entry decodes, on a later tick, to
/// the new version under the target's id; and installing it then supersedes
/// nothing, leaving exactly the one new handle for that id.
pub proof fn lemma_update_replaces<H>(
    reg: Map<Seq<char>, H>,
    target: Seq<char>,
    t: TaskView,
    prior: ExecModel,
    now: int,
    handle: H,
)
    requires
        wire_safe(target),
        wire_safe(t.content),
        t.duration > 0,
    ensures
        ({
            let e = ControlEventView { target_id: target, action: ControlActionView::Update(t) };
            let after = registry_after_control(reg, e);
            &&& cancel_of(reg, e) == (if reg.contains_key(target) {
                Some(reg[target])
            } else {
                None
            })
            &&& requeue_of(e) == Some(task_wire(replacement(target, t)))
            &&& task_of_wire(requeue_of(e)->0) == Some(replacement(target, t))
            &&& !after.contains_key(target)
            &&& after.insert(target, handle).dom() == after.dom().insert(target)
            &&& after.insert(target, handle)[target] == handle
            &&& forall|k: Seq<char>| k != target ==> (#[trigger] after.contains_key(k) <==> reg.contains_key(k))
        }),
        !prior.terminal && now >= due(prior) ==> step_model(prior, now, false).0.terminal
            && !step_model(prior, now, false).1,
{
    lemma_task_round_trip(replacement(target, t));
}

} // verus!
