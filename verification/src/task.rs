//! The life of one task: when it is polled, put back in a run queue,
//! registered to wait for its waker, or woken.

use crate::state::{flag_pollable, settle_effect, wake_effect, Flags, State};
use vstd::prelude::*;

verus! {

/// What to do with a task taken from a run queue.
#[derive(PartialEq, Eq, Structural, Clone, Copy, Debug)]
pub enum RunStart {
    /// The task was canceled: poll it one last time with a waker that does
    /// nothing, then drop it.
    LastRun,
    /// Poll the task with its own waker.
    Poll,
}

/// What a poll returned.
#[derive(PartialEq, Eq, Structural, Clone, Copy, Debug)]
pub enum PollOutcome {
    Ready,
    Pending,
}

/// What to do after a poll.
#[derive(PartialEq, Eq, Structural, Clone, Copy, Debug)]
pub enum AfterPoll {
    /// The task is over: tell a waiting `block_on` that its main task ended.
    Finish,
    /// The task is pending: under the registry's lock, clear its `pollable`
    /// flag and settle it by the flag's former value.
    Settle,
}

/// Where a pending task goes.
#[derive(PartialEq, Eq, Structural, Clone, Copy, Debug)]
pub enum Settle {
    /// It was woken while it ran (or is new): back into the run queue.
    Requeue,
    /// Into the registry, until its waker takes it out.
    Register,
}

/// What a waker does.
#[derive(PartialEq, Eq, Structural, Clone, Copy, Debug)]
pub enum WakeAction {
    /// It took the task out of the registry: push it to a run queue.
    Reschedule,
    /// The task was not registered (queued, running or over): set its
    /// `pollable` flag so that a pending poll puts it straight back.
    MarkPollable,
}

/// Where a woken task is pushed.
#[derive(PartialEq, Eq, Structural, Clone, Copy, Debug)]
pub enum WakeTarget {
    /// The local queue of the current thread, which owns the task.
    LocalQueue,
    /// The inbox of the thread that owns the task, which only that thread
    /// empties.
    Inbox,
    /// The current thread's own queue, from which other threads steal.
    ThreadQueue,
    /// The global executor's queue.
    Global,
}

/// Decides where a rescheduled task goes: a local task (one spawned with
/// `spawn_local`) back to its own thread, another one to the queue of the
/// current thread if it runs an executor, or else to the global queue.
pub fn wake_target(local: bool, on_owner: bool, runs_executor: bool) -> (target: WakeTarget)
    ensures
        local && on_owner ==> target == WakeTarget::LocalQueue,
        local && !on_owner ==> target == WakeTarget::Inbox,
        !local && runs_executor ==> target == WakeTarget::ThreadQueue,
        !local && !runs_executor ==> target == WakeTarget::Global,
        local <==> (target == WakeTarget::LocalQueue || target == WakeTarget::Inbox),
{
    if local {
        if on_owner {
            WakeTarget::LocalQueue
        } else {
            WakeTarget::Inbox
        }
    } else if runs_executor {
        WakeTarget::ThreadQueue
    } else {
        WakeTarget::Global
    }
}

/// Where a task is.
#[derive(PartialEq, Eq, Structural, Clone, Copy, Debug)]
pub enum Place {
    /// In a run queue.
    Queued,
    /// Being polled.
    Running,
    /// In the registry, waiting for its waker.
    Registered,
    /// Its future is over.
    Done,
}

/// A task as the executor sees it. `woken` records whether a waker fired
/// since its last poll began.
#[derive(PartialEq, Eq, Structural, Clone, Copy, Debug)]
pub struct TaskView {
    pub place: Place,
    pub pollable: bool,
    pub woken: bool,
}

/// The steps of a task: the executor polls it and settles it, and its
/// waker fires (from any thread, at any time). Settling a pending task
/// (clearing its `pollable` flag, then registering it if the flag was
/// clear) and a wake (taking it out of the registry, or else setting the
/// flag) each happen under the registry's lock, so each is one step.
#[derive(PartialEq, Eq, Structural, Clone, Copy, Debug)]
pub enum TaskEvent {
    PollBegin,
    PollReady,
    PollPending,
    Wake,
}

/// A new task waits in a run queue, with its `pollable` flag set.
pub open spec fn new_task() -> TaskView {
    TaskView { place: Place::Queued, pollable: true, woken: false }
}

/// Where a pending task goes, by the former value of its `pollable` flag.
pub open spec fn settle_place(was_pollable: bool) -> Place {
    if was_pollable {
        Place::Queued
    } else {
        Place::Registered
    }
}

/// Where a wake sends a task: a registered one back into a run queue; any
/// other one stays where it is.
pub open spec fn wake_place(place: Place) -> Place {
    if place == Place::Registered {
        Place::Queued
    } else {
        place
    }
}

/// One step of a task; `None` where the step cannot happen.
pub open spec fn task_step(t: TaskView, e: TaskEvent) -> Option<TaskView> {
    match e {
        TaskEvent::PollBegin => if t.place == Place::Queued {
            Some(TaskView { place: Place::Running, woken: false, ..t })
        } else {
            None
        },
        TaskEvent::PollReady => if t.place == Place::Running {
            Some(TaskView { place: Place::Done, ..t })
        } else {
            None
        },
        TaskEvent::PollPending => if t.place == Place::Running {
            Some(TaskView { place: settle_place(t.pollable), pollable: false, ..t })
        } else {
            None
        },
        TaskEvent::Wake => if t.place == Place::Registered {
            Some(TaskView { place: wake_place(t.place), woken: true, ..t })
        } else {
            Some(TaskView { pollable: true, woken: true, ..t })
        },
    }
}

/// The task after a sequence of steps; `None` if one of them cannot happen.
pub open spec fn run_task(t: TaskView, es: Seq<TaskEvent>) -> Option<TaskView>
    decreases es.len(),
{
    if es.len() == 0 {
        Some(t)
    } else {
        match task_step(t, es[0]) {
            Some(next) => run_task(next, es.drop_first()),
            None => None,
        }
    }
}

/// A wake is never lost: a task woken while it runs has its `pollable`
/// flag set, and no task waits in the registry for a wake that already
/// came.
pub open spec fn no_lost_wake(t: TaskView) -> bool {
    &&& (t.place == Place::Running && t.woken) ==> t.pollable
    &&& t.place == Place::Registered ==> !t.woken
}

/// Decides how to run the task `id`, taken from a run queue: a canceled
/// task only gets a last run.
pub fn run_start<T>(state: &State<T>, id: u64) -> (start: RunStart)
    ensures
        start == (if state.canceled(id) {
            RunStart::LastRun
        } else {
            RunStart::Poll
        }),
{
    if state.is_canceled(id) {
        RunStart::LastRun
    } else {
        RunStart::Poll
    }
}

/// Decides what follows a poll.
pub fn after_poll(outcome: PollOutcome) -> (next: AfterPoll)
    ensures
        next == (if outcome == PollOutcome::Ready {
            AfterPoll::Finish
        } else {
            AfterPoll::Settle
        }),
{
    match outcome {
        PollOutcome::Ready => AfterPoll::Finish,
        PollOutcome::Pending => AfterPoll::Settle,
    }
}

/// Settles a pending task by the former value of its `pollable` flag: the
/// task goes where `settle_place` says.
pub fn settle_pending(was_pollable: bool) -> (settle: Settle)
    ensures
        settle == (if was_pollable {
            Settle::Requeue
        } else {
            Settle::Register
        }),
        (settle == Settle::Requeue) <==> settle_place(was_pollable) == Place::Queued,
{
    if was_pollable {
        Settle::Requeue
    } else {
        Settle::Register
    }
}

/// Decides what a waker does, by whether it took its task out of the
/// registry.
pub fn on_wake(found_registered: bool) -> (action: WakeAction)
    ensures
        action == (if found_registered {
            WakeAction::Reschedule
        } else {
            WakeAction::MarkPollable
        }),
{
    if found_registered {
        WakeAction::Reschedule
    } else {
        WakeAction::MarkPollable
    }
}

/// Settles the pending task `id`: clears its `pollable` flag and, by the
/// flag's former value, hands the task back to be pushed to a run queue or
/// registers it until its waker fires. The caller holds the registry's
/// lock (`&mut State`), which a waker needs too, so the wake comes either
/// before (the task comes back) or after (the waker finds it registered).
pub fn settle<T>(state: &mut State<T>, id: u64, task: T) -> (requeue: Option<T>)
    ensures
        (final(state)@, final(state).flags(), requeue) == settle_effect(
            old(state)@,
            old(state).flags(),
            id,
            task,
        ),
        requeue is Some <==> old(state).pollable(id),
        !final(state).pollable(id),
        requeue is None ==> final(state)@ == old(state)@.insert(id, task),
        requeue is Some ==> final(state)@ == old(state)@,
        final(state).canceled(id) == old(state).canceled(id),
        final(state).live(id) == old(state).live(id),
{
    let was_pollable = state.take_pollable(id);
    match settle_pending(was_pollable) {
        Settle::Requeue => Some(task),
        Settle::Register => {
            state.register_future(id, task);
            None
        },
    }
}

/// The waker of task `id` fires: it takes the task out of the registry if
/// it waits there, to be pushed to a run queue; otherwise it sets the live
/// task's `pollable` flag, so that a pending poll puts the task straight
/// back.
pub fn wake<T>(state: &mut State<T>, id: u64) -> (rescheduled: Option<T>)
    ensures
        (final(state)@, final(state).flags(), rescheduled) == wake_effect(
            old(state)@,
            old(state).flags(),
            id,
        ),
        !old(state)@.contains_key(id) && old(state).live(id) ==> final(state).pollable(id),
        final(state)@ == old(state)@.remove(id),
        final(state).canceled(id) == old(state).canceled(id),
        final(state).live(id) == old(state).live(id),
        old(state)@.contains_key(id) ==> final(state).flags() == old(state).flags(),
{
    let found = state.deregister_future(id);
    match on_wake(found.is_some()) {
        WakeAction::Reschedule => found,
        WakeAction::MarkPollable => {
            state.mark_pollable(id);
            found
        },
    }
}

/// The model of the task `id` agrees with the registry: it is registered
/// exactly when the model says so, and its `pollable` flag is the model's.
pub open spec fn agrees<T>(t: TaskView, tasks: Map<u64, T>, f: Map<u64, Flags>, id: u64) -> bool {
    &&& f.contains_key(id)
    &&& (t.place == Place::Registered) == tasks.contains_key(id)
    &&& t.pollable == flag_pollable(f, id)
}

/// `settle` does what the model's pending poll does: the task comes back
/// exactly when the model puts it in a run queue.
pub proof fn lemma_settle_refines<T>(
    t: TaskView,
    tasks: Map<u64, T>,
    f: Map<u64, Flags>,
    id: u64,
    task: T,
)
    requires
        agrees(t, tasks, f, id),
        t.place == Place::Running,
    ensures
        task_step(t, TaskEvent::PollPending) is Some,
        agrees(
            task_step(t, TaskEvent::PollPending).unwrap(),
            settle_effect(tasks, f, id, task).0,
            settle_effect(tasks, f, id, task).1,
            id,
        ),
        settle_effect(tasks, f, id, task).2 is Some <==> task_step(
            t,
            TaskEvent::PollPending,
        ).unwrap().place == Place::Queued,
{
}

/// `wake` does what the model's wake does: it takes the task out exactly
/// when the model moves it from the registry to a run queue.
pub proof fn lemma_wake_refines<T>(t: TaskView, tasks: Map<u64, T>, f: Map<u64, Flags>, id: u64)
    requires
        agrees(t, tasks, f, id),
        t.place != Place::Done,
    ensures
        task_step(t, TaskEvent::Wake) is Some,
        agrees(
            task_step(t, TaskEvent::Wake).unwrap(),
            wake_effect(tasks, f, id).0,
            wake_effect(tasks, f, id).1,
            id,
        ),
        wake_effect(tasks, f, id).2 is Some <==> t.place == Place::Registered,
{
}

/// Every step keeps wakes from being lost.
pub proof fn lemma_step_keeps_no_lost_wake(t: TaskView, e: TaskEvent)
    requires
        no_lost_wake(t),
        task_step(t, e) is Some,
    ensures
        no_lost_wake(task_step(t, e).unwrap()),
{
}

/// No wake is lost over any run of a task, whenever its waker fires: a
/// task that waits in the registry has not been woken since its last poll
/// began, and a task woken while it ran goes straight back to a run queue.
pub proof fn lemma_no_lost_wake(t: TaskView, es: Seq<TaskEvent>)
    requires
        no_lost_wake(t),
        run_task(t, es) is Some,
    ensures
        no_lost_wake(run_task(t, es).unwrap()),
        run_task(t, es).unwrap().place == Place::Registered ==> !run_task(t, es).unwrap().woken,
    decreases es.len(),
{
    if es.len() > 0 {
        lemma_step_keeps_no_lost_wake(t, es[0]);
        lemma_no_lost_wake(task_step(t, es[0]).unwrap(), es.drop_first());
    }
}

/// A new task satisfies the invariant.
pub proof fn lemma_new_task_no_lost_wake()
    ensures
        no_lost_wake(new_task()),
{
}

/// A waker that fires while the task is being polled is not lost: the
/// pending poll puts the task straight back into a run queue.
pub proof fn lemma_wake_while_running_requeues()
    ensures
        ({
            let es = seq![
                TaskEvent::PollBegin,
                TaskEvent::PollPending,
                TaskEvent::PollBegin,
                TaskEvent::Wake,
                TaskEvent::PollPending,
            ];
            &&& run_task(new_task(), es) is Some
            &&& run_task(new_task(), es).unwrap().place == Place::Queued
        }),
{
    let es = seq![
        TaskEvent::PollBegin,
        TaskEvent::PollPending,
        TaskEvent::PollBegin,
        TaskEvent::Wake,
        TaskEvent::PollPending,
    ];
    reveal_with_fuel(run_task, 6);
    assert(es.drop_first() =~= seq![
        TaskEvent::PollPending,
        TaskEvent::PollBegin,
        TaskEvent::Wake,
        TaskEvent::PollPending,
    ]);
    assert(es.drop_first().drop_first() =~= seq![
        TaskEvent::PollBegin,
        TaskEvent::Wake,
        TaskEvent::PollPending,
    ]);
    assert(es.drop_first().drop_first().drop_first() =~= seq![
        TaskEvent::Wake,
        TaskEvent::PollPending,
    ]);
    assert(es.drop_first().drop_first().drop_first().drop_first() =~= seq![
        TaskEvent::PollPending,
    ]);
    assert(es.drop_first().drop_first().drop_first().drop_first().drop_first()
        =~= Seq::<TaskEvent>::empty());
}

/// A task registered after a pending poll is put back into a run queue by
/// its next wake.
pub proof fn lemma_wake_reschedules_registered(t: TaskView)
    requires
        t.place == Place::Registered,
    ensures
        task_step(t, TaskEvent::Wake) == Some(
            TaskView { place: Place::Queued, pollable: t.pollable, woken: true },
        ),
{
}

/// A task pending on its first poll goes straight back into the run queue,
/// since a new task's `pollable` flag is set.
pub proof fn lemma_first_pending_poll_requeues()
    ensures
        run_task(new_task(), seq![TaskEvent::PollBegin, TaskEvent::PollPending]) == Some(
            TaskView { place: Place::Queued, pollable: false, woken: false },
        ),
{
    let es = seq![TaskEvent::PollBegin, TaskEvent::PollPending];
    reveal_with_fuel(run_task, 3);
    assert(es.drop_first() =~= seq![TaskEvent::PollPending]);
    assert(es.drop_first().drop_first() =~= Seq::<TaskEvent>::empty());
}

/// A second wake schedules nothing more: a task woken twice is in one place,
/// as after one wake.
pub proof fn lemma_wake_twice_schedules_once(t: TaskView)
    ensures
        task_step(task_step(t, TaskEvent::Wake).unwrap(), TaskEvent::Wake).unwrap().place
            == task_step(t, TaskEvent::Wake).unwrap().place,
{
}

/// A finished task is never polled again, and wakes that come after its
/// end schedule nothing.
pub proof fn lemma_done_is_final(t: TaskView, e: TaskEvent)
    requires
        t.place == Place::Done,
    ensures
        e != TaskEvent::Wake ==> task_step(t, e) is None,
        e == TaskEvent::Wake ==> task_step(t, e).unwrap().place == Place::Done,
{
}

} // verus!
