//! The registry of an executor's tasks: the tasks that returned `Pending`
//! and wait for their waker, and the flags of every live task.

use std::collections::HashMap;
use vstd::prelude::*;

verus! {

broadcast use vstd::std_specs::hash::group_hash_axioms;

/// The flags of a live task. `pollable`: the task was woken while it was
/// not registered (or is new), so a pending poll puts it straight back into
/// a run queue. `canceled`: its join handle canceled it, so it only gets a
/// last run.
#[derive(PartialEq, Eq, Structural, Clone, Copy, Debug)]
pub struct Flags {
    pub pollable: bool,
    pub canceled: bool,
}

/// Whether the flags `f` mark the task `id` pollable.
pub open spec fn flag_pollable(f: Map<u64, Flags>, id: u64) -> bool {
    f.contains_key(id) && f[id].pollable
}

/// Whether the flags `f` mark the task `id` canceled.
pub open spec fn flag_canceled(f: Map<u64, Flags>, id: u64) -> bool {
    f.contains_key(id) && f[id].canceled
}

/// The flags `f` with the `pollable` flag of the live task `id` set to `p`.
pub open spec fn with_pollable(f: Map<u64, Flags>, id: u64, p: bool) -> Map<u64, Flags> {
    if f.contains_key(id) {
        f.insert(id, Flags { pollable: p, canceled: f[id].canceled })
    } else {
        f
    }
}

/// The flags `f` with the live task `id` marked canceled.
pub open spec fn with_canceled(f: Map<u64, Flags>, id: u64) -> Map<u64, Flags> {
    if f.contains_key(id) {
        f.insert(id, Flags { pollable: f[id].pollable, canceled: true })
    } else {
        f
    }
}

/// Settling the pending task `id`: its `pollable` flag is cleared; the
/// task comes back (to be pushed to a run queue) if the flag was set, and
/// is registered otherwise. Registered tasks, flags, task handed back.
pub open spec fn settle_effect<T>(tasks: Map<u64, T>, f: Map<u64, Flags>, id: u64, task: T) -> (
    Map<u64, T>,
    Map<u64, Flags>,
    Option<T>,
) {
    if flag_pollable(f, id) {
        (tasks, with_pollable(f, id, false), Some(task))
    } else {
        (tasks.insert(id, task), with_pollable(f, id, false), None)
    }
}

/// The waker of task `id` fires: a registered task is taken out (to be
/// pushed to a run queue); otherwise the `pollable` flag of the live task
/// is set. Registered tasks, flags, task taken out.
pub open spec fn wake_effect<T>(tasks: Map<u64, T>, f: Map<u64, Flags>, id: u64) -> (
    Map<u64, T>,
    Map<u64, Flags>,
    Option<T>,
) {
    if tasks.contains_key(id) {
        (tasks.remove(id), f, Some(tasks[id]))
    } else {
        (tasks, with_pollable(f, id, true), None)
    }
}

/// Canceling the task `id`: a registered task is dropped, with its flags;
/// any other live task is marked canceled. Registered tasks, flags.
pub open spec fn cancel_effect<T>(tasks: Map<u64, T>, f: Map<u64, Flags>, id: u64) -> (
    Map<u64, T>,
    Map<u64, Flags>,
) {
    if tasks.contains_key(id) {
        (tasks.remove(id), f.remove(id))
    } else {
        (tasks, with_canceled(f, id))
    }
}

/// The registry of an executor: by task id, every task that waits to be
/// woken, and the flags of every live task. Every access to it holds its
/// lock, so each method is one step for the tasks and their wakers.
pub struct State<T> {
    tasks: HashMap<u64, T>,
    flags: HashMap<u64, Flags>,
}

impl<T> View for State<T> {
    type V = Map<u64, T>;

    closed spec fn view(&self) -> Map<u64, T> {
        self.tasks@
    }
}

impl<T> State<T> {
    /// The flags of the live tasks.
    pub closed spec fn flags(&self) -> Map<u64, Flags> {
        self.flags@
    }

    /// Whether the task `id` is live: spawned and not over.
    pub open spec fn live(&self, id: u64) -> bool {
        self.flags().contains_key(id)
    }

    /// Whether the task `id` is marked pollable.
    pub open spec fn pollable(&self, id: u64) -> bool {
        flag_pollable(self.flags(), id)
    }

    /// Whether the task `id` is marked canceled.
    pub open spec fn canceled(&self, id: u64) -> bool {
        flag_canceled(self.flags(), id)
    }

    /// An empty registry.
    pub fn new() -> (state: Self)
        ensures
            state@ == Map::<u64, T>::empty(),
            state.flags() == Map::<u64, Flags>::empty(),
    {
        State { tasks: HashMap::new(), flags: HashMap::new() }
    }

    /// A task spawned under `id` becomes live, pollable and not canceled.
    pub fn begin_task(&mut self, id: u64)
        ensures
            final(self)@ == old(self)@,
            final(self).flags() == old(self).flags().insert(
                id,
                Flags { pollable: true, canceled: false },
            ),
    {
        self.flags.insert(id, Flags { pollable: true, canceled: false });
    }

    /// The task `id` is over (it finished or had its last run): its flags
    /// are forgotten.
    pub fn end_task(&mut self, id: u64)
        ensures
            final(self)@ == old(self)@,
            final(self).flags() == old(self).flags().remove(id),
    {
        self.flags.remove(&id);
    }

    /// Sets the `pollable` flag of the live task `id` to `p`.
    fn set_pollable(&mut self, id: u64, p: bool)
        ensures
            final(self)@ == old(self)@,
            final(self).flags() == with_pollable(old(self).flags(), id, p),
    {
        let current = self.flags.get(&id);
        match current {
            Some(f) => {
                let canceled = f.canceled;
                self.flags.insert(id, Flags { pollable: p, canceled });
            },
            None => {},
        }
    }

    /// Reads and clears the `pollable` flag of the task `id`.
    pub fn take_pollable(&mut self, id: u64) -> (was: bool)
        ensures
            was == old(self).pollable(id),
            final(self)@ == old(self)@,
            final(self).flags() == with_pollable(old(self).flags(), id, false),
    {
        let was = match self.flags.get(&id) {
            Some(f) => f.pollable,
            None => false,
        };
        self.set_pollable(id, false);
        was
    }

    /// Sets the `pollable` flag of the live task `id`.
    pub fn mark_pollable(&mut self, id: u64)
        ensures
            final(self)@ == old(self)@,
            final(self).flags() == with_pollable(old(self).flags(), id, true),
    {
        self.set_pollable(id, true);
    }

    /// Whether the task `id` is marked canceled.
    pub fn is_canceled(&self, id: u64) -> (canceled: bool)
        ensures
            canceled == self.canceled(id),
    {
        match self.flags.get(&id) {
            Some(f) => f.canceled,
            None => false,
        }
    }

    /// Whether the task `id` is live.
    pub fn is_live(&self, id: u64) -> (live: bool)
        ensures
            live == self.live(id),
    {
        self.flags.contains_key(&id)
    }

    /// Parks `future` under `id` until its waker fires; a task already
    /// registered under the same id is dropped.
    pub fn register_future(&mut self, id: u64, future: T)
        ensures
            final(self)@ == old(self)@.insert(id, future),
            final(self).flags() == old(self).flags(),
    {
        let _replaced = self.tasks.insert(id, future);
    }

    /// Takes the task registered under `id` out of the registry, if any.
    pub fn deregister_future(&mut self, id: u64) -> (future: Option<T>)
        ensures
            final(self)@ == old(self)@.remove(id),
            final(self).flags() == old(self).flags(),
            future == (if old(self)@.contains_key(id) {
                Some(old(self)@[id])
            } else {
                None
            }),
    {
        self.tasks.remove(&id)
    }

    /// Cancels the task `id`: a pending task is dropped with its flags;
    /// a task that is queued or running is marked canceled, so that it only
    /// gets a last run; nothing happens for a task that is over.
    pub fn cancel(&mut self, id: u64)
        ensures
            (final(self)@, final(self).flags()) == cancel_effect(old(self)@, old(self).flags(), id),
            final(self)@ == old(self)@.remove(id),
    {
        match self.tasks.remove(&id) {
            Some(_dropped) => {
                self.flags.remove(&id);
            },
            None => {
                let current = self.flags.get(&id);
                match current {
                    Some(f) => {
                        let pollable = f.pollable;
                        self.flags.insert(id, Flags { pollable, canceled: true });
                    },
                    None => {},
                }
            },
        }
    }

    /// Whether a task is registered under `id`.
    pub fn is_registered(&self, id: u64) -> (registered: bool)
        ensures
            registered == self@.contains_key(id),
    {
        self.tasks.contains_key(&id)
    }

    /// The number of registered tasks.
    pub fn len(&self) -> (n: usize)
        ensures
            n == self@.len(),
    {
        self.tasks.len()
    }
}

impl<T> Default for State<T> {
    fn default() -> (state: Self)
        ensures
            state@ == Map::<u64, T>::empty(),
            state.flags() == Map::<u64, Flags>::empty(),
    {
        State::new()
    }
}

/// A task registered under `id` is exactly what the waker for `id` takes
/// back out, and taking it out leaves the other registrations as they were.
pub proof fn lemma_register_then_deregister<T>(m: Map<u64, T>, id: u64, future: T)
    ensures
        m.insert(id, future).contains_key(id),
        m.insert(id, future)[id] == future,
        m.insert(id, future).remove(id) == m.remove(id),
{
    assert(m.insert(id, future).remove(id) =~= m.remove(id));
}

/// Registrations, wakes and cancels of different tasks do not interfere:
/// removing one id leaves the registration of another in place.
pub proof fn lemma_independent_ids<T>(m: Map<u64, T>, id: u64, other: u64, future: T)
    requires
        id != other,
    ensures
        m.insert(other, future).remove(id) == m.remove(id).insert(other, future),
        m.remove(id).contains_key(other) == m.contains_key(other),
{
    assert(m.insert(other, future).remove(id) =~= m.remove(id).insert(other, future));
}

/// What a wake does, over all registries: it takes out exactly the task
/// `id` if it is registered and hands it back, leaves every other
/// registration and every other task's flags as they were, never changes
/// which tasks are live or canceled, leaves the flags of a registered task
/// alone, and marks a live task that is not registered pollable.
pub proof fn lemma_wake_changes_only_its_task<T>(tasks: Map<u64, T>, f: Map<u64, Flags>, id: u64)
    ensures
        wake_effect(tasks, f, id).0 == tasks.remove(id),
        wake_effect(tasks, f, id).2 == (if tasks.contains_key(id) {
            Some(tasks[id])
        } else {
            None
        }),
        wake_effect(tasks, f, id).1.dom() == f.dom(),
        flag_canceled(wake_effect(tasks, f, id).1, id) == flag_canceled(f, id),
        forall|o: u64| o != id && f.contains_key(o) ==> #[trigger] wake_effect(tasks, f, id).1[o] == f[o],
        tasks.contains_key(id) ==> wake_effect(tasks, f, id).1 == f,
        !tasks.contains_key(id) && f.contains_key(id) ==> flag_pollable(wake_effect(tasks, f, id).1, id),
{
    assert(wake_effect(tasks, f, id).1.dom() =~= f.dom());
}

/// What settling a pending task does, over all registries: the task comes
/// back exactly when its `pollable` flag was set, and is registered under
/// `id` otherwise; afterwards the flag is clear; every other registration
/// and every other task's flags stay as they were, and which tasks are live
/// or canceled does not change.
pub proof fn lemma_settle_changes_only_its_task<T>(
    tasks: Map<u64, T>,
    f: Map<u64, Flags>,
    id: u64,
    task: T,
)
    ensures
        settle_effect(tasks, f, id, task).2 is Some <==> flag_pollable(f, id),
        settle_effect(tasks, f, id, task).2 is Some ==> settle_effect(tasks, f, id, task).2
            == Some(task) && settle_effect(tasks, f, id, task).0 == tasks,
        settle_effect(tasks, f, id, task).2 is None ==> settle_effect(tasks, f, id, task).0
            == tasks.insert(id, task),
        !flag_pollable(settle_effect(tasks, f, id, task).1, id),
        settle_effect(tasks, f, id, task).1.dom() == f.dom(),
        flag_canceled(settle_effect(tasks, f, id, task).1, id) == flag_canceled(f, id),
        forall|o: u64|
            o != id && f.contains_key(o) ==> #[trigger] settle_effect(tasks, f, id, task).1[o]
                == f[o],
{
    assert(settle_effect(tasks, f, id, task).1.dom() =~= f.dom());
}

/// What a cancel does, over all registries: it takes out exactly the task
/// `id` and leaves every other registration and every other task's flags
/// as they were; a registered task is dropped with its flags, and a live
/// task that is not registered stays live, keeps its `pollable` flag and
/// is marked canceled.
pub proof fn lemma_cancel_changes_only_its_task<T>(tasks: Map<u64, T>, f: Map<u64, Flags>, id: u64)
    ensures
        cancel_effect(tasks, f, id).0 == tasks.remove(id),
        forall|o: u64| o != id && f.contains_key(o) ==> #[trigger] cancel_effect(tasks, f, id).1[o] == f[o]
            && cancel_effect(tasks, f, id).1.contains_key(o),
        forall|o: u64| o != id ==> (cancel_effect(tasks, f, id).1.contains_key(o) <==> f.contains_key(o)),
        tasks.contains_key(id) ==> !cancel_effect(tasks, f, id).1.contains_key(id),
        !tasks.contains_key(id) ==> (cancel_effect(tasks, f, id).1.contains_key(id) <==> f.contains_key(id))
            && flag_canceled(cancel_effect(tasks, f, id).1, id) == f.contains_key(id)
            && flag_pollable(cancel_effect(tasks, f, id).1, id) == flag_pollable(f, id),
{
    assert(cancel_effect(tasks, f, id).0 =~= tasks.remove(id));
}

/// No wake is lost. A live task that is being polled (so not registered)
/// and whose waker fires: whether the wake comes before the pending poll
/// settles the task or after, the task comes back exactly once (from the
/// settle or from the wake) and ends up outside the registry.
pub proof fn lemma_no_lost_wake<T>(tasks: Map<u64, T>, f: Map<u64, Flags>, id: u64, task: T)
    requires
        !tasks.contains_key(id),
        f.contains_key(id),
    ensures
        ({
            let (t1, f1, r1) = wake_effect(tasks, f, id);
            let (t2, f2, r2) = settle_effect(t1, f1, id, task);
            r1 is None && r2 == Some(task) && !t2.contains_key(id)
        }),
        ({
            let (t1, f1, r1) = settle_effect(tasks, f, id, task);
            let (t2, f2, r2) = wake_effect(t1, f1, id);
            &&& (r1 == Some(task) && r2 is None) || (r1 is None && r2 == Some(task))
            &&& !t2.contains_key(id)
        }),
{
}

/// A second pending poll with no wake since the first registers the task:
/// settling clears the `pollable` flag.
pub proof fn lemma_second_pending_poll_registers<T>(
    tasks: Map<u64, T>,
    f: Map<u64, Flags>,
    id: u64,
    task: T,
)
    requires
        !tasks.contains_key(id),
        f.contains_key(id),
    ensures
        ({
            let (t1, f1, r1) = settle_effect(tasks, f, id, task);
            let (t2, f2, r2) = settle_effect(t1, f1, id, task);
            r2 is None && t2.contains_key(id) && t2[id] == task && !flag_pollable(f2, id)
        }),
{
}

/// A cancel sticks: a live task that is not registered is marked
/// canceled, and neither settling nor waking it clears the mark; a
/// registered task is dropped, and its waker then finds nothing.
pub proof fn lemma_cancel_sticks<T>(tasks: Map<u64, T>, f: Map<u64, Flags>, id: u64, task: T)
    requires
        f.contains_key(id),
    ensures
        !tasks.contains_key(id) ==> flag_canceled(cancel_effect(tasks, f, id).1, id),
        flag_canceled(f, id) ==> flag_canceled(settle_effect(tasks, f, id, task).1, id),
        flag_canceled(f, id) ==> flag_canceled(wake_effect(tasks, f, id).1, id),
        tasks.contains_key(id) ==> !cancel_effect(tasks, f, id).0.contains_key(id)
            && !cancel_effect(tasks, f, id).1.contains_key(id) && wake_effect(
            cancel_effect(tasks, f, id).0,
            cancel_effect(tasks, f, id).1,
            id,
        ).2 is None,
{
}

} // verus!
