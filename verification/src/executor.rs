//! The decisions of `block_on`: which queue to take the next task from,
//! when to look at the main task's result, when to steal and when to park.

use crate::threads::{
    count_of, counts_positive, deregister_spec, keys_distinct, lemma_register_then_deregister,
    register_spec, ThreadEntry,
};
use crossbeam_utils::sync::Unparker;
use vstd::prelude::*;

verus! {

/// Where the loop of a `block_on` stands.
#[derive(PartialEq, Eq, Structural, Clone, Copy, Debug)]
pub enum Stage {
    /// Nothing has happened yet.
    Start,
    /// The thread is registered and the main task spawned and run once; its
    /// result was polled.
    AwaitSetup,
    /// A task is taken from the local queue.
    PopLocal,
    /// A task is taken from the thread's own stealable queue.
    PopWorker,
    /// A task is stolen from the global executor to go on with the loop.
    StealForNext,
    /// A task runs.
    Running,
    /// No task is at hand: has the main task ended?
    CheckExit,
    /// The main task ended: its result is polled.
    PollResult,
    /// Are both of the thread's queues empty?
    CheckQueues,
    /// Both queues are empty: one last steal before parking.
    StealIdle,
    /// The thread is parked.
    Parked,
    /// The main task's result was returned.
    Finished,
}

/// What the caller of `block_on` observed.
pub enum Event<R> {
    /// The loop begins.
    Begin,
    /// The result of the main task was polled: `Some` once it is there.
    Polled(Option<R>),
    /// A queue, or a steal, gave a task (`true`) or none.
    Found(bool),
    /// The task handed out ran.
    Ran,
    /// Whether the main task has ended.
    Exited(bool),
    /// Whether both of the thread's queues are empty.
    Empty(bool),
    /// The thread was unparked.
    Unparked,
}

/// What the caller of `block_on` does next.
pub enum Action<R> {
    /// Register the thread with the global executor, spawn the main task and
    /// run it once, then poll its result.
    Setup,
    /// Take a task from the local queue: the thread's own tasks, including
    /// those that other threads handed back to it.
    PopLocal,
    /// Take a task from the thread's own stealable queue.
    PopWorker,
    /// Steal a task from the global executor and the other threads.
    StealGlobal,
    /// Run the task just taken; `local` for a task of the local queue.
    Run { local: bool },
    /// Read whether the main task has ended.
    LoadExited,
    /// Poll the main task's result.
    PollReceiver,
    /// Check whether the thread's local and stealable queues are empty.
    CheckQueuesEmpty,
    /// Park the thread until something unparks it.
    Park,
    /// Deregister the thread, wake another one, and return this result.
    Return(R),
    /// The event does not fit where the loop stands: nothing to do.
    Ignore,
}

/// One step of the loop of `block_on`: from where it stands and what was
/// observed, where it goes and what the caller does.
pub open spec fn step<R>(s: Stage, e: Event<R>) -> (Stage, Action<R>) {
    match (s, e) {
        (Stage::Start, Event::Begin) => (Stage::AwaitSetup, Action::Setup),
        (Stage::AwaitSetup, Event::Polled(Some(r))) => (Stage::Finished, Action::Return(r)),
        (Stage::AwaitSetup, Event::Polled(None)) => (Stage::PopLocal, Action::PopLocal),
        (Stage::PopLocal, Event::Found(true)) => (Stage::Running, Action::Run { local: true }),
        (Stage::PopLocal, Event::Found(false)) => (Stage::PopWorker, Action::PopWorker),
        (Stage::PopWorker, Event::Found(true)) => (Stage::Running, Action::Run { local: false }),
        (Stage::PopWorker, Event::Found(false)) => (Stage::StealForNext, Action::StealGlobal),
        (Stage::StealForNext, Event::Found(true)) => (
            Stage::Running,
            Action::Run { local: false },
        ),
        (Stage::StealForNext, Event::Found(false)) => (Stage::CheckExit, Action::LoadExited),
        (Stage::Running, Event::Ran) => (Stage::PopLocal, Action::PopLocal),
        (Stage::CheckExit, Event::Exited(true)) => (Stage::PollResult, Action::PollReceiver),
        (Stage::CheckExit, Event::Exited(false)) => (Stage::CheckQueues, Action::CheckQueuesEmpty),
        (Stage::PollResult, Event::Polled(Some(r))) => (Stage::Finished, Action::Return(r)),
        (Stage::PollResult, Event::Polled(None)) => (Stage::CheckQueues, Action::CheckQueuesEmpty),
        (Stage::CheckQueues, Event::Empty(true)) => (Stage::StealIdle, Action::StealGlobal),
        (Stage::CheckQueues, Event::Empty(false)) => (Stage::PopLocal, Action::PopLocal),
        (Stage::StealIdle, Event::Found(true)) => (Stage::Running, Action::Run { local: false }),
        (Stage::StealIdle, Event::Found(false)) => (Stage::Parked, Action::Park),
        (Stage::Parked, Event::Unparked) => (Stage::PopLocal, Action::PopLocal),
        (s, _) => (s, Action::Ignore),
    }
}

/// The stages and actions of the loop over a sequence of events.
pub open spec fn drive<R>(s: Stage, es: Seq<Event<R>>) -> (Stage, Seq<Action<R>>)
    decreases es.len(),
{
    if es.len() == 0 {
        (s, Seq::empty())
    } else {
        let (next, a) = step(s, es[0]);
        let (last, rest) = drive(next, es.drop_first());
        (last, seq![a] + rest)
    }
}

/// `block_on` returns only a result that the main task's receiver gave,
/// right when it gave it: at setup or after the main task ended.
pub proof fn lemma_return_carries_polled_result<R>(s: Stage, e: Event<R>)
    ensures
        step(s, e).1 matches Action::Return(r) ==> e == Event::Polled(Some(r)) && (s
            == Stage::AwaitSetup || s == Stage::PollResult),
{
}

/// Once `block_on` has returned, the loop does nothing more, whatever
/// happens.
pub proof fn lemma_finished_is_final<R>(es: Seq<Event<R>>)
    ensures
        drive(Stage::Finished, es).0 == Stage::Finished,
        drive(Stage::Finished, es).1.len() == es.len(),
        forall|i: int|
            0 <= i < es.len() ==> #[trigger] drive(Stage::Finished, es).1[i] is Ignore,
    decreases es.len(),
{
    if es.len() > 0 {
        lemma_finished_is_final(es.drop_first());
        let rest = drive(Stage::Finished, es.drop_first()).1;
        assert forall|i: int| 0 <= i < es.len() implies #[trigger] drive(
            Stage::Finished,
            es,
        ).1[i] is Ignore by {
            if i > 0 {
                assert(drive(Stage::Finished, es).1[i] == rest[i - 1]);
            }
        }
    }
}

/// Over any sequence of events, the loop hands out one action per event,
/// returns at most once, and does nothing after it has returned.
pub proof fn lemma_returns_at_most_once<R>(s: Stage, es: Seq<Event<R>>)
    ensures
        drive(s, es).1.len() == es.len(),
        forall|i: int, j: int|
            #![trigger drive(s, es).1[i], drive(s, es).1[j]]
            0 <= i < j < es.len() && drive(s, es).1[i] is Return ==> drive(s, es).1[j] is Ignore,
    decreases es.len(),
{
    if es.len() > 0 {
        let (next, a) = step(s, es[0]);
        lemma_returns_at_most_once(next, es.drop_first());
        let acts = drive(s, es).1;
        let rest = drive(next, es.drop_first()).1;
        assert(acts =~= seq![a] + rest);
        if a is Return {
            assert(next == Stage::Finished);
            lemma_finished_is_final(es.drop_first());
        }
        assert forall|i: int, j: int|
            #![trigger acts[i], acts[j]]
            0 <= i < j < es.len() && acts[i] is Return implies acts[j] is Ignore by {
            assert(acts[j] == rest[j - 1]);
            if i > 0 {
                assert(acts[i] == rest[i - 1]);
            } else {
                assert(rest[j - 1] is Ignore);
            }
        }
    }
}

/// The thread parks only when both of its queues were found empty and a
/// last steal found nothing.
pub proof fn lemma_parks_only_when_idle<R>(s: Stage, e: Event<R>)
    ensures
        step(s, e).1 is Park ==> s == Stage::StealIdle && e == Event::<R>::Found(false),
        step(s, e).0 == Stage::StealIdle && s != Stage::StealIdle ==> s == Stage::CheckQueues
            && e == Event::<R>::Empty(true),
{
}

/// The next task comes from the local queue first, then from the thread's
/// own queue, then from a steal.
pub proof fn lemma_local_queue_first<R>(s: Stage, e: Event<R>)
    ensures
        step(s, e).1 == (Action::<R>::Run { local: true }) ==> s == Stage::PopLocal && e
            == Event::<R>::Found(true),
        step(s, e).1 is PopWorker ==> s == Stage::PopLocal && e == Event::<R>::Found(false),
        step(s, e).0 == Stage::StealForNext && s != Stage::StealForNext ==> s == Stage::PopWorker
            && e == Event::<R>::Found(false),
        step(s, e).1 is StealGlobal ==> (s == Stage::PopWorker && e == Event::<R>::Found(false))
            || (s == Stage::CheckQueues && e == Event::<R>::Empty(true)),
{
}

/// Whether an action asks the caller for a task: from the local queue, the
/// thread's own queue, or a steal.
pub open spec fn asks_for_task<R>(a: Action<R>) -> bool {
    a is PopLocal || a is PopWorker || a is StealGlobal
}

/// Every task handed to the loop is run: when a queue or a steal gives a
/// task, the loop's next action is to run it, as a local task exactly when
/// it came from the local queue.
pub proof fn lemma_found_task_is_run<R>(s: Stage, e: Event<R>)
    ensures
        s == Stage::PopLocal && e == Event::<R>::Found(true) ==> step(s, e) == (
            Stage::Running,
            Action::<R>::Run { local: true },
        ),
        (s == Stage::PopWorker || s == Stage::StealForNext || s == Stage::StealIdle) && e
            == Event::<R>::Found(true) ==> step(s, e) == (
            Stage::Running,
            Action::<R>::Run { local: false },
        ),
        step(s, e).1 is PopLocal ==> step(s, e).0 == Stage::PopLocal,
        step(s, e).1 is PopWorker ==> step(s, e).0 == Stage::PopWorker,
        step(s, e).1 is StealGlobal ==> step(s, e).0 == Stage::StealForNext || step(s, e).0
            == Stage::StealIdle,
{
}

/// Over any sequence of events: whenever the loop asked for a task and the
/// next event hands one over, the next action runs that task, as a local
/// task exactly when it was asked from the local queue.
pub proof fn lemma_every_found_task_runs<R>(s: Stage, es: Seq<Event<R>>)
    ensures
        forall|i: int|
            #![trigger drive(s, es).1[i]]
            1 <= i < es.len() && asks_for_task(drive(s, es).1[i - 1]) && es[i]
                == Event::<R>::Found(true) ==> drive(s, es).1[i] == (Action::<R>::Run {
                local: drive(s, es).1[i - 1] is PopLocal,
            }),
    decreases es.len(),
{
    if es.len() > 0 {
        let (next, a) = step(s, es[0]);
        let acts = drive(s, es).1;
        let rest = drive(next, es.drop_first()).1;
        assert(acts =~= seq![a] + rest);
        lemma_every_found_task_runs(next, es.drop_first());
        lemma_returns_at_most_once(next, es.drop_first());
        assert forall|i: int|
            #![trigger drive(s, es).1[i]]
            1 <= i < es.len() && asks_for_task(drive(s, es).1[i - 1]) && es[i]
                == Event::<R>::Found(true) implies drive(s, es).1[i] == (Action::<R>::Run {
            local: drive(s, es).1[i - 1] is PopLocal,
        }) by {
            assert(acts[i] == rest[i - 1]);
            assert(es[i] == es.drop_first()[i - 1]);
            if i == 1 {
                lemma_found_task_is_run(s, es[0]);
                let e1 = es.drop_first()[0];
                assert(rest == seq![step(next, e1).1] + drive(
                    step(next, e1).0,
                    es.drop_first().drop_first(),
                ).1);
                assert(rest[0] == step(next, e1).1);
                lemma_found_task_is_run(next, e1);
            } else {
                assert(acts[i - 1] == rest[i - 2]);
            }
        }
    }
}

/// Past setup, the main task's result is polled only once the main task
/// has ended.
pub proof fn lemma_result_polled_after_exit<R>(s: Stage, e: Event<R>)
    ensures
        step(s, e).1 is PollReceiver ==> s == Stage::CheckExit && e == Event::<R>::Exited(true),
{
}

/// Setup happens once: only from the start, and the loop never goes back
/// there.
pub proof fn lemma_setup_once<R>(s: Stage, e: Event<R>)
    ensures
        step(s, e).1 is Setup ==> s == Stage::Start,
        step(s, e).0 == Stage::Start ==> s == Stage::Start,
{
}

/// The loop never gets stuck: short of having returned, every stage has
/// an event on which it acts.
pub proof fn lemma_every_stage_proceeds<R>(s: Stage)
    requires
        s != Stage::Finished,
    ensures
        exists|e: Event<R>| !(#[trigger] step(s, e).1 is Ignore),
{
    let e: Event<R> = match s {
        Stage::Start => Event::Begin,
        Stage::AwaitSetup => Event::Polled(None),
        Stage::PopLocal => Event::Found(false),
        Stage::PopWorker => Event::Found(false),
        Stage::StealForNext => Event::Found(false),
        Stage::Running => Event::Ran,
        Stage::CheckExit => Event::Exited(false),
        Stage::PollResult => Event::Polled(None),
        Stage::CheckQueues => Event::Empty(false),
        Stage::StealIdle => Event::Found(false),
        Stage::Parked => Event::Unparked,
        Stage::Finished => Event::Ran,
    };
    assert(!(step(s, e).1 is Ignore));
}

/// Whether a sequence of actions holds a `Return`.
pub open spec fn has_returned<R>(acts: Seq<Action<R>>) -> bool
    decreases acts.len(),
{
    acts.len() > 0 && (acts[0] is Return || has_returned(acts.drop_first()))
}

/// The thread registry after the registrations that the actions of a
/// `block_on` on thread `key` make: `Setup` registers the thread, `Return`
/// deregisters it, and no other action touches the registry.
pub open spec fn registrations<R, S>(
    t: Seq<ThreadEntry<S>>,
    key: u64,
    stealer: S,
    unparker: Unparker,
    acts: Seq<Action<R>>,
) -> Seq<ThreadEntry<S>>
    decreases acts.len(),
{
    if acts.len() == 0 {
        t
    } else {
        let next = match acts[0] {
            Action::Setup => register_spec(t, key, stealer, unparker),
            Action::Return(_) => deregister_spec(t, key),
            _ => t,
        };
        registrations(next, key, stealer, unparker, acts.drop_first())
    }
}

/// After it has returned, `block_on` touches the registry no more.
pub proof fn lemma_finished_registrations<R, S>(
    t: Seq<ThreadEntry<S>>,
    key: u64,
    stealer: S,
    unparker: Unparker,
    es: Seq<Event<R>>,
)
    ensures
        registrations(t, key, stealer, unparker, drive(Stage::Finished, es).1) == t,
        !has_returned(drive(Stage::Finished, es).1),
    decreases es.len(),
{
    if es.len() > 0 {
        let acts = drive(Stage::Finished, es).1;
        let rest = drive(Stage::Finished, es.drop_first()).1;
        assert(acts =~= seq![Action::<R>::Ignore] + rest);
        assert(acts.drop_first() =~= rest);
        lemma_finished_registrations(t, key, stealer, unparker, es.drop_first());
    }
}

/// Past setup and short of returning, `block_on` registers nothing more and
/// deregisters its thread once, when it returns.
pub proof fn lemma_running_registrations<R, S>(
    s: Stage,
    t: Seq<ThreadEntry<S>>,
    key: u64,
    stealer: S,
    unparker: Unparker,
    es: Seq<Event<R>>,
)
    requires
        s != Stage::Start,
        s != Stage::Finished,
    ensures
        registrations(t, key, stealer, unparker, drive(s, es).1) == (if has_returned(drive(s, es).1) {
            deregister_spec(t, key)
        } else {
            t
        }),
    decreases es.len(),
{
    if es.len() > 0 {
        let (next, a) = step(s, es[0]);
        let acts = drive(s, es).1;
        let rest = drive(next, es.drop_first()).1;
        assert(acts =~= seq![a] + rest);
        assert(acts.drop_first() =~= rest);
        assert(acts[0] == a);
        lemma_setup_once(s, es[0]);
        if a is Return {
            lemma_finished_registrations(
                deregister_spec(t, key),
                key,
                stealer,
                unparker,
                es.drop_first(),
            );
        } else {
            lemma_running_registrations(next, t, key, stealer, unparker, es.drop_first());
        }
    }
}

/// A `block_on` leaves the count of its thread in the registry as it found
/// it once it has returned: setup registers the thread once and the return
/// deregisters it once. Before it returns, the thread is registered once
/// more, or not yet.
pub proof fn lemma_block_on_restores_registration<R, S>(
    t: Seq<ThreadEntry<S>>,
    key: u64,
    stealer: S,
    unparker: Unparker,
    es: Seq<Event<R>>,
)
    requires
        keys_distinct(t),
        counts_positive(t),
        count_of(t, key) < 255,
    ensures
        has_returned(drive(Stage::Start, es).1) ==> registrations(
            t,
            key,
            stealer,
            unparker,
            drive(Stage::Start, es).1,
        ) == t,
        !has_returned(drive(Stage::Start, es).1) ==> (registrations(
            t,
            key,
            stealer,
            unparker,
            drive(Stage::Start, es).1,
        ) == t || registrations(t, key, stealer, unparker, drive(Stage::Start, es).1)
            == register_spec(t, key, stealer, unparker)),
        has_returned(drive(Stage::Start, es).1) ==> count_of(
            registrations(t, key, stealer, unparker, drive(Stage::Start, es).1),
            key,
        ) == count_of(t, key),
    decreases es.len(),
{
    if es.len() > 0 {
        let (next, a) = step(Stage::Start, es[0]);
        let acts = drive(Stage::Start, es).1;
        let rest = drive(next, es.drop_first()).1;
        assert(acts =~= seq![a] + rest);
        assert(acts.drop_first() =~= rest);
        assert(acts[0] == a);
        if es[0] is Begin {
            let r = register_spec(t, key, stealer, unparker);
            lemma_running_registrations(Stage::AwaitSetup, r, key, stealer, unparker, es.drop_first());
            lemma_register_then_deregister(t, key, stealer, unparker);
        } else {
            lemma_block_on_restores_registration(t, key, stealer, unparker, es.drop_first());
        }
    }
}

/// The loop of one `block_on` call.
pub struct BlockOn {
    stage: Stage,
}

impl BlockOn {
    /// Where the loop stands.
    pub closed spec fn stage(&self) -> Stage {
        self.stage
    }

    /// A loop that has not begun.
    pub fn new() -> (driver: Self)
        ensures
            driver.stage() == Stage::Start,
    {
        BlockOn { stage: Stage::Start }
    }

    /// Where the loop stands.
    pub fn current(&self) -> (stage: Stage)
        ensures
            stage == self.stage(),
    {
        self.stage
    }
}

/// Runs one step of the loop of `block_on`: the caller performs the
/// action returned and hands back what it observed, until the action is
/// `Return`.
pub fn block_on<R>(driver: &mut BlockOn, event: Event<R>) -> (action: Action<R>)
    ensures
        (final(driver).stage(), action) == step(old(driver).stage(), event),
{
    let (next, action) = match (driver.stage, event) {
        (Stage::Start, Event::Begin) => (Stage::AwaitSetup, Action::Setup),
        (Stage::AwaitSetup, Event::Polled(Some(r))) => (Stage::Finished, Action::Return(r)),
        (Stage::AwaitSetup, Event::Polled(None)) => (Stage::PopLocal, Action::PopLocal),
        (Stage::PopLocal, Event::Found(true)) => (Stage::Running, Action::Run { local: true }),
        (Stage::PopLocal, Event::Found(false)) => (Stage::PopWorker, Action::PopWorker),
        (Stage::PopWorker, Event::Found(true)) => (Stage::Running, Action::Run { local: false }),
        (Stage::PopWorker, Event::Found(false)) => (Stage::StealForNext, Action::StealGlobal),
        (Stage::StealForNext, Event::Found(true)) => (
            Stage::Running,
            Action::Run { local: false },
        ),
        (Stage::StealForNext, Event::Found(false)) => (Stage::CheckExit, Action::LoadExited),
        (Stage::Running, Event::Ran) => (Stage::PopLocal, Action::PopLocal),
        (Stage::CheckExit, Event::Exited(true)) => (Stage::PollResult, Action::PollReceiver),
        (Stage::CheckExit, Event::Exited(false)) => (Stage::CheckQueues, Action::CheckQueuesEmpty),
        (Stage::PollResult, Event::Polled(Some(r))) => (Stage::Finished, Action::Return(r)),
        (Stage::PollResult, Event::Polled(None)) => (Stage::CheckQueues, Action::CheckQueuesEmpty),
        (Stage::CheckQueues, Event::Empty(true)) => (Stage::StealIdle, Action::StealGlobal),
        (Stage::CheckQueues, Event::Empty(false)) => (Stage::PopLocal, Action::PopLocal),
        (Stage::StealIdle, Event::Found(true)) => (Stage::Running, Action::Run { local: false }),
        (Stage::StealIdle, Event::Found(false)) => (Stage::Parked, Action::Park),
        (Stage::Parked, Event::Unparked) => (Stage::PopLocal, Action::PopLocal),
        (s, _) => (s, Action::Ignore),
    };
    driver.stage = next;
    action
}

} // verus!
