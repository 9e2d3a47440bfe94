//! uexec: the bookkeeping and the scheduling decisions of a simple
//! work-stealing global and local executor.
//!
//! - [`ids`]: task identifiers;
//! - [`state`]: the registry of tasks waiting for their waker;
//! - [`task`]: the life of one task (poll, settle, register, wake);
//! - [`threads`]: the threads that run an executor, stealing and waking;
//! - [`executor`]: the loop of [`block_on`];
//! - [`workers`]: the pool of worker threads.

pub mod executor;
pub mod handle;
pub mod ids;
pub mod state;
pub mod task;
pub mod threads;
pub mod workers;

pub use executor::block_on;

use vstd::prelude::*;
use workers::Workers;

verus! {

/// Adds the worker threads just spawned to the pool: tasks spawned on the
/// global executor may then run on any of them.
pub fn spawn_workers<W>(workers: &mut Workers<W>, started: Vec<W>)
    ensures
        final(workers)@ == old(workers)@ + started@,
{
    workers.add(started);
}

/// Terminates all worker threads: takes every one of them out of the pool,
/// in spawn order, to be told to stop and then joined; the tasks still
/// pending on them are dropped.
pub fn terminate_workers<W>(workers: &mut Workers<W>) -> (stopped: Vec<W>)
    ensures
        stopped@ == old(workers)@,
        final(workers)@ == Seq::<W>::empty(),
{
    workers.drain()
}

/// Terminating right after spawning stops the workers that ran before, in
/// their order, then exactly the workers just spawned, in theirs.
pub proof fn lemma_spawn_then_terminate<W>(running: Seq<W>, started: Seq<W>)
    ensures
        (running + started).len() == running.len() + started.len(),
        (running + started).take(running.len() as int) == running,
        (running + started).skip(running.len() as int) == started,
{
    assert((running + started).take(running.len() as int) =~= running);
    assert((running + started).skip(running.len() as int) =~= started);
}

} // verus!
