//! The pool of worker threads spawned on demand.

use vstd::prelude::*;

verus! {

/// The worker threads that were spawned and not yet terminated, in the
/// order they were spawned.
pub struct Workers<W> {
    pool: Vec<W>,
}

impl<W> View for Workers<W> {
    type V = Seq<W>;

    closed spec fn view(&self) -> Seq<W> {
        self.pool@
    }
}

impl<W> Workers<W> {
    /// An empty pool.
    pub fn new() -> (workers: Self)
        ensures
            workers@ == Seq::<W>::empty(),
    {
        Workers { pool: Vec::new() }
    }

    /// The number of running workers.
    pub fn len(&self) -> (n: usize)
        ensures
            n == self@.len(),
    {
        self.pool.len()
    }

    /// Adds the workers just started, after the ones already running.
    pub fn add(&mut self, started: Vec<W>)
        ensures
            final(self)@ == old(self)@ + started@,
    {
        let mut started = started;
        self.pool.append(&mut started);
    }

    /// Takes every running worker out of the pool, in spawn order.
    pub fn drain(&mut self) -> (stopped: Vec<W>)
        ensures
            stopped@ == old(self)@,
            final(self)@ == Seq::<W>::empty(),
    {
        let mut stopped = Vec::new();
        std::mem::swap(&mut stopped, &mut self.pool);
        stopped
    }
}

impl<W> Default for Workers<W> {
    fn default() -> (workers: Self)
        ensures
            workers@ == Seq::<W>::empty(),
    {
        Workers::new()
    }
}

} // verus!
