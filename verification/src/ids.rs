//! Allocation of task identifiers.

use vstd::prelude::*;

verus! {

/// The identifier handed out after `k` further allocations from a counter
/// that currently holds `start`: the counter wraps around at 2^64.
pub open spec fn nth_task_id(start: u64, k: nat) -> u64 {
    ((start as nat + k) % 0x1_0000_0000_0000_0000) as u64
}

/// Generates a new identifier for each task spawned on an executor.
pub struct TaskIds {
    next: u64,
}

impl TaskIds {
    /// The identifier that the next call of `next_task_id` hands out.
    pub closed spec fn peek(&self) -> u64 {
        self.next
    }

    /// The counter of a thread-local executor: its first task gets id 1.
    pub fn local() -> (ids: Self)
        ensures
            ids.peek() == 1,
    {
        TaskIds { next: 1 }
    }

    /// The counter of the global executor: its first task gets id 0.
    pub fn new() -> (ids: Self)
        ensures
            ids.peek() == 0,
    {
        TaskIds { next: 0 }
    }

    /// Hands out the current identifier and advances the counter,
    /// wrapping around at 2^64.
    pub fn next_task_id(&mut self) -> (id: u64)
        ensures
            id == old(self).peek(),
            final(self).peek() == nth_task_id(old(self).peek(), 1),
    {
        let id = self.next;
        self.next = self.next.wrapping_add(1);
        id
    }
}

impl Default for TaskIds {
    fn default() -> (ids: Self)
        ensures
            ids.peek() == 0,
    {
        TaskIds::new()
    }
}

/// Advancing the counter `j` times and then `k` more times is the same as
/// advancing it `j + k` times.
pub proof fn lemma_task_ids_compose(start: u64, j: nat, k: nat)
    ensures
        nth_task_id(nth_task_id(start, j), k) == nth_task_id(start, j + k),
{
    let m: int = 0x1_0000_0000_0000_0000;
    let a: int = start as int + j;
    assert(nth_task_id(start, j) as int == a % m);
    vstd::arithmetic::div_mod::lemma_add_mod_noop(a, k as int, m);
    vstd::arithmetic::div_mod::lemma_mod_twice(k as int, m);
    vstd::arithmetic::div_mod::lemma_add_mod_noop(a % m, k as int, m);
    vstd::arithmetic::div_mod::lemma_mod_twice(a, m);
}

/// Fewer than 2^64 successive allocations from one counter never hand out
/// the same identifier twice.
pub proof fn lemma_task_ids_distinct(start: u64, i: nat, j: nat)
    requires
        i < j < 0x1_0000_0000_0000_0000,
    ensures
        nth_task_id(start, i) != nth_task_id(start, j),
{
    let m: int = 0x1_0000_0000_0000_0000;
    let a: int = start as int + i;
    let b: int = start as int + j;
    if a % m == b % m {
        vstd::arithmetic::div_mod::lemma_fundamental_div_mod(a, m);
        vstd::arithmetic::div_mod::lemma_fundamental_div_mod(b, m);
        let qa = a / m;
        let qb = b / m;
        assert(b - a == m * (qb - qa));
        assert(0 < b - a < m);
        assert(false) by (nonlinear_arith)
            requires
                b - a == m * (qb - qa),
                0 < b - a < m,
                m > 0,
        ;
    }
}

} // verus!
