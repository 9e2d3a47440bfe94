//! The registry of the threads that run an executor: other threads steal
//! tasks from them and wake them up.

use crossbeam_deque::{Injector, Steal, Stealer, Worker};
use crossbeam_utils::sync::Unparker;
use vstd::prelude::*;

verus! {

#[verifier::external_type_specification]
#[verifier::external_body]
pub struct ExUnparker(crossbeam_utils::sync::Unparker);

#[verifier::external_type_specification]
#[verifier::external_body]
#[verifier::reject_recursive_types(T)]
pub struct ExWorker<T>(crossbeam_deque::Worker<T>);

#[verifier::external_type_specification]
#[verifier::external_body]
#[verifier::reject_recursive_types(T)]
pub struct ExStealer<T>(crossbeam_deque::Stealer<T>);

#[verifier::external_type_specification]
#[verifier::external_body]
#[verifier::reject_recursive_types(T)]
pub struct ExInjector<T>(crossbeam_deque::Injector<T>);

/// What one attempt to steal from a queue gave: the stolen task, an empty
/// queue, or a clash with another thread that calls for a new attempt.
pub enum Attempt<T> {
    Success(T),
    Empty,
    Retry,
}

/// Steals a batch of tasks from another thread's queue into `dest` and pops
/// one of them. Calls `crossbeam_deque::Stealer::steal_batch_and_pop`; what
/// it gives depends on the other threads, so nothing is stated of it.
#[verifier::external_body]
fn stealer_steal_batch_and_pop<T>(stealer: &Stealer<T>, dest: &Worker<T>) -> Attempt<T> {
    match stealer.steal_batch_and_pop(dest) {
        Steal::Success(task) => Attempt::Success(task),
        Steal::Empty => Attempt::Empty,
        Steal::Retry => Attempt::Retry,
    }
}

/// Steals a batch of tasks from a shared queue into `dest` and pops one of
/// them. Calls `crossbeam_deque::Injector::steal_batch_and_pop`; what it
/// gives depends on the other threads, so nothing is stated of it.
#[verifier::external_body]
fn injector_steal_batch_and_pop<T>(injector: &Injector<T>, dest: &Worker<T>) -> Attempt<T> {
    match injector.steal_batch_and_pop(dest) {
        Steal::Success(task) => Attempt::Success(task),
        Steal::Empty => Attempt::Empty,
        Steal::Retry => Attempt::Retry,
    }
}

/// Draws an index in `0..n`. Calls `fastrand::usize(..n)`, which returns a
/// value of the range and panics on an empty one; which value comes back
/// depends on the thread's random generator.
#[verifier::external_body]
fn random_index(n: usize) -> (i: usize)
    requires
        n > 0,
    ensures
        i < n,
{
    fastrand::usize(..n)
}

/// One registered thread: its key, how many `block_on` calls on it are
/// running, the handle to steal from its queue, and its unparker.
pub struct ThreadEntry<S> {
    pub key: u64,
    pub count: u8,
    pub stealer: S,
    pub unparker: Unparker,
}

/// No key occurs twice.
pub open spec fn keys_distinct<S>(s: Seq<ThreadEntry<S>>) -> bool {
    forall|i: int, j: int| 0 <= i < j < s.len() ==> s[i].key != s[j].key
}

/// Every registered thread runs at least one `block_on`.
pub open spec fn counts_positive<S>(s: Seq<ThreadEntry<S>>) -> bool {
    forall|i: int| 0 <= i < s.len() ==> s[i].count >= 1
}

/// Whether the thread `key` is registered.
pub open spec fn registered<S>(s: Seq<ThreadEntry<S>>, key: u64) -> bool {
    exists|i: int| 0 <= i < s.len() && s[i].key == key
}

/// The position of the thread `key`, where it is registered.
pub open spec fn index_of<S>(s: Seq<ThreadEntry<S>>, key: u64) -> int {
    choose|i: int| 0 <= i < s.len() && s[i].key == key
}

/// How many `block_on` calls run on the thread `key` (0 if unregistered).
pub open spec fn count_of<S>(s: Seq<ThreadEntry<S>>, key: u64) -> nat {
    if registered(s, key) {
        s[index_of(s, key)].count as nat
    } else {
        0
    }
}

/// Registering a thread: a registered thread has its count raised by one
/// and keeps its stealer and unparker; a new one is added with count 1.
pub open spec fn register_spec<S>(
    s: Seq<ThreadEntry<S>>,
    key: u64,
    stealer: S,
    unparker: Unparker,
) -> Seq<ThreadEntry<S>> {
    if registered(s, key) {
        let i = index_of(s, key);
        s.update(i, ThreadEntry { count: (s[i].count + 1) as u8, ..s[i] })
    } else {
        s.push(ThreadEntry { key, count: 1, stealer, unparker })
    }
}

/// Deregistering a thread: its count goes down by one, and it leaves the
/// registry when no `block_on` runs on it any more.
pub open spec fn deregister_spec<S>(s: Seq<ThreadEntry<S>>, key: u64) -> Seq<ThreadEntry<S>> {
    if registered(s, key) {
        let i = index_of(s, key);
        if s[i].count > 1 {
            s.update(i, ThreadEntry { count: (s[i].count - 1) as u8, ..s[i] })
        } else {
            s.remove(i)
        }
    } else {
        s
    }
}

/// With distinct keys, the position of a key is the one that holds it.
pub proof fn lemma_index_of<S>(s: Seq<ThreadEntry<S>>, key: u64, i: int)
    requires
        keys_distinct(s),
        0 <= i < s.len(),
        s[i].key == key,
    ensures
        registered(s, key),
        index_of(s, key) == i,
{
    assert(registered(s, key));
    let j = index_of(s, key);
    assert(0 <= j < s.len() && s[j].key == key);
}

/// The positions of the threads other than `me`, in registry order.
pub open spec fn others<S>(s: Seq<ThreadEntry<S>>, me: u64) -> Seq<usize>
    decreases s.len(),
{
    if s.len() == 0 {
        Seq::empty()
    } else {
        let rest = others(s.drop_last(), me);
        if s.last().key != me {
            rest.push((s.len() - 1) as usize)
        } else {
            rest
        }
    }
}

/// The threads a steal visits, by position: the threads other than `me`,
/// taken cyclically from the `start`-th one on, as many as there are
/// registered threads but one.
pub open spec fn steal_order_spec<S>(s: Seq<ThreadEntry<S>>, me: u64, start: int) -> Seq<usize> {
    let o = others(s, me);
    Seq::new((s.len() - 1) as nat, |k: int| o[(start + k) % (o.len() as int)])
}

/// What `others` holds: each position of a thread other than `me`, once,
/// in increasing order.
pub proof fn lemma_others<S>(s: Seq<ThreadEntry<S>>, me: u64)
    requires
        s.len() <= usize::MAX,
    ensures
        forall|i: int|
            0 <= i < others(s, me).len() ==> (others(s, me)[i] as int) < s.len() && s[others(
                s,
                me,
            )[i] as int].key != me,
        forall|i: int, j: int|
            0 <= i < j < others(s, me).len() ==> others(s, me)[i] < others(s, me)[j],
        forall|p: int| 0 <= p < s.len() && s[p].key != me ==> others(s, me).contains(p as usize),
        others(s, me).len() <= s.len(),
        !registered(s, me) ==> others(s, me).len() == s.len(),
        registered(s, me) && keys_distinct(s) ==> others(s, me).len() + 1 == s.len(),
    decreases s.len(),
{
    if s.len() > 0 {
        let t = s.drop_last();
        lemma_others(t, me);
        let o = others(s, me);
        let r = others(t, me);
        assert forall|p: int| 0 <= p < s.len() && s[p].key != me implies o.contains(p as usize) by {
            if p < t.len() {
                assert(t[p] == s[p]);
                assert(r.contains(p as usize));
                let k = choose|k: int| 0 <= k < r.len() && r[k] == p as usize;
                assert(o[k] == p as usize);
            } else {
                assert(o[o.len() - 1] == p as usize);
            }
        }
        if !registered(s, me) {
            assert forall|p: int| 0 <= p < t.len() implies t[p].key != me by {
                if t[p].key == me {
                    assert(s[p].key == me);
                }
            }
            if registered(t, me) {
                let q = choose|q: int| 0 <= q < t.len() && t[q].key == me;
                assert(s[q].key == me);
            }
            assert(s.last().key != me) by {
                if s.last().key == me {
                    assert(s[s.len() - 1].key == me);
                }
            }
        }
        if registered(s, me) && keys_distinct(s) {
            assert(keys_distinct(t));
            if s.last().key == me {
                if registered(t, me) {
                    let q = choose|q: int| 0 <= q < t.len() && t[q].key == me;
                    assert(s[q].key == s[s.len() - 1].key);
                }
            } else {
                let q = choose|q: int| 0 <= q < s.len() && s[q].key == me;
                assert(q < t.len());
                assert(t[q].key == me);
            }
        }
    }
}

/// `(a + 1) % n` steps the remainder of `a` by one and wraps it at `n`.
proof fn lemma_mod_succ(a: int, n: int)
    requires
        a >= 0,
        n > 0,
    ensures
        (a + 1) % n == (if a % n + 1 == n {
            0
        } else {
            a % n + 1
        }),
{
    vstd::arithmetic::div_mod::lemma_add_mod_noop(a, 1, n);
    if n == 1 {
        assert(a % 1 == 0);
        assert((a + 1) % 1 == 0);
    } else {
        vstd::arithmetic::div_mod::lemma_small_mod(1, n as nat);
        let r = a % n;
        assert(0 <= r < n);
        if r + 1 < n {
            vstd::arithmetic::div_mod::lemma_small_mod((r + 1) as nat, n as nat);
        } else {
            assert((r + 1) % n == n % n);
            vstd::arithmetic::div_mod::lemma_mod_self_0(n);
        }
    }
}

/// The step at which a walk through `0..n` from `start` reaches `j`.
pub open spec fn rotation_back(start: int, n: int, j: int) -> int {
    if j >= start {
        j - start
    } else {
        j + n - start
    }
}

/// Stepping through `0..n` from `start` with wrap-around hits every index
/// of `0..n` exactly once.
pub proof fn lemma_rotation(start: int, n: int)
    requires
        0 <= start < n,
    ensures
        forall|k1: int, k2: int|
            0 <= k1 < k2 < n ==> #[trigger] ((start + k1) % n) != #[trigger] ((start + k2) % n),
        forall|j: int|
            0 <= j < n ==> 0 <= #[trigger] rotation_back(start, n, j) < n && (start
                + rotation_back(start, n, j)) % n == j,
{
    assert forall|k1: int, k2: int| 0 <= k1 < k2 < n implies #[trigger] ((start + k1) % n) != #[trigger] ((start + k2) % n) by {
        let a = start + k1;
        let b = start + k2;
        if a % n == b % n {
            vstd::arithmetic::div_mod::lemma_fundamental_div_mod(a, n);
            vstd::arithmetic::div_mod::lemma_fundamental_div_mod(b, n);
            let qa = a / n;
            let qb = b / n;
            let ra = a % n;
            assert(false) by (nonlinear_arith)
                requires
                    a == n * qa + ra,
                    b == n * qb + ra,
                    0 < b - a < n,
            ;
        }
    }
    assert forall|j: int| 0 <= j < n implies 0 <= #[trigger] rotation_back(start, n, j) < n && (
    start + rotation_back(start, n, j)) % n == j by {
        if j >= start {
            vstd::arithmetic::div_mod::lemma_fundamental_div_mod_converse(j, n, 0, j);
        } else {
            vstd::arithmetic::div_mod::lemma_fundamental_div_mod_converse(j + n, n, 1, j);
        }
    }
}

/// A steal never visits a thread twice.
pub proof fn lemma_steal_order_distinct<S>(s: Seq<ThreadEntry<S>>, me: u64, start: int)
    requires
        s.len() <= usize::MAX,
        0 <= start < s.len() - 1,
        s.len() - 1 <= others(s, me).len(),
    ensures
        steal_order_spec(s, me, start).no_duplicates(),
{
    lemma_others(s, me);
    let o = others(s, me);
    let n = o.len() as int;
    let r = steal_order_spec(s, me, start);
    lemma_rotation(start, n);
    assert forall|i: int, j: int| 0 <= i < r.len() && 0 <= j < r.len() && i != j implies r[i]
        != r[j] by {
        let (a, b) = if i < j {
            (i, j)
        } else {
            (j, i)
        };
        assert((start + a) % n != (start + b) % n);
        let x = (start + a) % n;
        let y = (start + b) % n;
        if x < y {
            assert(o[x] < o[y]);
        } else {
            assert(o[y] < o[x]);
        }
    }
}

/// A steal by a registered thread visits every other registered thread
/// exactly once, and never the thread itself.
pub proof fn lemma_steal_visits_each_other_thread_once<S>(
    s: Seq<ThreadEntry<S>>,
    me: u64,
    start: int,
)
    requires
        s.len() <= usize::MAX,
        keys_distinct(s),
        registered(s, me),
        0 <= start < s.len() - 1,
    ensures
        steal_order_spec(s, me, start).no_duplicates(),
        forall|p: int|
            0 <= p < s.len() ==> (s[p].key != me <==> steal_order_spec(s, me, start).contains(
                p as usize,
            )),
{
    lemma_others(s, me);
    let o = others(s, me);
    let n = o.len() as int;
    let r = steal_order_spec(s, me, start);
    lemma_rotation(start, n);
    assert(r.len() == n);
    lemma_steal_order_distinct(s, me, start);
    assert forall|p: int| 0 <= p < s.len() implies (s[p].key != me <==> r.contains(p as usize)) by {
        if s[p].key != me {
            assert(o.contains(p as usize));
            let j = choose|j: int| 0 <= j < o.len() && o[j] == p as usize;
            let k = rotation_back(start, n, j);
            assert(r[k] == o[(start + k) % n]);
            assert(r[k] == p as usize);
        }
        if r.contains(p as usize) {
            let k = choose|k: int| 0 <= k < r.len() && r[k] == p as usize;
            let x = (start + k) % n;
            assert(s[o[x] as int].key != me);
        }
    }
}

/// A steal by a thread that is not registered visits distinct threads,
/// every one of them registered, and leaves out one registered thread.
pub proof fn lemma_steal_by_unregistered_thread<S>(s: Seq<ThreadEntry<S>>, me: u64, start: int)
    requires
        s.len() <= usize::MAX,
        !registered(s, me),
        0 <= start < s.len() - 1,
    ensures
        steal_order_spec(s, me, start).no_duplicates(),
        steal_order_spec(s, me, start).len() + 1 == s.len(),
        forall|k: int|
            0 <= k < steal_order_spec(s, me, start).len() ==> (steal_order_spec(s, me, start)[k]
                as int) < s.len(),
{
    lemma_others(s, me);
    let o = others(s, me);
    let n = o.len() as int;
    let r = steal_order_spec(s, me, start);
    lemma_rotation(start, n);
    lemma_steal_order_distinct(s, me, start);
    assert forall|k: int| 0 <= k < r.len() implies (r[k] as int) < s.len() by {
        let x = (start + k) % n;
        assert(r[k] == o[x]);
    }
}

/// A `block_on` that registers its thread and deregisters it when it
/// returns leaves the registry as it found it.
pub proof fn lemma_register_then_deregister<S>(
    s: Seq<ThreadEntry<S>>,
    key: u64,
    stealer: S,
    unparker: Unparker,
)
    requires
        keys_distinct(s),
        counts_positive(s),
        count_of(s, key) < 255,
    ensures
        deregister_spec(register_spec(s, key, stealer, unparker), key) == s,
{
    let t = register_spec(s, key, stealer, unparker);
    if registered(s, key) {
        let i = index_of(s, key);
        assert(t[i].key == key);
        assert(keys_distinct(t));
        lemma_index_of(t, key, i);
        assert(deregister_spec(t, key) =~= s);
    } else {
        let i = s.len() as int;
        assert(t[i].key == key);
        assert(keys_distinct(t));
        lemma_index_of(t, key, i);
        assert(deregister_spec(t, key) =~= s);
    }
}

/// Registering a thread counts one more `block_on` on it, deregistering
/// one fewer, and neither touches the count of another thread.
pub proof fn lemma_register_deregister_counts<S>(
    s: Seq<ThreadEntry<S>>,
    key: u64,
    other: u64,
    stealer: S,
    unparker: Unparker,
)
    requires
        keys_distinct(s),
        counts_positive(s),
        count_of(s, key) < 255,
        key != other,
    ensures
        count_of(register_spec(s, key, stealer, unparker), key) == count_of(s, key) + 1,
        count_of(register_spec(s, key, stealer, unparker), other) == count_of(s, other),
        count_of(deregister_spec(s, key), key) == (if count_of(s, key) > 0 {
            count_of(s, key) - 1
        } else {
            0
        }),
        count_of(deregister_spec(s, key), other) == count_of(s, other),
{
    let t = register_spec(s, key, stealer, unparker);
    let d = deregister_spec(s, key);
    if registered(s, key) {
        let i = index_of(s, key);
        lemma_index_of(s, key, i);
        assert(keys_distinct(t));
        lemma_index_of(t, key, i);
        if s[i].count > 1 {
            assert(keys_distinct(d));
            lemma_index_of(d, key, i);
        } else {
            assert(keys_distinct(d));
            if registered(d, key) {
                let j = choose|j: int| 0 <= j < d.len() && d[j].key == key;
                if j < i {
                    assert(s[j].key == key);
                } else {
                    assert(s[j + 1].key == key);
                }
            }
        }
    } else {
        let i = s.len() as int;
        assert(keys_distinct(t));
        lemma_index_of(t, key, i);
    }
    if registered(s, other) {
        let q = index_of(s, other);
        lemma_index_of(s, other, q);
        assert(keys_distinct(t));
        lemma_index_of(t, other, q);
        assert(keys_distinct(d));
        if registered(s, key) {
            let i = index_of(s, key);
            if s[i].count > 1 {
                lemma_index_of(d, other, q);
            } else if q < i {
                lemma_index_of(d, other, q);
            } else {
                lemma_index_of(d, other, q - 1);
            }
        } else {
            lemma_index_of(d, other, q);
        }
    } else {
        assert(keys_distinct(t));
        if registered(t, other) {
            let j = choose|j: int| 0 <= j < t.len() && t[j].key == other;
            if j < s.len() {
                assert(s[j].key == other);
            }
        }
        if registered(d, other) {
            let j = choose|j: int| 0 <= j < d.len() && d[j].key == other;
            if registered(s, key) && s[index_of(s, key)].count <= 1 {
                if j < index_of(s, key) {
                    assert(s[j].key == other);
                } else {
                    assert(s[j + 1].key == other);
                }
            } else {
                assert(s[j].key == other);
            }
        }
    }
}

/// What one attempt to steal from a queue gave.
#[derive(PartialEq, Eq, Structural, Clone, Copy, Debug)]
pub enum StealOutcome {
    /// A task was stolen.
    Success,
    /// The queue was empty.
    Empty,
    /// The attempt met a concurrent operation and must be repeated.
    Retry,
}

/// What a steal that visits queues `0..n` in turn does next.
#[derive(PartialEq, Eq, Structural, Clone, Copy, Debug)]
pub enum StealNext {
    /// Take the stolen task.
    Take,
    /// Try the same queue again.
    TryAgain(usize),
    /// Go on with the next queue.
    Next(usize),
    /// Every queue was empty: nothing to steal.
    GiveUp,
}

/// Decides what follows an attempt to steal from the `k`-th of `n` queues.
pub fn after_steal(k: usize, n: usize, outcome: StealOutcome) -> (next: StealNext)
    requires
        k < n,
    ensures
        outcome == StealOutcome::Success ==> next == StealNext::Take,
        outcome == StealOutcome::Retry ==> next == StealNext::TryAgain(k),
        outcome == StealOutcome::Empty && k + 1 < n ==> next == StealNext::Next((k + 1) as usize),
        outcome == StealOutcome::Empty && k + 1 == n ==> next == StealNext::GiveUp,
{
    match outcome {
        StealOutcome::Success => StealNext::Take,
        StealOutcome::Retry => StealNext::TryAgain(k),
        StealOutcome::Empty => if k + 1 < n {
            StealNext::Next(k + 1)
        } else {
            StealNext::GiveUp
        },
    }
}

/// What a steal gave: a task, nothing (every queue it tried was empty), or
/// a clash with another thread on the queue at position `k` of the visit,
/// where the steal goes on.
pub enum Stolen<T> {
    Task(T),
    Nothing,
    RetryAt(usize),
}

/// The outcome of an attempt, without its task.
fn outcome_of<T>(attempt: &Attempt<T>) -> (outcome: StealOutcome)
    ensures
        (outcome == StealOutcome::Success) <==> attempt is Success,
        (outcome == StealOutcome::Empty) <==> attempt is Empty,
        (outcome == StealOutcome::Retry) <==> attempt is Retry,
{
    match attempt {
        Attempt::Success(_) => StealOutcome::Success,
        Attempt::Empty => StealOutcome::Empty,
        Attempt::Retry => StealOutcome::Retry,
    }
}

/// Steals into `dest` from the shared queue `queue`: a task, nothing if the
/// queue was empty, or `RetryAt(0)` after a clash with another thread.
pub fn steal_queue<T>(queue: &Injector<T>, dest: &Worker<T>) -> (stolen: Stolen<T>)
    ensures
        stolen matches Stolen::RetryAt(k) ==> k == 0,
{
    let attempt = injector_steal_batch_and_pop(queue, dest);
    match after_steal(0, 1, outcome_of(&attempt)) {
        StealNext::Take => match attempt {
            Attempt::Success(task) => Stolen::Task(task),
            _ => Stolen::Nothing,
        },
        StealNext::TryAgain(k) => Stolen::RetryAt(k),
        StealNext::Next(_) => Stolen::Nothing,
        StealNext::GiveUp => Stolen::Nothing,
    }
}

/// A record of the attempts of a steal that starts at position `from` of
/// the visit `order`: the `i`-th attempt went to the queue at position
/// `order[from + i]`, and all but the last one found their queue empty.
pub open spec fn visited_in_turn(log: Seq<(usize, StealOutcome)>, order: Seq<usize>, from: int) -> bool {
    &&& log.len() >= 1
    &&& from + log.len() <= order.len()
    &&& forall|i: int| 0 <= i < log.len() ==> (#[trigger] log[i]).0 == order[from + i]
    &&& forall|i: int| 0 <= i < log.len() - 1 ==> (#[trigger] log[i]).1 == StealOutcome::Empty
}

/// Steals into `dest` from the threads of `threads` at the positions
/// `order[from..]`, in turn, and returns with what it stole the record of
/// its attempts: it tries the queues one after the other, going on only
/// past an empty one; it stops at the first task, hands back the position
/// of a clash that calls for a new attempt, and gives up only after every
/// queue from `from` on was found empty.
pub fn steal_visit<T>(
    threads: &Threads<Stealer<T>>,
    order: &Vec<usize>,
    from: usize,
    dest: &Worker<T>,
) -> (result: (Stolen<T>, Ghost<Seq<(usize, StealOutcome)>>))
    requires
        from < order@.len(),
        forall|k: int| 0 <= k < order@.len() ==> (#[trigger] order@[k] as int) < threads@.len(),
    ensures
        visited_in_turn(result.1@, order@, from as int),
        result.0 is Task ==> result.1@.last().1 == StealOutcome::Success,
        result.0 matches Stolen::RetryAt(k) ==> result.1@.last().1 == StealOutcome::Retry && k
            == from + result.1@.len() - 1,
        result.0 is Nothing ==> result.1@.last().1 == StealOutcome::Empty && from
            + result.1@.len() == order@.len(),
{
    let n = order.len();
    let mut k = from;
    let ghost mut log: Seq<(usize, StealOutcome)> = Seq::empty();
    loop
        invariant
            n == order@.len(),
            from <= k < n,
            forall|i: int| 0 <= i < order@.len() ==> (#[trigger] order@[i] as int) < threads@.len(),
            log.len() == k - from,
            forall|i: int| 0 <= i < log.len() ==> (#[trigger] log[i]).0 == order@[from + i],
            forall|i: int| 0 <= i < log.len() ==> (#[trigger] log[i]).1 == StealOutcome::Empty,
        decreases n - k,
    {
        let attempt = stealer_steal_batch_and_pop(threads.stealer(order[k]), dest);
        let outcome = outcome_of(&attempt);
        proof {
            log = log.push((order@[k as int], outcome));
        }
        match after_steal(k, n, outcome) {
            StealNext::Take => {
                let stolen = match attempt {
                    Attempt::Success(task) => Stolen::Task(task),
                    _ => Stolen::Nothing,
                };
                return (stolen, Ghost(log));
            },
            StealNext::TryAgain(same) => {
                return (Stolen::RetryAt(same), Ghost(log));
            },
            StealNext::Next(next) => {
                k = next;
            },
            StealNext::GiveUp => {
                return (Stolen::Nothing, Ghost(log));
            },
        }
    }
}

/// Steals into `dest` from the threads of `threads` at the positions
/// `order[from..]`, in turn, as `steal_visit` does.
pub fn steal_round<T>(
    threads: &Threads<Stealer<T>>,
    order: &Vec<usize>,
    from: usize,
    dest: &Worker<T>,
) -> (stolen: Stolen<T>)
    requires
        from < order@.len(),
        forall|k: int| 0 <= k < order@.len() ==> (#[trigger] order@[k] as int) < threads@.len(),
    ensures
        stolen matches Stolen::RetryAt(k) ==> from <= k < order@.len(),
{
    let (stolen, _attempts) = steal_visit(threads, order, from, dest);
    stolen
}

/// The registry of the threads that run an executor.
pub struct Threads<S> {
    entries: Vec<ThreadEntry<S>>,
}

impl<S> View for Threads<S> {
    type V = Seq<ThreadEntry<S>>;

    closed spec fn view(&self) -> Seq<ThreadEntry<S>> {
        self.entries@
    }
}

impl<S> Threads<S> {
    #[verifier::type_invariant]
    closed spec fn inv(&self) -> bool {
        keys_distinct(self.entries@) && counts_positive(self.entries@)
    }

    /// An empty registry.
    pub fn new() -> (threads: Self)
        ensures
            threads@ == Seq::<ThreadEntry<S>>::empty(),
            keys_distinct(threads@),
            counts_positive(threads@),
    {
        Threads { entries: Vec::new() }
    }

    /// The number of registered threads.
    pub fn len(&self) -> (n: usize)
        ensures
            n == self@.len(),
    {
        self.entries.len()
    }

    /// The stealer of the thread at position `pos`.
    pub fn stealer(&self, pos: usize) -> (stealer: &S)
        requires
            pos < self@.len(),
        ensures
            *stealer == self@[pos as int].stealer,
    {
        &self.entries[pos].stealer
    }

    /// The position of the thread `key`, if it is registered.
    pub fn find(&self, key: u64) -> (pos: Option<usize>)
        ensures
            pos matches Some(i) ==> i < self@.len() && index_of(self@, key) == i && registered(
                self@,
                key,
            ),
            pos is None ==> !registered(self@, key),
    {
        proof {
            use_type_invariant(self);
        }
        let n = self.entries.len();
        let mut i: usize = 0;
        while i < n
            invariant
                n == self@.len(),
                i <= n,
                keys_distinct(self@),
                forall|j: int| 0 <= j < i ==> self@[j].key != key,
            decreases n - i,
        {
            if self.entries[i].key == key {
                proof {
                    lemma_index_of(self@, key, i as int);
                }
                return Some(i);
            }
            i = i + 1;
        }
        None
    }

    /// How many `block_on` calls run on the thread `key` (0 if it is not
    /// registered).
    pub fn count(&self, key: u64) -> (count: u8)
        ensures
            count == count_of(self@, key),
    {
        match self.find(key) {
            Some(i) => self.entries[i].count,
            None => 0,
        }
    }

    /// Registers the current thread `key`, or counts one more `block_on` on
    /// it; a thread that is already registered keeps its first stealer and
    /// unparker.
    pub fn register_current(&mut self, key: u64, stealer: S, unparker: Unparker)
        requires
            count_of(old(self)@, key) < 255,
        ensures
            final(self)@ == register_spec(old(self)@, key, stealer, unparker),
            keys_distinct(final(self)@),
            counts_positive(final(self)@),
    {
        proof {
            use_type_invariant(&*self);
        }
        let found = self.find(key);
        let mut entries = Vec::new();
        std::mem::swap(&mut entries, &mut self.entries);
        match found {
            Some(i) => {
                let e = entries.remove(i);
                let ghost s = old(self)@;
                entries.insert(
                    i,
                    ThreadEntry {
                        key: e.key,
                        count: e.count + 1,
                        stealer: e.stealer,
                        unparker: e.unparker,
                    },
                );
                assert(entries@ =~= register_spec(s, key, stealer, unparker));
            },
            None => {
                entries.push(ThreadEntry { key, count: 1, stealer, unparker });
                assert(entries@ =~= register_spec(old(self)@, key, stealer, unparker));
            },
        }
        self.entries = entries;
        proof {
            use_type_invariant(&*self);
        }
    }

    /// One `block_on` on the thread `key` has ended: its count goes down by
    /// one, and the thread leaves the registry when it reaches zero.
    pub fn deregister(&mut self, key: u64)
        ensures
            final(self)@ == deregister_spec(old(self)@, key),
            keys_distinct(final(self)@),
            counts_positive(final(self)@),
    {
        proof {
            use_type_invariant(&*self);
        }
        let found = self.find(key);
        let mut entries = Vec::new();
        std::mem::swap(&mut entries, &mut self.entries);
        let ghost s = old(self)@;
        match found {
            Some(i) => {
                let e = entries.remove(i);
                if e.count > 1 {
                    entries.insert(
                        i,
                        ThreadEntry {
                            key: e.key,
                            count: e.count - 1,
                            stealer: e.stealer,
                            unparker: e.unparker,
                        },
                    );
                    assert(entries@ =~= deregister_spec(s, key));
                } else {
                    assert(entries@ =~= deregister_spec(s, key));
                }
            },
            None => {
                assert(entries@ =~= deregister_spec(s, key));
            },
        }
        self.entries = entries;
        proof {
            use_type_invariant(&*self);
        }
    }
    /// The positions of the threads other than `me`, in registry order.
    fn other_positions(&self, me: u64) -> (o: Vec<usize>)
        ensures
            o@ == others(self@, me),
    {
        let n = self.entries.len();
        let mut o: Vec<usize> = Vec::new();
        let mut i: usize = 0;
        while i < n
            invariant
                n == self@.len(),
                i <= n,
                o@ == others(self@.take(i as int), me),
            decreases n - i,
        {
            proof {
                assert(self@.take(i + 1).drop_last() =~= self@.take(i as int));
            }
            if self.entries[i].key != me {
                o.push(i);
            }
            i = i + 1;
        }
        proof {
            assert(self@.take(n as int) =~= self@);
        }
        o
    }

    /// The threads a steal by `me` visits, by position, when the visit
    /// starts at the `start`-th thread other than `me`.
    pub fn steal_order_from(&self, me: u64, start: usize) -> (order: Vec<usize>)
        requires
            start + 1 < self@.len(),
        ensures
            order@ == steal_order_spec(self@, me, start as int),
            forall|k: int|
                0 <= k < order@.len() ==> (#[trigger] order@[k] as int) < self@.len() && self@[order@[k]
                    as int].key != me,
    {
        let nb = self.entries.len() - 1;
        let o = self.other_positions(me);
        proof {
            use_type_invariant(self);
            lemma_others(self@, me);
        }
        let n = o.len();
        let mut order: Vec<usize> = Vec::new();
        let mut j: usize = start;
        let mut k: usize = 0;
        proof {
            vstd::arithmetic::div_mod::lemma_small_mod(start as nat, n as nat);
        }
        while k < nb
            invariant
                o@ == others(self@, me),
                n == o@.len(),
                nb + 1 == self@.len(),
                start < nb <= n,
                k <= nb,
                j == (start + k) % (n as int),
                order@ =~= Seq::new(k as nat, |m: int| o@[(start + m) % (n as int)]),
            decreases nb - k,
        {
            order.push(o[j]);
            proof {
                lemma_mod_succ(start + k, n as int);
            }
            j = if j + 1 == n {
                0
            } else {
                j + 1
            };
            k = k + 1;
        }
        proof {
            assert forall|m: int| 0 <= m < order@.len() implies (#[trigger] order@[m] as int)
                < self@.len() && self@[order@[m] as int].key != me by {
                vstd::arithmetic::div_mod::lemma_mod_bound(start + m, n as int);
                let x = (start + m) % (n as int);
                assert(order@[m] == o@[x]);
            }
        }
        order
    }

    /// The threads a steal by `me` visits, by position: the threads other
    /// than `me`, taken cyclically from one drawn at random, as many as
    /// there are registered threads but one.
    pub fn steal_order(&self, me: u64) -> (order: Vec<usize>)
        requires
            self@.len() >= 1,
        ensures
            forall|k: int|
                0 <= k < order@.len() ==> (#[trigger] order@[k] as int) < self@.len() && self@[order@[k]
                    as int].key != me,
            order@.len() == self@.len() - 1,
            self@.len() == 1 || exists|start: int|
                0 <= start < self@.len() - 1 && order@ == steal_order_spec(self@, me, start),
    {
        let nb = self.entries.len() - 1;
        if nb == 0 {
            Vec::new()
        } else {
            let start = random_index(nb);
            self.steal_order_from(me, start)
        }
    }

    /// The unparker of the thread at position `pos`.
    pub fn unparker(&self, pos: usize) -> (unparker: &Unparker)
        requires
            pos < self@.len(),
        ensures
            *unparker == self@[pos as int].unparker,
    {
        &self.entries[pos].unparker
    }

    /// Draws a registered thread at random, to be woken: its position and
    /// its unparker; `None` on an empty registry.
    pub fn random_unparker(&self) -> (chosen: Option<(usize, &Unparker)>)
        ensures
            chosen is None <==> self@.len() == 0,
            chosen matches Some((i, u)) ==> i < self@.len() && *u == self@[i as int].unparker,
    {
        let n = self.entries.len();
        if n == 0 {
            None
        } else {
            let i = random_index(n);
            Some((i, &self.entries[i].unparker))
        }
    }

    /// One `block_on` on the current thread `key` has returned: the thread
    /// is deregistered once, and a registered thread is drawn at random to
    /// be woken (its position in the registry after the deregistration,
    /// whose unparker the caller unparks).
    pub fn deregister_current(&mut self, key: u64) -> (to_wake: Option<usize>)
        ensures
            final(self)@ == deregister_spec(old(self)@, key),
            keys_distinct(final(self)@),
            counts_positive(final(self)@),
            to_wake is None <==> final(self)@.len() == 0,
            to_wake matches Some(i) ==> i < final(self)@.len(),
    {
        self.deregister(key);
        match self.random_unparker() {
            Some((i, _)) => Some(i),
            None => None,
        }
    }
}

} // verus!
