# uexec

A simple work-stealing global and local executor, written in Verus.

`src/` is the verified library: the bookkeeping and the decisions of the
executor, each with a contract, and the laws that hold of them.

- `ids`: task identifiers, handed out by a wrapping counter;
- `state`: the registry of an executor: the tasks that wait for their waker
  and the `pollable` and `canceled` flags of every live task, with what
  settling, waking and canceling a task do to them;
- `task`: the life of one task (poll, settle, wake), where a woken task
  goes, and a model of it in which no wake is lost, which the registry's
  operations refine;
- `threads`: the threads that run an executor, in which order a thread
  steals from the others, the steal itself, and which thread is woken;
- `executor`: the loop of `block_on` as a step function from what was
  observed to what to do next;
- `handle`: canceling a spawned task;
- `workers`: the pool of worker threads.

`app/` is the runtime around it: the global and thread-local executors, the
futures, wakers and join handles, the run queues and the worker threads.
It performs what the library decides, and offers the usual API:
`block_on`, `spawn`, `spawn_local`, `spawn_workers`, `terminate_workers`.

`tests/` exercises the library on concrete values.
