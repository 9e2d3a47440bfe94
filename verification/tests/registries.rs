use crossbeam_utils::sync::Parker;
use uexec::ids::TaskIds;
use uexec::state::State;
use uexec::task::{
    after_poll, on_wake, settle, settle_pending, wake, wake_target, AfterPoll,
    PollOutcome, Settle, WakeAction, WakeTarget,
};
use crossbeam_deque::{Injector, Worker};
use uexec::threads::{
    after_steal, steal_queue, steal_round, StealNext, StealOutcome, Stolen, Threads,
};

#[test]
fn task_ids_start_and_wrap() {
    let mut local = TaskIds::local();
    assert_eq!(local.next_task_id(), 1);
    assert_eq!(local.next_task_id(), 2);
    let mut global = TaskIds::default();
    assert_eq!(global.next_task_id(), 0);
    assert_eq!(global.next_task_id(), 1);
    let mut ids = TaskIds::new();
    let first: Vec<u64> = (0..5).map(|_| ids.next_task_id()).collect();
    assert_eq!(first, vec![0, 1, 2, 3, 4]);
}

#[test]
fn state_register_deregister_cancel() {
    let mut state: State<&str> = State::default();
    assert_eq!(state.len(), 0);
    state.register_future(7, "a");
    state.register_future(8, "b");
    assert!(state.is_registered(7));
    assert_eq!(state.deregister_future(7), Some("a"));
    assert_eq!(state.deregister_future(7), None);
    state.cancel(8);
    assert_eq!(state.deregister_future(8), None);
    state.cancel(9);
    assert_eq!(state.len(), 0);
    state.register_future(1, "x");
    state.register_future(1, "y");
    assert_eq!(state.len(), 1);
    assert_eq!(state.deregister_future(1), Some("y"));
}

#[test]
fn task_decisions() {
    assert_eq!(after_poll(PollOutcome::Ready), AfterPoll::Finish);
    assert_eq!(after_poll(PollOutcome::Pending), AfterPoll::Settle);
    assert_eq!(settle_pending(true), Settle::Requeue);
    assert_eq!(settle_pending(false), Settle::Register);
    assert_eq!(on_wake(true), WakeAction::Reschedule);
    assert_eq!(on_wake(false), WakeAction::MarkPollable);
}

#[test]
fn settle_and_wake_protocol() {
    let mut state: State<&str> = State::new();
    state.begin_task(3);
    // first pending poll: the flag was set, the task goes back to a queue
    assert_eq!(settle(&mut state, 3, "t"), Some("t"));
    assert_eq!(state.len(), 0);
    // second pending poll: the flag is clear, the task is registered
    assert_eq!(settle(&mut state, 3, "t"), None);
    assert!(state.is_registered(3));
    // its waker takes it out again
    assert_eq!(wake(&mut state, 3), Some("t"));
    assert!(!state.is_registered(3));
    // a waker of a live task that is not registered marks it pollable, so
    // that its next pending poll puts it straight back
    assert_eq!(wake(&mut state, 3), None);
    assert_eq!(settle(&mut state, 3, "t"), Some("t"));
    // a task that is over is not touched
    state.end_task(3);
    assert_eq!(wake(&mut state, 3), None);
    assert!(!state.is_live(3));
}

#[test]
fn wake_while_running_is_not_lost() {
    let mut state: State<&str> = State::new();
    state.begin_task(4);
    assert_eq!(settle(&mut state, 4, "t"), Some("t"));
    // the task runs again; its waker fires before the pending poll settles it
    assert_eq!(wake(&mut state, 4), None);
    // settling finds the flag set: the task goes straight back to a queue
    assert_eq!(settle(&mut state, 4, "t"), Some("t"));
    assert!(!state.is_registered(4));
}

#[test]
fn steal_round_visits_queues_in_order() {
    let owners: Vec<Worker<u32>> = (0..3).map(|_| Worker::new_fifo()).collect();
    let mut threads: Threads<crossbeam_deque::Stealer<u32>> = Threads::new();
    for (key, w) in owners.iter().enumerate() {
        threads.register_current(key as u64, w.stealer(), unparker());
    }
    let dest = Worker::new_fifo();
    // every queue is empty: nothing
    let order = threads.steal_order_from(0, 0);
    assert_eq!(order, vec![1, 2]);
    assert!(matches!(steal_round(&threads, &order, 0, &dest), Stolen::Nothing));
    // a task on the last queue of the visit is found
    owners[2].push(7);
    assert!(matches!(steal_round(&threads, &order, 0, &dest), Stolen::Task(7)));
    // the first queue of the visit goes first
    owners[1].push(8);
    owners[2].push(9);
    assert!(matches!(steal_round(&threads, &order, 0, &dest), Stolen::Task(8)));
    assert!(matches!(steal_round(&threads, &order, 1, &dest), Stolen::Task(9)));
}

#[test]
fn steal_queue_takes_from_a_shared_queue() {
    let queue: Injector<u32> = Injector::new();
    let dest = Worker::new_fifo();
    assert!(matches!(steal_queue(&queue, &dest), Stolen::Nothing));
    queue.push(1);
    queue.push(2);
    assert!(matches!(steal_queue(&queue, &dest), Stolen::Task(1)));
    // the rest is either moved into `dest` or still in the queue
    let second = dest.pop().or_else(|| match steal_queue(&queue, &dest) {
        Stolen::Task(t) => Some(t),
        _ => None,
    });
    assert_eq!(second, Some(2));
}

#[test]
fn woken_tasks_go_to_the_right_queue() {
    assert_eq!(wake_target(true, true, true), WakeTarget::LocalQueue);
    assert_eq!(wake_target(true, true, false), WakeTarget::LocalQueue);
    assert_eq!(wake_target(true, false, true), WakeTarget::Inbox);
    assert_eq!(wake_target(true, false, false), WakeTarget::Inbox);
    assert_eq!(wake_target(false, true, true), WakeTarget::ThreadQueue);
    assert_eq!(wake_target(false, false, false), WakeTarget::Global);
}

#[test]
fn steal_decisions() {
    assert_eq!(after_steal(0, 3, StealOutcome::Success), StealNext::Take);
    assert_eq!(after_steal(1, 3, StealOutcome::Retry), StealNext::TryAgain(1));
    assert_eq!(after_steal(1, 3, StealOutcome::Empty), StealNext::Next(2));
    assert_eq!(after_steal(2, 3, StealOutcome::Empty), StealNext::GiveUp);
    assert_eq!(after_steal(0, 1, StealOutcome::Empty), StealNext::GiveUp);
}

fn unparker() -> crossbeam_utils::sync::Unparker {
    Parker::new().unparker().clone()
}

#[test]
fn thread_registration_counts() {
    let mut threads: Threads<&str> = Threads::new();
    threads.register_current(10, "s10", unparker());
    threads.register_current(20, "s20", unparker());
    threads.register_current(10, "other", unparker());
    assert_eq!(threads.len(), 2);
    assert_eq!(threads.count(10), 2);
    assert_eq!(threads.count(20), 1);
    assert_eq!(threads.count(30), 0);
    // the first stealer is kept
    assert_eq!(threads.find(10), Some(0));
    assert_eq!(*threads.stealer(0), "s10");
    threads.deregister(10);
    assert_eq!(threads.count(10), 1);
    assert_eq!(threads.len(), 2);
    let woken = threads.deregister_current(10);
    assert_eq!(threads.count(10), 0);
    assert_eq!(threads.len(), 1);
    assert_eq!(woken, Some(0));
    assert_eq!(*threads.stealer(0), "s20");
    threads.deregister(30);
    assert_eq!(threads.len(), 1);
    assert_eq!(threads.deregister_current(20), None);
    assert_eq!(threads.len(), 0);
}

#[test]
fn steal_order_from_rotates_over_other_threads() {
    let mut threads: Threads<u8> = Threads::new();
    for key in [1u64, 2, 3, 4] {
        threads.register_current(key, key as u8, unparker());
    }
    // thread 2 (position 1) steals from positions 0, 2, 3 in turn
    assert_eq!(threads.steal_order_from(2, 0), vec![0, 2, 3]);
    assert_eq!(threads.steal_order_from(2, 1), vec![2, 3, 0]);
    assert_eq!(threads.steal_order_from(2, 2), vec![3, 0, 2]);
    // an unregistered thread visits all but one
    assert_eq!(threads.steal_order_from(9, 2), vec![2, 3, 0]);
}

#[test]
fn steal_order_visits_each_other_thread_once() {
    let mut threads: Threads<u8> = Threads::new();
    for key in [5u64, 6, 7, 8, 9] {
        threads.register_current(key, 0, unparker());
    }
    for _ in 0..50 {
        let mut order = threads.steal_order(7);
        order.sort();
        assert_eq!(order, vec![0, 1, 3, 4]);
    }
    let mut alone: Threads<u8> = Threads::new();
    alone.register_current(1, 0, unparker());
    assert_eq!(alone.steal_order(1), Vec::<usize>::new());
}

#[test]
fn random_unparker_picks_a_registered_thread() {
    let mut threads: Threads<u8> = Threads::new();
    assert!(threads.random_unparker().is_none());
    for key in 0..3u64 {
        threads.register_current(key, key as u8, unparker());
    }
    for _ in 0..100 {
        let (i, u) = threads.random_unparker().unwrap();
        assert!(i < 3);
        assert!(std::ptr::eq(u, threads.unparker(i)));
        u.unpark();
    }
}
