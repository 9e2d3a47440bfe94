use uexec::handle::cancel;
use uexec::state::State;
use uexec::task::{run_start, RunStart};

#[test]
fn cancel_finished() {
    let mut state: State<&str> = State::new();
    let (sender, receiver) = flume::bounded(1);
    // the task `1 + 2` ran to its end and sent its result
    state.begin_task(1);
    sender.send(1 + 2).unwrap();
    state.end_task(1);
    let res = cancel(&mut state, 1, &receiver);
    assert_eq!(res, Some(3));
    assert!(!state.is_live(1));
}

#[test]
fn cancel_pending() {
    let mut state: State<&str> = State::new();
    let (_sender, receiver) = flume::bounded::<()>(1);
    // the task never finishes: it waits in the registry
    state.begin_task(1);
    state.register_future(1, "pending");
    let res = cancel(&mut state, 1, &receiver);
    assert_eq!(res, None);
    // it is dropped with its flags
    assert!(!state.is_registered(1));
    assert!(!state.is_live(1));
}

#[test]
fn cancel_of_a_queued_task_leaves_it_a_last_run() {
    let mut state: State<&str> = State::new();
    let (_sender, receiver) = flume::bounded::<()>(1);
    state.begin_task(5);
    assert_eq!(run_start(&state, 5), RunStart::Poll);
    assert_eq!(cancel(&mut state, 5, &receiver), None);
    assert!(state.is_canceled(5));
    assert_eq!(run_start(&state, 5), RunStart::LastRun);
}

#[test]
fn cancel_leaves_other_tasks_registered() {
    let mut state: State<u32> = State::new();
    let (_sender, receiver) = flume::bounded::<u32>(1);
    state.begin_task(1);
    state.begin_task(2);
    state.register_future(1, 10);
    state.register_future(2, 20);
    assert_eq!(cancel(&mut state, 1, &receiver), None);
    assert_eq!(state.len(), 1);
    assert!(state.is_live(2));
    assert!(!state.is_canceled(2));
    assert_eq!(state.deregister_future(2), Some(20));
}
