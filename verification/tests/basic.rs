use std::future::Future;
use std::pin::Pin;
use std::task::{Context, Poll, Waker};
use uexec::block_on;
use uexec::executor::{Action, BlockOn, Event, Stage};

/// Runs the loop of `block_on` for a main future that needs no other task:
/// setup runs the main task once, and every later poll of the result runs
/// it again.
fn run_main<R, F: Future<Output = R>>(future: F) -> R {
    let mut future = Box::pin(future);
    let mut poll = move || -> Option<R> {
        let mut cx = Context::from_waker(Waker::noop());
        match Pin::as_mut(&mut future).poll(&mut cx) {
            Poll::Ready(r) => Some(r),
            Poll::Pending => None,
        }
    };
    let mut driver = BlockOn::new();
    let mut event = Event::Begin;
    loop {
        event = match block_on(&mut driver, event) {
            Action::Setup => Event::Polled(poll()),
            Action::PopLocal | Action::PopWorker | Action::StealGlobal => Event::Found(false),
            Action::LoadExited => Event::Exited(true),
            Action::PollReceiver => Event::Polled(poll()),
            Action::CheckQueuesEmpty => Event::Empty(true),
            Action::Park => Event::Unparked,
            Action::Run { .. } => Event::Ran,
            Action::Return(r) => return r,
            Action::Ignore => panic!("the loop ignored an event"),
        };
    }
}

#[test]
fn basic() {
    assert_eq!(run_main(async { 3 + 1 }), 4);
}

#[test]
fn ready_main_task_returns_at_setup() {
    let mut driver = BlockOn::new();
    assert!(matches!(block_on(&mut driver, Event::<u8>::Begin), Action::Setup));
    assert!(matches!(block_on(&mut driver, Event::Polled(Some(4u8))), Action::Return(4)));
    assert_eq!(driver.current(), Stage::Finished);
    assert!(matches!(block_on(&mut driver, Event::<u8>::Begin), Action::Ignore));
    assert!(matches!(block_on(&mut driver, Event::Polled(Some(5u8))), Action::Ignore));
}

#[test]
fn pending_main_task_drains_queues_then_parks() {
    let mut d = BlockOn::new();
    assert!(matches!(block_on(&mut d, Event::<u8>::Begin), Action::Setup));
    assert!(matches!(block_on(&mut d, Event::<u8>::Polled(None)), Action::PopLocal));
    // a local task runs first, as a local one
    assert!(matches!(block_on(&mut d, Event::<u8>::Found(true)), Action::Run { local: true }));
    assert!(matches!(block_on(&mut d, Event::<u8>::Ran), Action::PopLocal));
    // then one of the thread's own queue
    assert!(matches!(block_on(&mut d, Event::<u8>::Found(false)), Action::PopWorker));
    assert!(matches!(block_on(&mut d, Event::<u8>::Found(true)), Action::Run { local: false }));
    assert!(matches!(block_on(&mut d, Event::<u8>::Ran), Action::PopLocal));
    // nothing left anywhere
    assert!(matches!(block_on(&mut d, Event::<u8>::Found(false)), Action::PopWorker));
    assert!(matches!(block_on(&mut d, Event::<u8>::Found(false)), Action::StealGlobal));
    assert!(matches!(block_on(&mut d, Event::<u8>::Found(false)), Action::LoadExited));
    assert!(matches!(block_on(&mut d, Event::<u8>::Exited(false)), Action::CheckQueuesEmpty));
    assert!(matches!(block_on(&mut d, Event::<u8>::Empty(true)), Action::StealGlobal));
    assert!(matches!(block_on(&mut d, Event::<u8>::Found(false)), Action::Park));
    assert_eq!(d.current(), Stage::Parked);
    // woken up: the main task has ended meanwhile
    assert!(matches!(block_on(&mut d, Event::<u8>::Unparked), Action::PopLocal));
    assert!(matches!(block_on(&mut d, Event::<u8>::Found(false)), Action::PopWorker));
    assert!(matches!(block_on(&mut d, Event::<u8>::Found(false)), Action::StealGlobal));
    assert!(matches!(block_on(&mut d, Event::<u8>::Found(false)), Action::LoadExited));
    assert!(matches!(block_on(&mut d, Event::<u8>::Exited(true)), Action::PollReceiver));
    assert!(matches!(block_on(&mut d, Event::Polled(Some(7u8))), Action::Return(7)));
}

#[test]
fn queues_not_empty_loops_back_and_idle_steal_runs_task() {
    let mut d = BlockOn::new();
    block_on(&mut d, Event::<u8>::Begin);
    block_on(&mut d, Event::<u8>::Polled(None));
    block_on(&mut d, Event::<u8>::Found(false));
    block_on(&mut d, Event::<u8>::Found(false));
    assert!(matches!(block_on(&mut d, Event::<u8>::Found(false)), Action::LoadExited));
    assert!(matches!(block_on(&mut d, Event::<u8>::Exited(true)), Action::PollReceiver));
    // the result is not there yet
    assert!(matches!(block_on(&mut d, Event::<u8>::Polled(None)), Action::CheckQueuesEmpty));
    // a task arrived meanwhile: back to the local queue
    assert!(matches!(block_on(&mut d, Event::<u8>::Empty(false)), Action::PopLocal));
    block_on(&mut d, Event::<u8>::Found(false));
    block_on(&mut d, Event::<u8>::Found(false));
    block_on(&mut d, Event::<u8>::Found(false));
    block_on(&mut d, Event::<u8>::Exited(false));
    assert!(matches!(block_on(&mut d, Event::<u8>::Empty(true)), Action::StealGlobal));
    // the last steal found a task: run it instead of parking
    assert!(matches!(block_on(&mut d, Event::<u8>::Found(true)), Action::Run { local: false }));
    assert!(matches!(block_on(&mut d, Event::<u8>::Ran), Action::PopLocal));
}

#[test]
fn unexpected_events_are_ignored() {
    let mut d = BlockOn::new();
    assert!(matches!(block_on(&mut d, Event::<u8>::Ran), Action::Ignore));
    assert_eq!(d.current(), Stage::Start);
    block_on(&mut d, Event::<u8>::Begin);
    assert!(matches!(block_on(&mut d, Event::<u8>::Unparked), Action::Ignore));
    assert_eq!(d.current(), Stage::AwaitSetup);
}
