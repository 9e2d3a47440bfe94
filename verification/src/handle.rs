//! Canceling a spawned task.

use crate::state::{cancel_effect, State};
use flume::Receiver;
use vstd::prelude::*;

verus! {

#[verifier::external_type_specification]
#[verifier::external_body]
#[verifier::reject_recursive_types(T)]
pub struct ExReceiver<T>(flume::Receiver<T>);

/// Takes the task's result out of its channel, if it is there. Calls
/// `flume::Receiver::try_recv` and keeps its `Ok` value; whether a result is
/// there depends on the task, which may run on another thread, so nothing
/// is stated of it.
#[verifier::external_body]
fn try_recv<R>(receiver: &Receiver<R>) -> Option<R> {
    receiver.try_recv().ok()
}

/// Cancels the task `id` of the registry `state`: a task pending in the
/// registry is dropped; a task that is queued or running is marked
/// canceled, so that it only gets a last run; and the task's result is
/// returned if it had finished.
pub fn cancel<T, R>(state: &mut State<T>, id: u64, receiver: &Receiver<R>) -> (result: Option<R>)
    ensures
        (final(state)@, final(state).flags()) == cancel_effect(old(state)@, old(state).flags(), id),
        old(state).live(id) && !old(state)@.contains_key(id) ==> final(state).canceled(id),
        !final(state)@.contains_key(id),
        final(state)@ == old(state)@.remove(id),
{
    state.cancel(id);
    try_recv(receiver)
}

} // verus!
