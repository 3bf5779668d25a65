use std::sync::mpsc::{Receiver, Sender};
use vstd::prelude::*;

verus! {

/// The sending end of a `std::sync::mpsc` channel, held opaquely: wakers send task ids on it.
#[verifier::external_type_specification]
#[verifier::external_body]
#[verifier::reject_recursive_types(T)]
pub struct ExSender<T>(Sender<T>);

/// The receiving end of a `std::sync::mpsc` channel, held opaquely by the executor.
#[verifier::external_type_specification]
#[verifier::external_body]
#[verifier::reject_recursive_types(T)]
pub struct ExReceiver<T>(Receiver<T>);

/// Relies on `Sender::clone`: the copy is a handle on the same channel.
pub assume_specification<T>[ <Sender<T> as Clone>::clone ](s: &Sender<T>) -> (r: Sender<T>)
    ensures
        r == *s,
;

/// Relies on `std::sync::mpsc::channel`: a fresh channel, returned as its two ends.
pub assume_specification<T>[ std::sync::mpsc::channel::<T> ]() -> (Sender<T>, Receiver<T>);

/// Relies on `Sender::send`: queues `id` on the channel without blocking; it is refused
/// (and `false` returned) once the receiving end is gone.
#[verifier::external_body]
fn send_id(s: &Sender<usize>, id: usize) -> (sent: bool) {
    s.send(id).is_ok()
}

/// A handle that schedules one task of one executor to be polled again.
///
/// It may be cloned and invoked from any thread; invoking it queues the task id on the
/// executor's wake channel, which also ends the executor's wait for work.
pub struct Waker {
    id: usize,
    queue: Sender<usize>,
}

impl Waker {
    pub(crate) fn new(id: usize, queue: Sender<usize>) -> (w: Waker)
        ensures
            w.task_id() == id,
            w.channel() == queue,
    {
        Waker { id, queue }
    }

    /// The task that this waker schedules.
    pub closed spec fn task_id(&self) -> usize {
        self.id
    }

    /// The wake channel of the executor that owns the task.
    pub closed spec fn channel(&self) -> Sender<usize> {
        self.queue
    }

    /// The id of the task that this waker schedules.
    pub fn id(&self) -> (r: usize)
        ensures
            r == self.task_id(),
    {
        self.id
    }

    /// Schedules the task to be polled again by its executor.
    pub fn wake(&self) {
        let _ = send_id(&self.queue, self.id);
    }
}

impl Clone for Waker {
    fn clone(&self) -> (r: Self)
        ensures
            r == *self,
    {
        Waker { id: self.id, queue: self.queue.clone() }
    }
}

} // verus!
